//! The AI server settings: the configured servers, which one is active, and
//! the edits the settings dialog makes to that list.

use vstd::prelude::*;

verus! {

/// The kind of API a server speaks.
#[derive(Clone, Copy, Debug, PartialEq, Eq, Structural)]
pub enum ServerType {
    Openai,
    Ollama,
}

impl ServerType {
    /// The API base a new server of this kind starts with.
    pub fn default_api_base(&self) -> (s: String)
        ensures
            s@ == match *self {
                ServerType::Openai => "https://api.openai.com/v1"@,
                ServerType::Ollama => "http://localhost:11434/v1"@,
            },
    {
        match self {
            ServerType::Openai => String::from_str("https://api.openai.com/v1"),
            ServerType::Ollama => String::from_str("http://localhost:11434/v1"),
        }
    }

    /// The label shown for this kind.
    pub fn label(&self) -> (s: String)
        ensures
            s@ == match *self {
                ServerType::Openai => "OpenAI"@,
                ServerType::Ollama => "Ollama"@,
            },
    {
        match self {
            ServerType::Openai => String::from_str("OpenAI"),
            ServerType::Ollama => String::from_str("Ollama"),
        }
    }
}

/// One configured AI server.
#[derive(Debug)]
pub struct AiServer {
    pub server_type: ServerType,
    pub name: String,
    pub api_base: String,
    pub api_key: String,
}

impl Clone for AiServer {
    fn clone(&self) -> (r: Self)
        ensures
            r == *self,
    {
        AiServer {
            server_type: self.server_type,
            name: self.name.clone(),
            api_base: self.api_base.clone(),
            api_key: self.api_key.clone(),
        }
    }
}

/// A copy of `servers`, element by element.
pub fn clone_servers(servers: &Vec<AiServer>) -> (r: Vec<AiServer>)
    ensures
        r@ == servers@,
{
    let mut r = Vec::new();
    let mut i: usize = 0;
    while i < servers.len()
        invariant
            i <= servers@.len(),
            r@ == servers@.take(i as int),
        decreases servers@.len() - i,
    {
        r.push(servers[i].clone());
        i += 1;
        assert(r@ =~= servers@.take(i as int));
    }
    assert(servers@.take(servers@.len() as int) =~= servers@);
    r
}

/// The configured servers, the index of the active one, and the model used last.
#[derive(Debug)]
pub struct AiSettings {
    pub servers: Vec<AiServer>,
    pub active_index: Option<usize>,
    pub last_model: Option<String>,
}

impl Default for AiSettings {
    fn default() -> (s: Self)
        ensures
            s.servers@.len() == 0,
            s.active_index is None,
            s.last_model is None,
    {
        AiSettings { servers: Vec::new(), active_index: None, last_model: None }
    }
}

impl Clone for AiSettings {
    fn clone(&self) -> (r: Self)
        ensures
            r.servers@ == self.servers@,
            r.active_index == self.active_index,
            r.last_model == self.last_model,
    {
        AiSettings {
            servers: clone_servers(&self.servers),
            active_index: self.active_index,
            last_model: match &self.last_model {
                Some(m) => Some(m.clone()),
                None => None,
            },
        }
    }
}

/// The active server: the one at the active index, if that index is in range.
pub open spec fn active_server_spec(servers: Seq<AiServer>, active: Option<usize>) -> Option<
    AiServer,
> {
    match active {
        Some(i) => if i < servers.len() {
            Some(servers[i as int])
        } else {
            None
        },
        None => None,
    }
}

impl AiSettings {
    /// The active server, if the active index names one.
    pub fn active_server(&self) -> (r: Option<&AiServer>)
        ensures
            match r {
                Some(s) => active_server_spec(self.servers@, self.active_index) == Some(*s),
                None => active_server_spec(self.servers@, self.active_index) is None,
            },
    {
        match self.active_index {
            Some(i) => if i < self.servers.len() {
                Some(&self.servers[i])
            } else {
                None
            },
            None => None,
        }
    }

    /// Whether a server is active.
    pub fn has_active_connection(&self) -> (b: bool)
        ensures
            b == active_server_spec(self.servers@, self.active_index) is Some,
    {
        self.active_server().is_some()
    }

    /// Remembers `model` as the model used last.
    pub fn remember_model(&mut self, model: String)
        ensures
            final(self).last_model == Some(model),
            final(self).servers == old(self).servers,
            final(self).active_index == old(self).active_index,
    {
        self.last_model = Some(model);
    }
}

/// The index the settings dialog edits when it adds a new server.
pub const NEW_SERVER: usize = usize::MAX;

/// The server list and active index after saving `server` in the dialog:
/// a new server is appended (and becomes active if none is); an existing one
/// is replaced; anything else changes nothing.
pub open spec fn save_server_spec(
    servers: Seq<AiServer>,
    active: Option<usize>,
    editing: Option<usize>,
    server: AiServer,
) -> (Seq<AiServer>, Option<usize>) {
    match editing {
        Some(i) => if i == NEW_SERVER {
            (
                servers.push(server),
                if active is None {
                    Some(servers.len() as usize)
                } else {
                    active
                },
            )
        } else if i < servers.len() {
            (servers.update(i as int, server), active)
        } else {
            (servers, active)
        },
        None => (servers, active),
    }
}

/// Saves `server` into the dialog's list (see [`save_server_spec`]).
pub fn save_server(
    servers: &mut Vec<AiServer>,
    active: &mut Option<usize>,
    editing: Option<usize>,
    server: AiServer,
)
    ensures
        (final(servers)@, *final(active)) == save_server_spec(
            old(servers)@,
            *old(active),
            editing,
            server,
        ),
{
    match editing {
        Some(idx) => {
            if idx == NEW_SERVER {
                servers.push(server);
                if active.is_none() {
                    *active = Some(servers.len() - 1);
                }
            } else if idx < servers.len() {
                servers.set(idx, server);
            }
        },
        None => {},
    }
}

/// The server list, active index and edited index after deleting server `idx`:
/// the active index follows its server, moves to the first server when its own
/// server goes, and is cleared when no server is left.
pub open spec fn delete_server_spec(
    servers: Seq<AiServer>,
    active: Option<usize>,
    editing: Option<usize>,
    idx: usize,
) -> (Seq<AiServer>, Option<usize>, Option<usize>) {
    if idx < servers.len() {
        let rest = servers.remove(idx as int);
        let new_active = if rest.len() == 0 {
            None
        } else {
            match active {
                Some(a) => if a == idx {
                    Some(0usize)
                } else if a > idx {
                    Some((a - 1) as usize)
                } else {
                    Some(a)
                },
                None => None,
            }
        };
        (rest, new_active, if editing == Some(idx) {
            None
        } else {
            editing
        })
    } else {
        (servers, active, editing)
    }
}

/// Deletes server `idx` from the dialog's list; returns the index still being edited.
pub fn delete_server(
    servers: &mut Vec<AiServer>,
    active: &mut Option<usize>,
    editing: Option<usize>,
    idx: usize,
) -> (still_editing: Option<usize>)
    ensures
        (final(servers)@, *final(active), still_editing) == delete_server_spec(
            old(servers)@,
            *old(active),
            editing,
            idx,
        ),
{
    if idx >= servers.len() {
        return editing;
    }
    servers.remove(idx);
    if servers.len() == 0 {
        *active = None;
    } else {
        match *active {
            Some(a) => {
                if a == idx {
                    *active = Some(0);
                } else if a > idx {
                    *active = Some(a - 1);
                }
            },
            None => {},
        }
    }
    if editing == Some(idx) {
        None
    } else {
        editing
    }
}

/// The active index names a server, or is unset.
pub open spec fn active_valid(servers: Seq<AiServer>, active: Option<usize>) -> bool {
    active matches Some(a) ==> a < servers.len()
}

/// Saving and deleting servers in the dialog keep the active index naming a
/// server whenever it did before.
pub proof fn law_server_edits_keep_active_valid(
    servers: Seq<AiServer>,
    active: Option<usize>,
    editing: Option<usize>,
    server: AiServer,
    idx: usize,
)
    requires
        active_valid(servers, active),
        servers.len() < usize::MAX,
    ensures
        ({
            let (s1, a1) = save_server_spec(servers, active, editing, server);
            active_valid(s1, a1)
        }),
        ({
            let (s2, a2, e2) = delete_server_spec(servers, active, editing, idx);
            active_valid(s2, a2)
        }),
{
}

} // verus!
