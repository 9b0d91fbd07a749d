//! The AI chat panel's logic: messages with alternative replies, the text of
//! a reply and its change summary, which requests may be sent, and model and
//! snippet filtering.

use vstd::prelude::*;
use crate::editing::str_eq;
use crate::settings::{active_server_spec, AiSettings};
use crate::text::{
    chars_of, contains_chars, contains_seq, find_chars, first_occurrence, string_of_range, trim,
    trim_bounds,
};

verus! {

/// A chat message as the backend takes it.
#[derive(Debug)]
pub struct ChatMessage {
    pub role: String,
    pub content: String,
}

/// A chat message in the panel; an assistant message keeps every reply it got
/// (one per retry) and which of them is shown.
#[derive(Debug)]
pub struct UiChatMessage {
    pub role: String,
    pub variants: Vec<String>,
    pub active_variant: usize,
}

impl UiChatMessage {
    /// The shown variant exists.
    pub open spec fn wf(&self) -> bool {
        self.active_variant < self.variants@.len()
    }

    /// A message the user sent.
    pub fn user(content: String) -> (m: Self)
        ensures
            m.role@ == "user"@,
            m.variants@ == seq![content],
            m.active_variant == 0,
            m.wf(),
    {
        let mut variants = Vec::new();
        variants.push(content);
        assert(variants@ =~= seq![content]);
        UiChatMessage { role: String::from_str("user"), variants, active_variant: 0 }
    }

    /// A reply of the assistant.
    pub fn assistant(content: String) -> (m: Self)
        ensures
            m.role@ == "assistant"@,
            m.variants@ == seq![content],
            m.active_variant == 0,
            m.wf(),
    {
        let mut variants = Vec::new();
        variants.push(content);
        assert(variants@ =~= seq![content]);
        UiChatMessage { role: String::from_str("assistant"), variants, active_variant: 0 }
    }

    /// Whether the user sent this message.
    pub fn is_user(&self) -> (b: bool)
        ensures
            b == (self.role@ == "user"@),
    {
        str_eq(self.role.as_str(), "user")
    }

    /// The variant shown.
    pub fn active_content(&self) -> (s: &str)
        requires
            self.wf(),
        ensures
            s@ == self.variants@[self.active_variant as int]@,
    {
        self.variants[self.active_variant].as_str()
    }

    /// The message as sent to the backend: its role and the variant shown.
    pub fn to_api(&self) -> (c: ChatMessage)
        requires
            self.wf(),
        ensures
            c.role@ == self.role@,
            c.content@ == self.variants@[self.active_variant as int]@,
    {
        ChatMessage {
            role: self.role.clone(),
            content: String::from_str(self.active_content()),
        }
    }

    /// Adds a new reply from a retry and shows it.
    pub fn add_variant(&mut self, content: String)
        ensures
            final(self).variants@ == old(self).variants@.push(content),
            final(self).active_variant == old(self).variants@.len(),
            final(self).role == old(self).role,
            final(self).wf(),
    {
        self.variants.push(content);
        self.active_variant = self.variants.len() - 1;
    }

    /// Shows the previous variant, if there is one.
    pub fn show_previous(&mut self)
        ensures
            final(self).active_variant == if old(self).active_variant > 0 {
                (old(self).active_variant - 1) as usize
            } else {
                old(self).active_variant
            },
            final(self).variants == old(self).variants,
            final(self).role == old(self).role,
            old(self).wf() ==> final(self).wf(),
    {
        if self.active_variant > 0 {
            self.active_variant -= 1;
        }
    }

    /// Shows the next variant, if there is one.
    pub fn show_next(&mut self)
        ensures
            final(self).active_variant == if old(self).active_variant + 1 < old(
                self,
            ).variants@.len() {
                (old(self).active_variant + 1) as usize
            } else {
                old(self).active_variant
            },
            final(self).variants == old(self).variants,
            final(self).role == old(self).role,
            old(self).wf() ==> final(self).wf(),
    {
        if self.variants.len() > 0 && self.active_variant < self.variants.len() - 1 {
            self.active_variant += 1;
        }
    }
}

/// The messages to send: the first `upto` messages of the history, as the
/// backend takes them.
pub fn history_to_api(msgs: &Vec<UiChatMessage>, upto: usize) -> (r: Vec<ChatMessage>)
    requires
        forall|i: int| 0 <= i < msgs@.len() ==> (#[trigger] msgs@[i]).wf(),
    ensures
        r@.len() == if upto < msgs@.len() {
            upto as int
        } else {
            msgs@.len() as int
        },
        forall|i: int|
            0 <= i < r@.len() ==> (#[trigger] r@[i]).role@ == msgs@[i].role@ && r@[i].content@
                == msgs@[i].variants@[msgs@[i].active_variant as int]@,
{
    let n = if upto < msgs.len() {
        upto
    } else {
        msgs.len()
    };
    let mut r: Vec<ChatMessage> = Vec::new();
    let mut i: usize = 0;
    while i < n
        invariant
            i <= n <= msgs@.len(),
            r@.len() == i,
            forall|i: int| 0 <= i < msgs@.len() ==> (#[trigger] msgs@[i]).wf(),
            forall|j: int|
                0 <= j < i ==> (#[trigger] r@[j]).role@ == msgs@[j].role@ && r@[j].content@
                    == msgs@[j].variants@[msgs@[j].active_variant as int]@,
        decreases n - i,
    {
        r.push(msgs[i].to_api());
        i += 1;
    }
    r
}

/// Every message of `msgs` shows one of its variants.
pub open spec fn all_wf(msgs: Seq<UiChatMessage>) -> bool {
    forall|i: int| 0 <= i < msgs.len() ==> (#[trigger] msgs[i]).wf()
}

/// `m` is a fresh message of `role` holding just `content`.
pub open spec fn fresh_message(m: UiChatMessage, role: Seq<char>, content: String) -> bool {
    &&& m.role@ == role
    &&& m.variants@ == seq![content]
    &&& m.active_variant == 0
}

/// `r` is what the backend is sent for the first `r.len()` messages of `msgs`.
pub open spec fn api_messages(r: Seq<ChatMessage>, msgs: Seq<UiChatMessage>) -> bool {
    &&& r.len() <= msgs.len()
    &&& forall|i: int|
        0 <= i < r.len() ==> (#[trigger] r[i]).role@ == msgs[i].role@ && r[i].content@
            == msgs[i].variants@[msgs[i].active_variant as int]@
}

/// Adds the user's message `msg` to the conversation and returns what is sent
/// for it: the whole conversation, that message included.
pub fn begin_send(log: &mut Vec<UiChatMessage>, msg: String) -> (r: Vec<ChatMessage>)
    requires
        all_wf(old(log)@),
    ensures
        final(log)@.len() == old(log)@.len() + 1,
        final(log)@.drop_last() == old(log)@,
        fresh_message(final(log)@.last(), "user"@, msg),
        all_wf(final(log)@),
        r@.len() == final(log)@.len(),
        api_messages(r@, final(log)@),
{
    log.push(UiChatMessage::user(msg));
    assert(log@.drop_last() =~= old(log)@);
    let n = log.len();
    history_to_api(log, n)
}

/// Adds the assistant's reply `reply` to the conversation.
pub fn finish_reply(log: &mut Vec<UiChatMessage>, reply: String)
    ensures
        final(log)@.len() == old(log)@.len() + 1,
        final(log)@.drop_last() == old(log)@,
        fresh_message(final(log)@.last(), "assistant"@, reply),
        all_wf(old(log)@) ==> all_wf(final(log)@),
{
    log.push(UiChatMessage::assistant(reply));
    assert(log@.drop_last() =~= old(log)@);
}

/// Adds the retried reply `reply` as a new variant of message `idx`, and shows
/// it; nothing changes when there is no such message.
pub fn finish_retry(log: &mut Vec<UiChatMessage>, idx: usize, reply: String)
    ensures
        final(log)@.len() == old(log)@.len(),
        forall|j: int| 0 <= j < old(log)@.len() && j != idx ==> final(log)@[j] == old(log)@[j],
        idx < old(log)@.len() ==> ({
            &&& final(log)@[idx as int].role == old(log)@[idx as int].role
            &&& final(log)@[idx as int].variants@ == old(log)@[idx as int].variants@.push(reply)
            &&& final(log)@[idx as int].active_variant == old(log)@[idx as int].variants@.len()
        }),
        idx >= old(log)@.len() ==> final(log)@ == old(log)@,
        all_wf(old(log)@) ==> all_wf(final(log)@),
{
    if idx < log.len() {
        let mut m = log.remove(idx);
        m.add_variant(reply);
        log.insert(idx, m);
        assert forall|j: int| 0 <= j < old(log)@.len() && j != idx implies log@[j] == old(log)@[j] by {
        }
    }
}

/// The separator between a reply and the summary of the changes it made.
pub open spec fn changes_marker() -> Seq<char> {
    "\n\n📝 Changes:\n"@
}

/// The text of a reply: the message, followed by the change summary when the
/// reply edited the document and the summary is not blank.
pub open spec fn compose_reply_spec(message: Seq<char>, had_edit: bool, diff: Option<Seq<char>>) -> Seq<
    char,
> {
    match diff {
        Some(d) => if had_edit && trim(d).len() > 0 {
            message + changes_marker() + d
        } else {
            message
        },
        None => message,
    }
}

/// The text of a reply (see [`compose_reply_spec`]).
pub fn compose_reply(message: String, had_edit: bool, diff: Option<&str>) -> (s: String)
    ensures
        s@ == compose_reply_spec(
            message@,
            had_edit,
            match diff {
                Some(d) => Some(d@),
                None => None,
            },
        ),
{
    let mut s = message;
    match diff {
        Some(d) => {
            if had_edit {
                let v = chars_of(d);
                let (a, b) = trim_bounds(v.as_slice());
                if a < b {
                    s.append("\n\n📝 Changes:\n");
                    s.append(d);
                }
            }
        },
        None => {},
    }
    s
}

/// The reply text shown for a failed request.
pub fn error_reply(error: &str) -> (s: String)
    ensures
        s@ == "⚠️ Error: "@ + error@,
{
    let mut s = String::from_str("⚠️ Error: ");
    s.append(error);
    s
}

/// A message shown in the panel split into its text and, for an assistant
/// reply that has one, its change summary.
pub open spec fn split_reply_spec(content: Seq<char>, is_user: bool) -> (Seq<char>, Option<Seq<char>>) {
    if !is_user {
        match first_occurrence(content, changes_marker()) {
            Some(i) => (content.take(i), Some(content.skip(i + changes_marker().len()))),
            None => (content, None),
        }
    } else {
        (content, None)
    }
}

/// A message shown in the panel split into its text and its change summary.
pub fn split_reply(content: &str, is_user: bool) -> (r: (String, Option<String>))
    ensures
        (r.0@, match r.1 {
            Some(d) => Some(d@),
            None => None,
        }) == split_reply_spec(content@, is_user),
{
    if is_user {
        return (String::from_str(content), None);
    }
    let v = chars_of(content);
    let marker = chars_of("\n\n📝 Changes:\n");
    proof {
        reveal_strlit("\n\n📝 Changes:\n");
    }
    match find_chars(v.as_slice(), marker.as_slice()) {
        Some(i) => {
            let n = v.len();
            let m = marker.len();
            let text = string_of_range(v.as_slice(), 0, i);
            let diff = string_of_range(v.as_slice(), i + m, n);
            assert(text@ =~= content@.take(i as int));
            assert(diff@ =~= content@.skip(i + marker@.len()));
            (text, Some(diff))
        },
        None => (String::from_str(content), None),
    }
}


/// A reply with a non-blank change summary is shown split back into its
/// message and that summary, unless the message itself already runs into the
/// separator.
pub proof fn law_split_recovers_reply(message: Seq<char>, diff: Seq<char>)
    requires
        trim(diff).len() > 0,
        !contains_seq(message + changes_marker().drop_last(), changes_marker()),
    ensures
        split_reply_spec(compose_reply_spec(message, true, Some(diff)), false) == (
            message,
            Some(diff),
        ),
{
    let mk = changes_marker();
    let content = message + mk + diff;
    let i = message.len() as int;
    let pre = message + mk.drop_last();
    assert(content.subrange(i, i + mk.len()) =~= mk);
    assert(contains_seq(content, mk));
    if mk.len() == 0 {
        assert(pre.subrange(0, 0 + mk.len() as int) =~= mk);
    }
    assert forall|j: int| 0 <= j < i implies #[trigger] content.subrange(j, j + mk.len()) != mk by {
        if content.subrange(j, j + mk.len()) == mk {
            assert(content.subrange(j, j + mk.len()) =~= pre.subrange(j, j + mk.len()));
        }
    }
    let c = choose|c: int|
        0 <= c && c + mk.len() <= content.len() && #[trigger] content.subrange(c, c + mk.len()) == mk
            && forall|j: int| 0 <= j < c ==> #[trigger] content.subrange(j, j + mk.len()) != mk;
    if c > i {
        assert(content.subrange(i, i + mk.len()) == mk);
    }
    assert(c == i);
    assert(content.take(i) =~= message);
    assert(content.skip(i + mk.len()) =~= diff);
}

/// Whether the chat input may be sent: it is not blank, no request is under
/// way, a model is chosen and a server is active.
pub fn send_ready(input: &str, loading: bool, model: &str, settings: &AiSettings) -> (b: bool)
    ensures
        b == (trim(input@).len() > 0 && !loading && model@.len() > 0 && active_server_spec(
            settings.servers@,
            settings.active_index,
        ) is Some),
{
    let v = chars_of(input);
    let (a, z) = trim_bounds(v.as_slice());
    a < z && !loading && !model.is_empty() && settings.has_active_connection()
}

/// Whether a reply may be retried: no request is under way, a model is chosen
/// and a server is active.
pub fn retry_ready(loading: bool, model: &str, settings: &AiSettings) -> (b: bool)
    ensures
        b == (!loading && model@.len() > 0 && active_server_spec(
            settings.servers@,
            settings.active_index,
        ) is Some),
{
    !loading && !model.is_empty() && settings.has_active_connection()
}

/// What applying an amendment does first: nothing for a blank instruction, an
/// error message when no model is chosen or no server is active.
pub enum AmendCheck {
    Ignore,
    Error(String),
    Ready,
}

/// Checks an amendment request before it is sent.
pub fn amend_check(instruction: &str, model: &str, settings: &AiSettings) -> (r: AmendCheck)
    ensures
        match r {
            AmendCheck::Ignore => trim(instruction@).len() == 0,
            AmendCheck::Error(e) => trim(instruction@).len() > 0 && ((model@.len() == 0 && e@
                == "Select a model in the LLM Panel first."@) || (model@.len() > 0
                && active_server_spec(settings.servers@, settings.active_index) is None && e@
                == "No active server configured."@)),
            AmendCheck::Ready => trim(instruction@).len() > 0 && model@.len() > 0
                && active_server_spec(settings.servers@, settings.active_index) is Some,
        },
{
    let v = chars_of(instruction);
    let (a, z) = trim_bounds(v.as_slice());
    if a == z {
        return AmendCheck::Ignore;
    }
    if model.is_empty() {
        return AmendCheck::Error(String::from_str("Select a model in the LLM Panel first."));
    }
    if !settings.has_active_connection() {
        return AmendCheck::Error(String::from_str("No active server configured."));
    }
    AmendCheck::Ready
}

/// The Unicode lower case of `s`, as `str::to_lowercase` gives it.
pub uninterp spec fn lowercase(s: Seq<char>) -> Seq<char>;

/// `str::to_lowercase`. Claimed: the result is a function of the text alone,
/// named `lowercase`; its content is not stated.
#[verifier::external_body]
fn to_lowercase(s: &str) -> (r: String)
    ensures
        r@ == lowercase(s@),
{
    s.to_lowercase()
}

/// Whether `needle` occurs in `hay`.
pub fn contains_text(hay: &str, needle: &str) -> (b: bool)
    ensures
        b == contains_seq(hay@, needle@),
{
    let h = chars_of(hay);
    let n = chars_of(needle);
    contains_chars(h.as_slice(), n.as_slice())
}

/// The texts of `items` whose lower case holds `query` (already lowered).
pub open spec fn matching(items: Seq<Seq<char>>, query: Seq<char>) -> Seq<Seq<char>>
    decreases items.len(),
{
    if items.len() == 0 {
        items
    } else if contains_seq(lowercase(items.last()), query) {
        matching(items.drop_last(), query).push(items.last())
    } else {
        matching(items.drop_last(), query)
    }
}

pub open spec fn string_views(v: Seq<String>) -> Seq<Seq<char>> {
    v.map_values(|s: String| s@)
}

/// The models whose name, case ignored, holds `filter`; all of them for an
/// empty filter.
pub fn filter_models(models: &Vec<String>, filter: &str) -> (r: Vec<String>)
    ensures
        string_views(r@) == if lowercase(filter@).len() == 0 {
            string_views(models@)
        } else {
            matching(string_views(models@), lowercase(filter@))
        },
{
    let f = to_lowercase(filter);
    let all = f.as_str().is_empty();
    let mut r: Vec<String> = Vec::new();
    let mut i: usize = 0;
    while i < models.len()
        invariant
            i <= models@.len(),
            f@ == lowercase(filter@),
            all == (f@.len() == 0),
            string_views(r@) == if all {
                string_views(models@.take(i as int))
            } else {
                matching(string_views(models@.take(i as int)), f@)
            },
        decreases models@.len() - i,
    {
        let m = &models[i];
        let ghost before = string_views(models@.take(i as int));
        let ghost after = string_views(models@.take(i + 1));
        assert(after.drop_last() =~= before);
        assert(after.last() == m@);
        let ghost prev_r = r@;
        if all {
            r.push(m.clone());
            assert(string_views(r@) =~= string_views(prev_r).push(m@));
            assert(string_views(r@) =~= after);
        } else {
            let lowered = to_lowercase(m.as_str());
            if contains_text(lowered.as_str(), f.as_str()) {
                r.push(m.clone());
                assert(string_views(r@) =~= string_views(prev_r).push(m@));
            }
            assert(string_views(r@) =~= matching(after, f@));
        }
        i += 1;
    }
    assert(models@.take(models@.len() as int) =~= models@);
    r
}

/// An entry of the insert menu.
#[derive(Clone, Copy, Debug)]
pub struct InsertItem {
    pub label: &'static str,
    pub icon: &'static str,
    pub desc: &'static str,
    pub snippet: &'static str,
}

/// The insert menu's entries, in order.
pub open spec fn insert_items_spec() -> Seq<InsertItem> {
    seq![
        InsertItem { label: "Heading 1", icon: "H1", desc: "Large heading", snippet: "# " },
        InsertItem { label: "Heading 2", icon: "H2", desc: "Medium heading", snippet: "## " },
        InsertItem { label: "Heading 3", icon: "H3", desc: "Small heading", snippet: "### " },
        InsertItem { label: "Bold", icon: "B", desc: "Strong text", snippet: "**bold**" },
        InsertItem { label: "Italic", icon: "I", desc: "Emphasized text", snippet: "*italic*" },
        InsertItem { label: "Link", icon: "L", desc: "Hyperlink", snippet: "[text](url)" },
        InsertItem { label: "Image", icon: "Img", desc: "Embedded image", snippet: "![alt](url)" },
        InsertItem { label: "Code Block", icon: "</>", desc: "Multiline code", snippet: "```\ncode\n```" },
        InsertItem { label: "Inline Code", icon: "`", desc: "Inline code snippet", snippet: "`code`" },
        InsertItem { label: "Blockquote", icon: "\"", desc: "Quoted text", snippet: "> " },
        InsertItem { label: "Bullet List", icon: "•", desc: "Unordered list", snippet: "- item\n- item\n- item" },
        InsertItem { label: "Numbered List", icon: "1.", desc: "Ordered list", snippet: "1. item\n2. item\n3. item" },
        InsertItem { label: "Table", icon: "Tbl", desc: "Markdown table", snippet: "| Col 1 | Col 2 |\n|-------|-------|\n| A     | B     |" },
        InsertItem { label: "HR", icon: "---", desc: "Horizontal rule", snippet: "---" },
        InsertItem { label: "Task List", icon: "☑", desc: "Checkboxes", snippet: "- [ ] task\n- [x] done" },
    ]
}

/// The insert menu's entries, in order.
pub fn insert_items() -> (items: Vec<InsertItem>)
    ensures
        items@ == insert_items_spec(),
{
    let mut items = Vec::new();
    items.push(InsertItem { label: "Heading 1", icon: "H1", desc: "Large heading", snippet: "# " });
    items.push(InsertItem { label: "Heading 2", icon: "H2", desc: "Medium heading", snippet: "## " });
    items.push(InsertItem { label: "Heading 3", icon: "H3", desc: "Small heading", snippet: "### " });
    items.push(InsertItem { label: "Bold", icon: "B", desc: "Strong text", snippet: "**bold**" });
    items.push(InsertItem { label: "Italic", icon: "I", desc: "Emphasized text", snippet: "*italic*" });
    items.push(InsertItem { label: "Link", icon: "L", desc: "Hyperlink", snippet: "[text](url)" });
    items.push(InsertItem { label: "Image", icon: "Img", desc: "Embedded image", snippet: "![alt](url)" });
    items.push(InsertItem { label: "Code Block", icon: "</>", desc: "Multiline code", snippet: "```\ncode\n```" });
    items.push(InsertItem { label: "Inline Code", icon: "`", desc: "Inline code snippet", snippet: "`code`" });
    items.push(InsertItem { label: "Blockquote", icon: "\"", desc: "Quoted text", snippet: "> " });
    items.push(InsertItem { label: "Bullet List", icon: "•", desc: "Unordered list", snippet: "- item\n- item\n- item" });
    items.push(InsertItem { label: "Numbered List", icon: "1.", desc: "Ordered list", snippet: "1. item\n2. item\n3. item" });
    items.push(InsertItem { label: "Table", icon: "Tbl", desc: "Markdown table", snippet: "| Col 1 | Col 2 |\n|-------|-------|\n| A     | B     |" });
    items.push(InsertItem { label: "HR", icon: "---", desc: "Horizontal rule", snippet: "---" });
    items.push(InsertItem { label: "Task List", icon: "☑", desc: "Checkboxes", snippet: "- [ ] task\n- [x] done" });
    assert(items@ =~= insert_items_spec());
    items
}

/// The entries of `items` whose label, in lower case, holds `query`.
pub open spec fn matching_items(items: Seq<InsertItem>, query: Seq<char>) -> Seq<InsertItem>
    decreases items.len(),
{
    if items.len() == 0 {
        items
    } else if contains_seq(lowercase(items.last().label@), query) {
        matching_items(items.drop_last(), query).push(items.last())
    } else {
        matching_items(items.drop_last(), query)
    }
}

/// The entries of `items` whose label, case ignored, holds `query`.
pub fn filter_insert_items(items: &Vec<InsertItem>, query: &str) -> (r: Vec<InsertItem>)
    ensures
        r@ == matching_items(items@, lowercase(query@)),
{
    let q = to_lowercase(query);
    let mut r: Vec<InsertItem> = Vec::new();
    let mut i: usize = 0;
    while i < items.len()
        invariant
            i <= items@.len(),
            q@ == lowercase(query@),
            r@ == matching_items(items@.take(i as int), q@),
        decreases items@.len() - i,
    {
        let item = items[i];
        assert(items@.take(i + 1).drop_last() =~= items@.take(i as int));
        assert(items@.take(i + 1).last() == item);
        let lowered = to_lowercase(item.label);
        if contains_text(lowered.as_str(), q.as_str()) {
            r.push(item);
        }
        i += 1;
    }
    assert(items@.take(items@.len() as int) =~= items@);
    r
}

} // verus!
