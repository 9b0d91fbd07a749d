//! Editing the block list the way the line editor does: focus and raw-view
//! toggling, typing into a line, splitting and merging lines, and cursor
//! movement between lines.

use vstd::prelude::*;
use crate::blocks::{
    blocks_wf, block_text_spec, lemma_join_around, lemma_join_concat, current_block_text, first_index, is_first_with_id, join_lines,
    lemma_first_unique, lemma_line_start_bound, line_start, line_start_exec, model_of,
    position_of, remove_char, texts_of, zero_width_space, BlockModel, EditorState, TextBlock,
};
use crate::cursor::{
    byte_prefix, chars_before, clamp_bytes, is_boundary, lemma_chars_before, preserve_hidden_prefix,
    lemma_utf16_to_byte_chars, preserve_prefix_spec, utf16_len, utf16_offset_to_position,
    utf16_to_byte, utf16_to_char,
    visible_cursor_to_raw_cursor,
};
use crate::render::{line_html_spec, render_line_html};
use crate::lines::{
    fence_open_before, lemma_hidden_iff_prefix, lemma_line_prefix, line_render_info, line_spec,
    render_info_spec, LineKind, LineRenderInfo, LineSpec,
};
use crate::text::{
    byte_length, chars_of, lemma_len_bounds, lemma_utf16_len_concat, lemma_utf8_len_concat, push_one,
    string_of_range, utf16_len_of, utf8_len,
};

verus! {

/// The mathematical content of an [`EditorState`].
pub struct EditorModel {
    pub blocks: Seq<BlockModel>,
    pub next_id: usize,
    pub raw_lines: Set<usize>,
    pub active_raw_line: Option<usize>,
}

impl View for EditorState {
    type V = EditorModel;

    open spec fn view(&self) -> EditorModel {
        EditorModel {
            blocks: model_of(self.blocks@),
            next_id: self.next_id,
            raw_lines: self.raw_lines@,
            active_raw_line: self.active_raw_line,
        }
    }
}

/// The presentation of line `id`.
pub open spec fn info_of(m: EditorModel, id: usize) -> LineSpec {
    render_info_spec(m.blocks, id)
}

/// The raw text of line `id` (empty when there is no such line).
pub open spec fn text_of(m: EditorModel, id: usize) -> Seq<char> {
    block_text_spec(m.blocks, id)
}

/// Line `id` is shown as raw source: it cannot be presented otherwise, has
/// raw focus, or is pinned raw.
pub open spec fn is_raw_spec(m: EditorModel, id: usize) -> bool {
    info_of(m, id).raw_only || m.active_raw_line == Some(id) || m.raw_lines.contains(id)
}

/// Focusing line `id` shows it raw when it is raw-only, asks for raw view on
/// focus, is pinned raw, or hides no prefix.
pub open spec fn focus_spec(m: EditorModel, id: usize) -> EditorModel {
    let info = info_of(m, id);
    if info.raw_only || info.auto_raw_on_focus || m.raw_lines.contains(id) || !info.hidden_prefix {
        EditorModel { active_raw_line: Some(id), ..m }
    } else {
        m
    }
}

/// Leaving line `id` ends its raw focus.
pub open spec fn blur_spec(m: EditorModel, id: usize) -> EditorModel {
    if m.active_raw_line == Some(id) {
        EditorModel { active_raw_line: None, ..m }
    } else {
        m
    }
}

impl EditorState {
    /// The raw text of line `id`, or an empty string.
    pub fn block_text(&self, id: usize) -> (s: String)
        ensures
            s@ == text_of(self@, id),
    {
        current_block_text(self.blocks.as_slice(), id)
    }

    /// The presentation of line `id`.
    pub fn line_info(&self, id: usize) -> (info: LineRenderInfo)
        ensures
            info@ == info_of(self@, id),
    {
        line_render_info(self.blocks.as_slice(), id)
    }

    /// Whether line `id` is shown as raw source.
    pub fn is_raw(&self, id: usize) -> (b: bool)
        ensures
            b == is_raw_spec(self@, id),
    {
        let info = self.line_info(id);
        info.raw_only || self.active_raw_line == Some(id) || self.raw_lines.contains(&id)
    }

    /// Line `id` got focus.
    pub fn focus_line(&mut self, id: usize)
        ensures
            final(self)@ == focus_spec(old(self)@, id),
            final(self).blocks == old(self).blocks,
            final(self).next_id == old(self).next_id,
            old(self).wf() ==> final(self).wf(),
    {
        let info = self.line_info(id);
        let pinned = self.raw_lines.contains(&id);
        if info.raw_only || info.auto_raw_on_focus || pinned || !info.hidden_prefix {
            self.active_raw_line = Some(id);
        }
    }

    /// Line `id` lost focus.
    pub fn blur_line(&mut self, id: usize)
        ensures
            final(self)@ == blur_spec(old(self)@, id),
            final(self).blocks == old(self).blocks,
            final(self).next_id == old(self).next_id,
            old(self).wf() ==> final(self).wf(),
    {
        if self.active_raw_line == Some(id) {
            self.active_raw_line = None;
        }
    }
}


/// The line `id` is presented as `line_spec` of its own text.
pub proof fn lemma_info_of_text(m: EditorModel, id: usize)
    ensures
        exists|inside: bool| info_of(m, id) == line_spec(text_of(m, id), inside),
{
    match first_index(m.blocks, id) {
        Some(k) => {
            assert(info_of(m, id) == line_spec(
                text_of(m, id),
                fence_open_before(texts_of(m.blocks), k),
            ));
        },
        None => {
            assert(info_of(m, id) == line_spec(text_of(m, id), false));
        },
    }
}

/// A prefix of whole characters is a boundary, and `byte_prefix` gives it back.
pub proof fn lemma_prefix_boundary(s: Seq<char>, p: int)
    requires
        0 <= p <= s.len(),
    ensures
        is_boundary(s, utf8_len(s.take(p)) as int),
        clamp_bytes(s, utf8_len(s.take(p)) as int) == utf8_len(s.take(p)),
        byte_prefix(s, utf8_len(s.take(p)) as int) == s.take(p),
        chars_before(s, utf8_len(s.take(p)) as int) == p,
{
    lemma_utf8_len_concat(s.take(p), s.skip(p));
    assert(s.take(p) + s.skip(p) =~= s);
    lemma_chars_before(s, utf8_len(s.take(p)) as int, p);
}

/// The hidden prefix of line `id` lies on a character boundary of its text.
pub proof fn lemma_info_prefix_boundary(m: EditorModel, id: usize)
    ensures
        is_boundary(text_of(m, id), info_of(m, id).prefix_len as int),
        clamp_bytes(text_of(m, id), info_of(m, id).prefix_len as int) == info_of(
            m,
            id,
        ).prefix_len,
        info_of(m, id).visible_text == text_of(m, id).skip(
            chars_before(text_of(m, id), info_of(m, id).prefix_len as int),
        ),
        byte_prefix(text_of(m, id), info_of(m, id).prefix_len as int) == text_of(m, id).take(
            chars_before(text_of(m, id), info_of(m, id).prefix_len as int),
        ),
{
    lemma_info_of_text(m, id);
    let inside = choose|inside: bool| info_of(m, id) == line_spec(text_of(m, id), inside);
    let s = text_of(m, id);
    lemma_line_prefix(s, inside);
    let p = choose|p: nat|
        p <= s.len() && line_spec(s, inside).prefix_len == utf8_len(#[trigger] s.take(p as int))
            && line_spec(s, inside).visible_text == s.skip(p as int);
    lemma_prefix_boundary(s, p as int);
}

/// `blocks` with the text of the first block with id `id` replaced by `t`.
pub open spec fn set_text_spec(blocks: Seq<BlockModel>, id: usize, t: Seq<char>) -> Seq<BlockModel> {
    match first_index(blocks, id) {
        Some(k) => blocks.update(k, BlockModel { id, text: t }),
        None => blocks,
    }
}

/// Replacing a text keeps every id where it was.
pub proof fn lemma_set_text_ids(blocks: Seq<BlockModel>, id: usize, t: Seq<char>, other: usize)
    ensures
        first_index(set_text_spec(blocks, id, t), other) == first_index(blocks, other),
        set_text_spec(blocks, id, t).len() == blocks.len(),
{
    let nb = set_text_spec(blocks, id, t);
    if let Some(k0) = first_index(blocks, id) {
        assert(is_first_with_id(blocks, id, k0));
    }
    assert(nb.len() == blocks.len());
    assert forall|k: int| 0 <= k < blocks.len() implies (#[trigger] nb[k]).id == blocks[k].id by {
    }
    if let Some(k) = first_index(blocks, other) {
        assert(is_first_with_id(blocks, other, k));
        assert forall|j: int| 0 <= j < k implies (#[trigger] nb[j]).id != other by {
            assert(nb[j].id == blocks[j].id);
        }
        assert(is_first_with_id(nb, other, k));
        lemma_first_unique(nb, other, k);
    } else {
        if exists|k: int| is_first_with_id(nb, other, k) {
            let k = choose|k: int| is_first_with_id(nb, other, k);
            assert forall|j: int| 0 <= j < k implies (#[trigger] blocks[j]).id != other by {
                assert(nb[j].id == blocks[j].id);
            }
            assert(nb[k].id == blocks[k].id);
            assert(is_first_with_id(blocks, other, k));
        }
    }
}

/// The text line `id` gets when its visible part is edited to `dom`: zero-width
/// spaces dropped; a line shown formatted keeps its hidden prefix.
pub open spec fn input_text_spec(m: EditorModel, id: usize, dom: Seq<char>) -> Seq<char> {
    let visible = remove_char(dom, zero_width_space());
    let info = info_of(m, id);
    if is_raw_spec(m, id) || info.raw_only {
        visible
    } else {
        preserve_prefix_spec(info.prefix_len as int, text_of(m, id), visible)
    }
}

/// The state after line `id` was edited to `dom`.
pub open spec fn input_spec(m: EditorModel, id: usize, dom: Seq<char>) -> EditorModel {
    EditorModel { blocks: set_text_spec(m.blocks, id, input_text_spec(m, id, dom)), ..m }
}

/// The raw UTF-16 cursor of line `id` for a cursor `c` in what is displayed.
pub open spec fn raw_cursor_spec(m: EditorModel, id: usize, c: int) -> int {
    if is_raw_spec(m, id) {
        c
    } else {
        utf16_len_of(byte_prefix(text_of(m, id), info_of(m, id).prefix_len as int)) + c
    }
}

/// Where the insert menu opens after typing into line `id`: when the character
/// just before the cursor is `@`, the byte offset of the cursor in the whole
/// document.
pub open spec fn at_menu_spec(m: EditorModel, id: usize, dom: Seq<char>, cursor: Option<usize>) -> Option<int> {
    match cursor {
        None => None,
        Some(c) => {
            let next = input_text_spec(m, id, dom);
            let b = utf16_to_byte(next, raw_cursor_spec(m, id, c as int));
            let blocks = set_text_spec(m.blocks, id, next);
            let pos = match first_index(blocks, id) {
                Some(p) => p,
                None => 0,
            };
            if b > 0 && next[chars_before(next, b as int) - 1] == '@' {
                Some((line_start(texts_of(blocks), pos) + b) as int)
            } else {
                None
            }
        },
    }
}

/// `text` without zero-width spaces.
pub fn strip_zero_width(text: &str) -> (s: String)
    ensures
        s@ == remove_char(text@, zero_width_space()),
{
    let v = chars_of(text);
    let mut s = String::new();
    let mut i: usize = 0;
    assert(v@.take(0) =~= Seq::<char>::empty());
    while i < v.len()
        invariant
            i <= v@.len(),
            s@ == remove_char(v@.take(i as int), zero_width_space()),
        decreases v@.len() - i,
    {
        let c = v[i];
        assert(v@.take(i + 1).drop_last() =~= v@.take(i as int));
        assert(v@.take(i + 1).last() == c);
        if c != '\u{200b}' {
            push_one(&mut s, c);
        }
        assert(s@ =~= remove_char(v@.take(i + 1), zero_width_space()));
        i += 1;
    }
    assert(v@.take(v@.len() as int) =~= v@);
    s
}

/// Sets the text of `blocks[k]`, keeping its id.
fn set_block_text(blocks: &mut Vec<TextBlock>, k: usize, text: String)
    requires
        k < old(blocks)@.len(),
    ensures
        model_of(final(blocks)@) == model_of(old(blocks)@).update(
            k as int,
            BlockModel { id: old(blocks)@[k as int].id, text: text@ },
        ),
{
    let id = blocks[k].id;
    blocks.set(k, TextBlock { id, text });
    assert(model_of(blocks@) =~= model_of(old(blocks)@).update(
        k as int,
        BlockModel { id, text: text@ },
    ));
}

impl EditorState {
    /// Line `id` was edited and now displays `dom_text`; `cursor_utf16` is the
    /// cursor in what is displayed, if known. Stores the new text and returns the
    /// document offset at which to open the insert menu, if `@` was just typed.
    pub fn apply_input(&mut self, id: usize, dom_text: &str, cursor_utf16: Option<usize>) -> (at:
        Option<usize>)
        requires
            cursor_utf16 matches Some(c) ==> raw_cursor_spec(old(self)@, id, c as int)
                <= usize::MAX,
            cursor_utf16 is Some ==> utf8_len(
                join_lines(texts_of(input_spec(old(self)@, id, dom_text@).blocks)),
            ) <= usize::MAX,
        ensures
            final(self)@ == input_spec(old(self)@, id, dom_text@),
            old(self).wf() ==> final(self).wf(),
            match at {
                Some(n) => at_menu_spec(old(self)@, id, dom_text@, cursor_utf16) == Some(n as int),
                None => at_menu_spec(old(self)@, id, dom_text@, cursor_utf16) is None,
            },
    {
        let ghost m = self@;
        proof {
            if self.wf() {
                law_input_keeps_blocks_wf(m, id, dom_text@);
            }
        }
        let visible = strip_zero_width(dom_text);
        let raw_mode = self.is_raw(id);
        let previous_text = self.block_text(id);
        let previous_info = self.line_info(id);
        proof {
            lemma_info_prefix_boundary(m, id);
        }
        let next_text = if raw_mode || previous_info.raw_only {
            visible
        } else {
            preserve_hidden_prefix(
                previous_info.presentation.prefix_len,
                previous_text.as_str(),
                visible.as_str(),
            )
        };
        assert(next_text@ == input_text_spec(m, id, dom_text@));
        let ghost next = next_text@;
        let v = chars_of(next_text.as_str());
        let total = byte_length(next_text.as_str());
        match position_of(self.blocks.as_slice(), id) {
            Some(k) => {
                set_block_text(&mut self.blocks, k, next_text);
            },
            None => {},
        }
        assert(self@.blocks =~= set_text_spec(m.blocks, id, next));
        proof {
            lemma_set_text_ids(m.blocks, id, next, id);
        }
        let c = match cursor_utf16 {
            Some(c) => c,
            None => {
                return None;
            },
        };
        let source = if raw_mode {
            c
        } else {
            visible_cursor_to_raw_cursor(
                previous_info.presentation.prefix_len,
                previous_text.as_str(),
                c,
            )
        };
        let (k, b) = utf16_offset_to_position(v.as_slice(), total, source);
        proof {
            lemma_chars_before(next, b as int, k as int);
        }
        if b > 0 {
            if k == 0 {
                assert(v@.take(0) =~= Seq::<char>::empty());
            }
            if v[k - 1] == '@' {
                let start = match position_of(self.blocks.as_slice(), id) {
                    Some(pos) => {
                        proof {
                            lemma_line_start_bound(texts_of(self@.blocks), pos as int);
                            assert(texts_of(self@.blocks)[pos as int] == next);
                            lemma_prefix_boundary(next, k as int);
                            lemma_utf8_len_concat(next.take(k as int), next.skip(k as int));
                            assert(next.take(k as int) + next.skip(k as int) =~= next);
                        }
                        line_start_exec(self.blocks.as_slice(), pos)
                    },
                    None => 0,
                };
                proof {
                    lemma_utf8_len_concat(next.take(k as int), next.skip(k as int));
                    assert(next.take(k as int) + next.skip(k as int) =~= next);
                }
                return Some(start + b);
            }
        }
        None
    }
}


/// A key press the line editor reacts to.
#[derive(Clone, Copy, Debug, PartialEq, Eq, Structural)]
pub enum EditorKey {
    /// Ctrl or Cmd with `r`: pin or unpin the line's raw view.
    ToggleRaw,
    ArrowLeft,
    Home,
    ArrowUp,
    ArrowDown,
    /// Enter without Shift: split the line.
    Enter,
    Backspace,
    Other,
}

/// Which [`EditorKey`] the key name `key` with the given modifiers is.
pub open spec fn classify_key_spec(key: Seq<char>, ctrl: bool, meta: bool, shift: bool) -> EditorKey {
    if (ctrl || meta) && (key == "r"@ || key == "R"@) {
        EditorKey::ToggleRaw
    } else if key == "ArrowLeft"@ {
        EditorKey::ArrowLeft
    } else if key == "Home"@ {
        EditorKey::Home
    } else if key == "ArrowUp"@ {
        EditorKey::ArrowUp
    } else if key == "ArrowDown"@ {
        EditorKey::ArrowDown
    } else if key == "Enter"@ && !shift {
        EditorKey::Enter
    } else if key == "Backspace"@ {
        EditorKey::Backspace
    } else {
        EditorKey::Other
    }
}

/// Whether `a` and `b` hold the same characters.
pub fn str_eq(a: &str, b: &str) -> (r: bool)
    ensures
        r == (a@ == b@),
{
    let x = chars_of(a);
    let y = chars_of(b);
    if x.len() != y.len() {
        return false;
    }
    let mut i: usize = 0;
    while i < x.len()
        invariant
            i <= x@.len() == y@.len(),
            x@ == a@,
            y@ == b@,
            forall|j: int| 0 <= j < i ==> x@[j] == y@[j],
        decreases x@.len() - i,
    {
        if x[i] != y[i] {
            assert(x@[i as int] != y@[i as int]);
            assert(a@ != b@);
            return false;
        }
        i += 1;
    }
    assert(x@ =~= y@);
    true
}

/// Which [`EditorKey`] the browser key name `key` with the given modifiers is.
pub fn classify_key(key: &str, ctrl: bool, meta: bool, shift: bool) -> (k: EditorKey)
    ensures
        k == classify_key_spec(key@, ctrl, meta, shift),
{
    if (ctrl || meta) && (str_eq(key, "r") || str_eq(key, "R")) {
        EditorKey::ToggleRaw
    } else if str_eq(key, "ArrowLeft") {
        EditorKey::ArrowLeft
    } else if str_eq(key, "Home") {
        EditorKey::Home
    } else if str_eq(key, "ArrowUp") {
        EditorKey::ArrowUp
    } else if str_eq(key, "ArrowDown") {
        EditorKey::ArrowDown
    } else if str_eq(key, "Enter") && !shift {
        EditorKey::Enter
    } else if str_eq(key, "Backspace") {
        EditorKey::Backspace
    } else {
        EditorKey::Other
    }
}

/// Where the focus moves: a line and a UTF-16 offset in what it displays.
#[derive(Clone, Copy, Debug, PartialEq, Eq, Structural)]
pub struct FocusTarget {
    pub block_id: usize,
    pub offset: usize,
}

/// What the page does after a key press: cancel the browser's default, move
/// the focus, and report a changed document.
#[derive(Clone, Copy, Debug, PartialEq, Eq, Structural)]
pub struct KeyOutcome {
    pub prevent_default: bool,
    pub focus: Option<FocusTarget>,
    pub changed: bool,
}

pub open spec fn ignored() -> KeyOutcome {
    KeyOutcome { prevent_default: false, focus: None, changed: false }
}

/// `s` with `id` added, or taken out if it was there.
pub open spec fn toggle_set(s: Set<usize>, id: usize) -> Set<usize> {
    if s.contains(id) {
        s.remove(id)
    } else {
        s.insert(id)
    }
}

/// Line `id` split at the displayed UTF-16 cursor `cursor` (the line's end when
/// unknown); the part after the cursor becomes a new line with id `next_id`.
pub open spec fn split_spec(m: EditorModel, id: usize, cursor: Option<usize>) -> EditorModel {
    let text = text_of(m, id);
    let info = info_of(m, id);
    let vc = match cursor {
        Some(c) => c as int,
        None => if is_raw_spec(m, id) {
            utf16_len_of(text) as int
        } else {
            utf16_len_of(info.visible_text) as int
        },
    };
    let k = chars_before(text, utf16_to_byte(text, raw_cursor_spec(m, id, vc)) as int);
    let blocks = match first_index(m.blocks, id) {
        Some(p) => m.blocks.update(p, BlockModel { id, text: text.take(k) }).insert(
            p + 1,
            BlockModel { id: m.next_id, text: text.skip(k) },
        ),
        None => m.blocks,
    };
    EditorModel { blocks, next_id: (m.next_id + 1) as usize, ..m }
}

/// Line `p` appended to line `p - 1`, and removed.
pub open spec fn merge_spec(m: EditorModel, p: int) -> EditorModel {
    let prev = m.blocks[p - 1];
    EditorModel {
        blocks: m.blocks.update(
            p - 1,
            BlockModel { id: prev.id, text: prev.text + m.blocks[p].text },
        ).remove(p),
        ..m
    }
}

/// The state and outcome after `key` is pressed in line `id` with the displayed
/// UTF-16 cursor `cursor` (unknown: `None`).
pub open spec fn key_spec(m: EditorModel, id: usize, key: EditorKey, cursor: Option<usize>) -> (
    EditorModel,
    KeyOutcome,
) {
    let info = info_of(m, id);
    let raw = is_raw_spec(m, id);
    let c0: int = match cursor {
        Some(c) => c as int,
        None => 0,
    };
    let reveal_prefix = (
        EditorModel { active_raw_line: Some(id), ..m },
        KeyOutcome {
            prevent_default: true,
            focus: Some(FocusTarget { block_id: id, offset: raw_cursor_spec(m, id, 0) as usize }),
            changed: false,
        },
    );
    match key {
        EditorKey::ToggleRaw => if info.raw_only {
            (m, ignored())
        } else {
            (
                EditorModel {
                    raw_lines: toggle_set(m.raw_lines, id),
                    active_raw_line: Some(id),
                    ..m
                },
                KeyOutcome { prevent_default: true, focus: None, changed: false },
            )
        },
        EditorKey::ArrowLeft | EditorKey::Home => if !raw && info.hidden_prefix && c0 == 0 {
            reveal_prefix
        } else {
            (m, ignored())
        },
        EditorKey::ArrowUp => match first_index(m.blocks, id) {
            Some(p) => if c0 == 0 && p > 0 {
                (
                    m,
                    KeyOutcome {
                        prevent_default: true,
                        focus: Some(
                            FocusTarget {
                                block_id: m.blocks[p - 1].id,
                                offset: utf16_len_of(m.blocks[p - 1].text) as usize,
                            },
                        ),
                        changed: false,
                    },
                )
            } else {
                (m, ignored())
            },
            None => (m, ignored()),
        },
        EditorKey::ArrowDown => match first_index(m.blocks, id) {
            Some(p) => {
                let line_len = if raw {
                    utf16_len_of(m.blocks[p].text)
                } else {
                    utf16_len_of(info.visible_text)
                };
                if c0 >= line_len && p + 1 < m.blocks.len() {
                    (
                        m,
                        KeyOutcome {
                            prevent_default: true,
                            focus: Some(FocusTarget { block_id: m.blocks[p + 1].id, offset: 0 }),
                            changed: false,
                        },
                    )
                } else {
                    (m, ignored())
                }
            },
            None => (m, ignored()),
        },
        EditorKey::Enter => (
            split_spec(m, id, cursor),
            KeyOutcome {
                prevent_default: true,
                focus: Some(FocusTarget { block_id: m.next_id, offset: 0 }),
                changed: true,
            },
        ),
        EditorKey::Backspace => if !raw && info.hidden_prefix && c0 == 0 {
            reveal_prefix
        } else if c0 == 0 {
            match first_index(m.blocks, id) {
                Some(p) => if p > 0 {
                    (
                        merge_spec(m, p),
                        KeyOutcome {
                            prevent_default: true,
                            focus: Some(
                                FocusTarget {
                                    block_id: m.blocks[p - 1].id,
                                    offset: utf16_len_of(m.blocks[p - 1].text) as usize,
                                },
                            ),
                            changed: true,
                        },
                    )
                } else {
                    (m, ignored())
                },
                None => (m, ignored()),
            }
        } else {
            (m, ignored())
        },
        EditorKey::Other => (m, ignored()),
    }
}

/// The cursor bounds that a key press needs to stay within `usize`.
pub open spec fn key_fits(m: EditorModel, id: usize, key: EditorKey, cursor: Option<usize>) -> bool {
    key == EditorKey::Enter ==> {
        &&& m.next_id < usize::MAX
        &&& cursor matches Some(c) ==> raw_cursor_spec(m, id, c as int) <= usize::MAX
    }
}


/// The UTF-16 length of a prefix fits wherever its text's byte length does.
proof fn lemma_prefix_utf16_fits(s: Seq<char>, k: int)
    requires
        0 <= k <= s.len(),
    ensures
        utf16_len_of(s.take(k)) <= utf8_len(s),
        utf16_len_of(s) <= utf8_len(s),
{
    lemma_len_bounds(s.take(k));
    lemma_len_bounds(s);
    lemma_utf8_len_concat(s.take(k), s.skip(k));
    assert(s.take(k) + s.skip(k) =~= s);
}

impl EditorState {
    /// Ctrl/Cmd+R in line `id`.
    fn key_toggle_raw(&mut self, id: usize, cursor: Option<usize>) -> (out: KeyOutcome)
        ensures
            (final(self)@, out) == key_spec(old(self)@, id, EditorKey::ToggleRaw, cursor),
    {
        let ghost m = self@;
        let info = self.line_info(id);
        if info.raw_only {
            return KeyOutcome { prevent_default: false, focus: None, changed: false };
        }
        if !self.raw_lines.insert(id) {
            self.raw_lines.remove(&id);
        }
        self.active_raw_line = Some(id);
        assert(self@.raw_lines =~= toggle_set(m.raw_lines, id));
        KeyOutcome { prevent_default: true, focus: None, changed: false }
    }

    /// Whether `key` at the displayed cursor `cursor` moves into the hidden prefix
    /// of line `id`; if so, shows the line raw with the cursor before its text.
    fn key_reveal_prefix(&mut self, id: usize, key: EditorKey, cursor: Option<usize>) -> (out:
        Option<KeyOutcome>)
        requires
            key == EditorKey::ArrowLeft || key == EditorKey::Home || key == EditorKey::Backspace,
        ensures
            match out {
                Some(o) => (final(self)@, o) == key_spec(old(self)@, id, key, cursor),
                None => final(self)@ == old(self)@ && !(!is_raw_spec(old(self)@, id) && info_of(
                    old(self)@,
                    id,
                ).hidden_prefix && (match cursor {
                    Some(c) => c as int,
                    None => 0,
                }) == 0),
            },
    {
        let ghost m = self@;
        let current_text = self.block_text(id);
        let info = self.line_info(id);
        let raw_mode = self.is_raw(id);
        let c0 = match cursor {
            Some(c) => c,
            None => 0,
        };
        if raw_mode || !info.hidden_prefix || c0 != 0 {
            return None;
        }
        proof {
            lemma_info_prefix_boundary(m, id);
            let pk = chars_before(current_text@, info@.prefix_len as int);
            lemma_prefix_utf16_fits(current_text@, pk);
        }
        let _ = byte_length(current_text.as_str());
        self.active_raw_line = Some(id);
        let offset = visible_cursor_to_raw_cursor(
            info.presentation.prefix_len,
            current_text.as_str(),
            0,
        );
        Some(
            KeyOutcome {
                prevent_default: true,
                focus: Some(FocusTarget { block_id: id, offset }),
                changed: false,
            },
        )
    }

    /// ArrowUp in line `id`.
    fn key_up(&self, id: usize, cursor: Option<usize>) -> (out: KeyOutcome)
        ensures
            (self@, out) == key_spec(self@, id, EditorKey::ArrowUp, cursor),
    {
        let c0 = match cursor {
            Some(c) => c,
            None => 0,
        };
        match position_of(self.blocks.as_slice(), id) {
            Some(p) => {
                if c0 == 0 && p > 0 {
                    let prev = &self.blocks[p - 1];
                    let offset = utf16_len(prev.text.as_str());
                    KeyOutcome {
                        prevent_default: true,
                        focus: Some(FocusTarget { block_id: prev.id, offset }),
                        changed: false,
                    }
                } else {
                    KeyOutcome { prevent_default: false, focus: None, changed: false }
                }
            },
            None => KeyOutcome { prevent_default: false, focus: None, changed: false },
        }
    }

    /// ArrowDown in line `id`.
    fn key_down(&self, id: usize, cursor: Option<usize>) -> (out: KeyOutcome)
        ensures
            (self@, out) == key_spec(self@, id, EditorKey::ArrowDown, cursor),
    {
        let c0 = match cursor {
            Some(c) => c,
            None => 0,
        };
        let info = self.line_info(id);
        let raw_mode = self.is_raw(id);
        match position_of(self.blocks.as_slice(), id) {
            Some(p) => {
                let line_len = if raw_mode {
                    utf16_len(self.blocks[p].text.as_str())
                } else {
                    utf16_len(info.presentation.visible_text.as_str())
                };
                let n = self.blocks.len();
                if c0 >= line_len && p + 1 < n {
                    KeyOutcome {
                        prevent_default: true,
                        focus: Some(FocusTarget { block_id: self.blocks[p + 1].id, offset: 0 }),
                        changed: false,
                    }
                } else {
                    KeyOutcome { prevent_default: false, focus: None, changed: false }
                }
            },
            None => KeyOutcome { prevent_default: false, focus: None, changed: false },
        }
    }

    /// Enter in line `id`: splits it at the cursor.
    #[verifier::spinoff_prover]
    #[verifier::rlimit(40)]
    fn key_enter(&mut self, id: usize, cursor: Option<usize>) -> (out: KeyOutcome)
        requires
            key_fits(old(self)@, id, EditorKey::Enter, cursor),
        ensures
            (final(self)@, out) == key_spec(old(self)@, id, EditorKey::Enter, cursor),
    {
        let ghost m = self@;
        let current_text = self.block_text(id);
        let current_info = self.line_info(id);
        let raw_mode = self.is_raw(id);
        let total = byte_length(current_text.as_str());
        let ghost text = current_text@;
        let ghost pk = chars_before(text, current_info@.prefix_len as int);
        proof {
            lemma_info_prefix_boundary(m, id);
            lemma_prefix_utf16_fits(text, pk);
        }
        let visible_cursor = match cursor {
            Some(c) => c,
            None => if raw_mode {
                utf16_len(current_text.as_str())
            } else {
                utf16_len(current_info.presentation.visible_text.as_str())
            },
        };
        proof {
            if cursor is None {
                lemma_utf16_len_concat(text.take(pk), text.skip(pk));
                assert(text.take(pk) + text.skip(pk) =~= text);
            }
        }
        let source = if raw_mode {
            visible_cursor
        } else {
            visible_cursor_to_raw_cursor(
                current_info.presentation.prefix_len,
                current_text.as_str(),
                visible_cursor,
            )
        };
        let v = chars_of(current_text.as_str());
        let (k, b) = utf16_offset_to_position(v.as_slice(), total, source);
        proof {
            lemma_chars_before(text, b as int, k as int);
        }
        let before = string_of_range(v.as_slice(), 0, k);
        let after = string_of_range(v.as_slice(), k, v.len());
        assert(before@ =~= text.take(k as int));
        assert(after@ =~= text.skip(k as int));
        let new_id = self.next_id;
        self.next_id = new_id + 1;
        match position_of(self.blocks.as_slice(), id) {
            Some(p) => {
                set_block_text(&mut self.blocks, p, before);
                assert(model_of(self.blocks@).len() == self.blocks@.len());
                assert(p < self.blocks.len());
                self.blocks.insert(p + 1, TextBlock { id: new_id, text: after });
                proof {
                    let ghost nb = m.blocks.update(
                        p as int,
                        BlockModel { id, text: text.take(k as int) },
                    ).insert(p + 1, BlockModel { id: new_id, text: text.skip(k as int) });
                    assert(model_of(self.blocks@) =~= nb);
                }
            },
            None => {},
        }
        KeyOutcome {
            prevent_default: true,
            focus: Some(FocusTarget { block_id: new_id, offset: 0 }),
            changed: true,
        }
    }

    /// Backspace at the start of line `id` (past any hidden prefix): merges it
    /// into the line above.
    fn key_merge(&mut self, id: usize, cursor: Option<usize>) -> (out: KeyOutcome)
        requires
            !(!is_raw_spec(old(self)@, id) && info_of(old(self)@, id).hidden_prefix && (match cursor {
                Some(c) => c as int,
                None => 0,
            }) == 0),
        ensures
            (final(self)@, out) == key_spec(old(self)@, id, EditorKey::Backspace, cursor),
    {
        let ghost m = self@;
        let none = KeyOutcome { prevent_default: false, focus: None, changed: false };
        let c0 = match cursor {
            Some(c) => c,
            None => 0,
        };
        if c0 != 0 {
            return none;
        }
        match position_of(self.blocks.as_slice(), id) {
            Some(p) => {
                if p > 0 {
                    let previous_id = self.blocks[p - 1].id;
                    let previous_len = utf16_len(self.blocks[p - 1].text.as_str());
                    let mut merged = self.blocks[p - 1].text.clone();
                    merged.append(self.blocks[p].text.as_str());
                    set_block_text(&mut self.blocks, p - 1, merged);
                    assert(model_of(self.blocks@).len() == self.blocks@.len());
                    self.blocks.remove(p);
                    proof {
                        let ghost prev = m.blocks[p - 1];
                        let ghost nb = m.blocks.update(
                            p - 1,
                            BlockModel { id: prev.id, text: prev.text + m.blocks[p as int].text },
                        ).remove(p as int);
                        assert(model_of(self.blocks@) =~= nb);
                    }
                    KeyOutcome {
                        prevent_default: true,
                        focus: Some(FocusTarget { block_id: previous_id, offset: previous_len }),
                        changed: true,
                    }
                } else {
                    none
                }
            },
            None => none,
        }
    }

    /// Reacts to `key` pressed in line `id`; `cursor` is the UTF-16 cursor in
    /// what the line displays, if known.
    pub fn handle_key(&mut self, id: usize, key: EditorKey, cursor: Option<usize>) -> (out:
        KeyOutcome)
        requires
            key_fits(old(self)@, id, key, cursor),
        ensures
            (final(self)@, out) == key_spec(old(self)@, id, key, cursor),
            old(self).wf() ==> final(self).wf(),
    {
        proof {
            if self.wf() {
                law_key_keeps_blocks_wf(self@, id, key, cursor);
            }
        }
        match key {
            EditorKey::ToggleRaw => self.key_toggle_raw(id, cursor),
            EditorKey::ArrowLeft | EditorKey::Home => match self.key_reveal_prefix(id, key, cursor) {
                Some(o) => o,
                None => KeyOutcome { prevent_default: false, focus: None, changed: false },
            },
            EditorKey::ArrowUp => self.key_up(id, cursor),
            EditorKey::ArrowDown => self.key_down(id, cursor),
            EditorKey::Enter => self.key_enter(id, cursor),
            EditorKey::Backspace => match self.key_reveal_prefix(id, key, cursor) {
                Some(o) => o,
                None => self.key_merge(id, cursor),
            },
            EditorKey::Other => KeyOutcome { prevent_default: false, focus: None, changed: false },
        }
    }
}


/// The first position of an id among well-formed blocks is the position of
/// any block with that id.
pub proof fn lemma_wf_first_index(blocks: Seq<BlockModel>, next_id: usize, k: int)
    requires
        blocks_wf(blocks, next_id),
        0 <= k < blocks.len(),
    ensures
        first_index(blocks, blocks[k].id) == Some(k),
{
    assert(is_first_with_id(blocks, blocks[k].id, k));
    lemma_first_unique(blocks, blocks[k].id, k);
}

/// Splitting a line keeps block ids distinct and below `next_id`.
pub proof fn law_split_keeps_blocks_wf(m: EditorModel, id: usize, cursor: Option<usize>)
    requires
        blocks_wf(m.blocks, m.next_id),
        m.next_id < usize::MAX,
    ensures
        blocks_wf(split_spec(m, id, cursor).blocks, split_spec(m, id, cursor).next_id),
{
    let r = split_spec(m, id, cursor);
    if let Some(p) = first_index(m.blocks, id) {
        assert(is_first_with_id(m.blocks, id, p));
        let nb = r.blocks;
        assert forall|i: int| 0 <= i < nb.len() implies (#[trigger] nb[i]).id < r.next_id by {
            if i < p {
                assert(nb[i] == m.blocks[i]);
            } else if i > p + 1 {
                assert(nb[i] == m.blocks[i - 1]);
            }
        }
        assert forall|i: int, j: int|
            0 <= i < nb.len() && 0 <= j < nb.len() && i != j implies (#[trigger] nb[i]).id
            != (#[trigger] nb[j]).id by {
            let oi = if i <= p {
                i
            } else if i == p + 1 {
                -1
            } else {
                i - 1
            };
            let oj = if j <= p {
                j
            } else if j == p + 1 {
                -1
            } else {
                j - 1
            };
            if oi >= 0 {
                assert(nb[i].id == m.blocks[oi].id);
            }
            if oj >= 0 {
                assert(nb[j].id == m.blocks[oj].id);
            }
        }
    }
}

/// Merging a line into the line above keeps block ids distinct and below
/// `next_id`, and keeps at least one line.
pub proof fn law_merge_keeps_blocks_wf(m: EditorModel, p: int)
    requires
        blocks_wf(m.blocks, m.next_id),
        0 < p < m.blocks.len(),
    ensures
        blocks_wf(merge_spec(m, p).blocks, merge_spec(m, p).next_id),
{
    let nb = merge_spec(m, p).blocks;
    assert forall|i: int| 0 <= i < nb.len() implies (#[trigger] nb[i]).id < m.next_id by {
        if i < p - 1 {
            assert(nb[i] == m.blocks[i]);
        } else if i >= p {
            assert(nb[i] == m.blocks[i + 1]);
        }
    }
    assert forall|i: int, j: int|
        0 <= i < nb.len() && 0 <= j < nb.len() && i != j implies (#[trigger] nb[i]).id
        != (#[trigger] nb[j]).id by {
        let oi = if i < p {
            i
        } else {
            i + 1
        };
        let oj = if j < p {
            j
        } else {
            j + 1
        };
        assert(nb[i].id == m.blocks[oi].id);
        assert(nb[j].id == m.blocks[oj].id);
    }
}

/// Editing a line's text keeps block ids as they were.
pub proof fn law_input_keeps_blocks_wf(m: EditorModel, id: usize, dom: Seq<char>)
    requires
        blocks_wf(m.blocks, m.next_id),
    ensures
        blocks_wf(input_spec(m, id, dom).blocks, input_spec(m, id, dom).next_id),
{
    let nb = input_spec(m, id, dom).blocks;
    if let Some(k) = first_index(m.blocks, id) {
        assert(is_first_with_id(m.blocks, id, k));
    }
    assert forall|i: int| 0 <= i < nb.len() implies (#[trigger] nb[i]).id == m.blocks[i].id by {
    }
}

/// ArrowDown with the cursor at (or past) the end of what line `id` displays,
/// its visible text or, shown raw, its whole text, moves the focus to the start
/// of the next line; before that end the key is left to the browser. Nothing
/// else changes either way.
pub proof fn law_arrow_down_at_line_end(m: EditorModel, id: usize, c: usize, p: int)
    requires
        first_index(m.blocks, id) == Some(p),
        p + 1 < m.blocks.len(),
    ensures
        ({
            let shown = if is_raw_spec(m, id) {
                text_of(m, id)
            } else {
                info_of(m, id).visible_text
            };
            let moved = KeyOutcome {
                prevent_default: true,
                focus: Some(FocusTarget { block_id: m.blocks[p + 1].id, offset: 0 }),
                changed: false,
            };
            &&& c >= utf16_len_of(shown) ==> key_spec(m, id, EditorKey::ArrowDown, Some(c)) == (m, moved)
            &&& c < utf16_len_of(shown) ==> key_spec(m, id, EditorKey::ArrowDown, Some(c)) == (m, ignored())
        }),
{
    assert(text_of(m, id) == m.blocks[p].text);
}

/// Focusing a thematic break shows its source: the rule becomes the line with
/// raw focus, so its `---` can be edited. Focusing any line changes nothing
/// but which line has raw focus.
pub proof fn law_focus_shows_rule_source(m: EditorModel, id: usize)
    ensures
        info_of(m, id).kind == LineKind::Hr ==> focus_spec(m, id).active_raw_line == Some(id),
        info_of(m, id).kind == LineKind::Hr ==> is_raw_spec(focus_spec(m, id), id),
        focus_spec(m, id).blocks == m.blocks,
        focus_spec(m, id).raw_lines == m.raw_lines,
        focus_spec(m, id).next_id == m.next_id,
{
    lemma_info_of_text(m, id);
    let inside = choose|inside: bool| info_of(m, id) == line_spec(text_of(m, id), inside);
    law_line_presentation_consistent(text_of(m, id), inside);
}

/// Every key the line editor handles keeps block ids distinct and below
/// `next_id`, and keeps at least one block.
pub proof fn law_key_keeps_blocks_wf(m: EditorModel, id: usize, key: EditorKey, cursor: Option<usize>)
    requires
        blocks_wf(m.blocks, m.next_id),
        key_fits(m, id, key, cursor),
    ensures
        blocks_wf(key_spec(m, id, key, cursor).0.blocks, key_spec(m, id, key, cursor).0.next_id),
{
    match key {
        EditorKey::Enter => {
            law_split_keeps_blocks_wf(m, id, cursor);
        },
        EditorKey::Backspace => {
            if let Some(p) = first_index(m.blocks, id) {
                if p > 0 {
                    assert(is_first_with_id(m.blocks, id, p));
                    law_merge_keeps_blocks_wf(m, p);
                }
            }
        },
        _ => {},
    }
}

/// Something the line editor reacts to: typing into a line, a key press, or a
/// line gaining or losing focus.
pub enum EditEvent {
    Input { id: usize, dom: Seq<char> },
    Key { id: usize, key: EditorKey, cursor: Option<usize> },
    Focus(usize),
    Blur(usize),
}

/// The editor model after event `e`.
pub open spec fn event_step(m: EditorModel, e: EditEvent) -> EditorModel {
    match e {
        EditEvent::Input { id, dom } => input_spec(m, id, dom),
        EditEvent::Key { id, key, cursor } => key_spec(m, id, key, cursor).0,
        EditEvent::Focus(id) => focus_spec(m, id),
        EditEvent::Blur(id) => blur_spec(m, id),
    }
}

/// The editor model after the events `es`, in order.
pub open spec fn run_events(m: EditorModel, es: Seq<EditEvent>) -> EditorModel
    decreases es.len(),
{
    if es.len() == 0 {
        m
    } else {
        run_events(event_step(m, es[0]), es.drop_first())
    }
}

/// Every key event among `es` stays within the machine limits where it comes.
pub open spec fn events_fit(m: EditorModel, es: Seq<EditEvent>) -> bool
    decreases es.len(),
{
    if es.len() == 0 {
        true
    } else {
        &&& (es[0] matches EditEvent::Key { id, key, cursor } ==> key_fits(m, id, key, cursor))
        &&& events_fit(event_step(m, es[0]), es.drop_first())
    }
}

/// From a well-formed state, any sequence of typing, key presses, focus and
/// blur keeps at least one block, block ids distinct, and every id below
/// `next_id`, so the id Enter gives a new line is always fresh.
pub proof fn law_events_keep_blocks_wf(m: EditorModel, es: Seq<EditEvent>)
    requires
        blocks_wf(m.blocks, m.next_id),
        events_fit(m, es),
    ensures
        blocks_wf(run_events(m, es).blocks, run_events(m, es).next_id),
    decreases es.len(),
{
    if es.len() > 0 {
        match es[0] {
            EditEvent::Input { id, dom } => law_input_keeps_blocks_wf(m, id, dom),
            EditEvent::Key { id, key, cursor } => law_key_keeps_blocks_wf(m, id, key, cursor),
            EditEvent::Focus(id) => {},
            EditEvent::Blur(id) => {},
        }
        law_events_keep_blocks_wf(event_step(m, es[0]), es.drop_first());
    }
}

/// Backspace at the start of the line that Enter just made joins the two halves
/// again: the blocks are as they were before the split.
#[verifier::spinoff_prover]
#[verifier::rlimit(40)]
pub proof fn law_merge_undoes_split(m: EditorModel, id: usize, cursor: Option<usize>, p: int)
    requires
        blocks_wf(m.blocks, m.next_id),
        m.next_id < usize::MAX,
        first_index(m.blocks, id) == Some(p),
    ensures
        first_index(split_spec(m, id, cursor).blocks, m.next_id) == Some(p + 1),
        merge_spec(split_spec(m, id, cursor), p + 1).blocks == m.blocks,
{
    let r = split_spec(m, id, cursor);
    assert(is_first_with_id(m.blocks, id, p));
    law_split_keeps_blocks_wf(m, id, cursor);
    lemma_wf_first_index(r.blocks, r.next_id, p + 1);
    let text = text_of(m, id);
    let k = chars_before(text, utf16_to_byte(text, raw_cursor_spec(m, id, match cursor {
        Some(c) => c as int,
        None => if is_raw_spec(m, id) {
            utf16_len_of(text) as int
        } else {
            utf16_len_of(info_of(m, id).visible_text) as int
        },
    })) as int);
    split_point_in_range(m, id, cursor);
    assert(text.take(k) + text.skip(k) =~= text);
    assert(merge_spec(r, p + 1).blocks =~= m.blocks);
}

/// The character index at which Enter splits line `id`.
pub open spec fn split_point(m: EditorModel, id: usize, cursor: Option<usize>) -> int {
    let text = text_of(m, id);
    let vc = match cursor {
        Some(c) => c as int,
        None => if is_raw_spec(m, id) {
            utf16_len_of(text) as int
        } else {
            utf16_len_of(info_of(m, id).visible_text) as int
        },
    };
    chars_before(text, utf16_to_byte(text, raw_cursor_spec(m, id, vc)) as int)
}

/// The split point is within the line.
proof fn split_point_in_range(m: EditorModel, id: usize, cursor: Option<usize>)
    ensures
        0 <= split_point(m, id, cursor) <= text_of(m, id).len(),
{
    let text = text_of(m, id);
    let vc = match cursor {
        Some(c) => c as int,
        None => if is_raw_spec(m, id) {
            utf16_len_of(text) as int
        } else {
            utf16_len_of(info_of(m, id).visible_text) as int
        },
    };
    let off = raw_cursor_spec(m, id, vc);
    lemma_utf16_to_byte_chars(text, off);
    lemma_chars_before(text, utf16_to_byte(text, off) as int, utf16_to_char(text, off) as int);
}

/// The document text in front of line `p`: the lines above it and a newline.
pub open spec fn text_above(t: Seq<Seq<char>>, p: int) -> Seq<char> {
    if p > 0 {
        join_lines(t.take(p)).push('\n')
    } else {
        Seq::<char>::empty()
    }
}

/// The document text after line `p`: a newline and the lines below it.
pub open spec fn text_below(t: Seq<Seq<char>>, p: int) -> Seq<char> {
    if p + 1 < t.len() {
        seq!['\n'] + join_lines(t.skip(p + 1))
    } else {
        Seq::<char>::empty()
    }
}

/// Replacing line `p` by the two lines `a` and `b` puts `a`, a newline and `b`
/// between the text above and below it.
proof fn lemma_join_two_for_one(t: Seq<Seq<char>>, p: int, a: Seq<char>, b: Seq<char>)
    requires
        0 <= p < t.len(),
    ensures
        join_lines(t.update(p, a).insert(p + 1, b)) == text_above(t, p) + a + seq!['\n'] + b
            + text_below(t, p),
{
    let t2 = t.update(p, a).insert(p + 1, b);
    lemma_join_around(t2, p + 1);
    assert(t2.take(p + 1) =~= t.take(p).push(a));
    assert(t2.skip(p + 2) =~= t.skip(p + 1));
    assert(t2[p + 1] == b);
    if p > 0 {
        lemma_join_concat(t.take(p), seq![a]);
        assert(t.take(p).push(a) =~= t.take(p) + seq![a]);
    } else {
        assert(t.take(p).push(a) =~= seq![a]);
    }
    assert(join_lines(t2.take(p + 1)) =~= text_above(t, p) + a);
    assert(text_below(t2, p + 1) =~= text_below(t, p));
    assert(join_lines(t2) =~= text_above(t, p) + a + seq!['\n'] + b + text_below(t, p));
}

/// Pressing Enter only inserts one newline into the document: the document
/// after it is the document before it with a `'\n'` put in at some position.
pub proof fn law_split_inserts_one_newline(m: EditorModel, id: usize, cursor: Option<usize>)
    requires
        first_index(m.blocks, id) is Some,
    ensures
        exists|o: int|
            0 <= o <= join_lines(texts_of(m.blocks)).len() && join_lines(
                texts_of(split_spec(m, id, cursor).blocks),
            ) == join_lines(texts_of(m.blocks)).take(o).push('\n') + join_lines(
                texts_of(m.blocks),
            ).skip(o),
{
    let p = first_index(m.blocks, id).unwrap();
    assert(is_first_with_id(m.blocks, id, p));
    let r = split_spec(m, id, cursor);
    let text = text_of(m, id);
    let k = split_point(m, id, cursor);
    split_point_in_range(m, id, cursor);
    let t = texts_of(m.blocks);
    let t2 = texts_of(r.blocks);
    assert(t2 =~= t.update(p, text.take(k)).insert(p + 1, text.skip(k)));
    lemma_join_around(t, p);
    lemma_join_two_for_one(t, p, text.take(k), text.skip(k));
    let pre = text_above(t, p);
    let post = text_below(t, p);
    let d = join_lines(t);
    assert(d =~= pre + text + post);
    let o = pre.len() + k;
    assert(join_lines(t2) =~= d.take(o).push('\n') + d.skip(o));
}

/// Backspace that merges a line only removes one newline from the document.
pub proof fn law_merge_removes_one_newline(m: EditorModel, p: int)
    requires
        0 < p < m.blocks.len(),
    ensures
        exists|o: int|
            0 <= o < join_lines(texts_of(m.blocks)).len() && join_lines(texts_of(m.blocks))[o]
                == '\n' && join_lines(texts_of(merge_spec(m, p).blocks)) == join_lines(
                texts_of(m.blocks),
            ).take(o) + join_lines(texts_of(m.blocks)).skip(o + 1),
{
    let t = texts_of(m.blocks);
    let t2 = texts_of(merge_spec(m, p).blocks);
    assert(t2 =~= t.update(p - 1, t[p - 1] + t[p]).remove(p));
    assert(t =~= t2.update(p - 1, t[p - 1]).insert(p, t[p]));
    lemma_join_two_for_one(t2, p - 1, t[p - 1], t[p]);
    lemma_join_around(t2, p - 1);
    let pre = text_above(t2, p - 1);
    let post = text_below(t2, p - 1);
    let d = join_lines(t);
    let o: int = (pre.len() + t[p - 1].len()) as int;
    assert(d =~= pre + t[p - 1] + seq!['\n'] + t[p] + post);
    assert(d[o] == '\n');
    assert(join_lines(t2) =~= d.take(o) + d.skip(o + 1));
}

/// A line's hidden prefix followed by its visible text is the whole line:
/// presenting a line loses none of it.
pub proof fn law_prefix_and_visible_make_the_line(s: Seq<char>, inside: bool)
    ensures
        is_boundary(s, line_spec(s, inside).prefix_len as int),
        byte_prefix(s, line_spec(s, inside).prefix_len as int) + line_spec(s, inside).visible_text
            == s,
{
    lemma_line_prefix(s, inside);
    let p = choose|p: nat|
        p <= s.len() && line_spec(s, inside).prefix_len == utf8_len(#[trigger] s.take(p as int))
            && line_spec(s, inside).visible_text == s.skip(p as int);
    lemma_prefix_boundary(s, p as int);
    assert(s.take(p as int) + s.skip(p as int) =~= s);
}

/// How a line's presentation hangs together: the visible text is the line after
/// the hidden prefix; a prefix is hidden exactly when it is not empty; a line
/// is raw-only exactly when it is a fence line, code inside a fence, or a raw
/// fallback; a thematic break, and only it, turns raw on focus; list items,
/// tasks and only they draw a marker; inside an open fence every line is a
/// fence line or code.
pub proof fn law_line_presentation_consistent(s: Seq<char>, inside: bool)
    ensures
        ({
            let r = line_spec(s, inside);
            &&& is_boundary(s, r.prefix_len as int)
            &&& byte_prefix(s, r.prefix_len as int) + r.visible_text == s
            &&& (r.hidden_prefix <==> r.prefix_len > 0)
            &&& (r.raw_only <==> (r.kind == LineKind::FenceLine || r.kind == LineKind::CodeFenceBody
                || r.kind == LineKind::RawOnly))
            &&& (r.auto_raw_on_focus <==> r.kind == LineKind::Hr)
            &&& (r.marker_text is Some <==> (r.kind == LineKind::BulletItem || r.kind
                == LineKind::OrderedItem || r.kind is TaskItem))
            &&& (inside ==> (r.kind == LineKind::FenceLine || r.kind == LineKind::CodeFenceBody))
        }),
{
    law_prefix_and_visible_make_the_line(s, inside);
    lemma_hidden_iff_prefix(s, inside);
}

/// Every line inside an open code fence is shown raw, as a fence line or as
/// code.
pub proof fn law_fenced_lines_are_raw(s: Seq<char>)
    ensures
        line_spec(s, true).raw_only,
        line_spec(s, true).kind == LineKind::FenceLine || line_spec(s, true).kind
            == LineKind::CodeFenceBody,
        !line_spec(s, true).hidden_prefix,
{
}

/// Pressing Ctrl/Cmd+R twice leaves the pinned lines as they were.
pub proof fn law_toggle_raw_twice(s: Set<usize>, id: usize)
    ensures
        toggle_set(toggle_set(s, id), id) == s,
{
    assert(toggle_set(toggle_set(s, id), id) =~= s);
}


/// What a line element shows: its raw text, or rendered HTML.
pub enum LineContent {
    Text(String),
    Html(String),
}

impl EditorState {
    /// What line `id` shows: its raw text when shown raw, its rendered HTML otherwise.
    pub fn line_content(&self, id: usize) -> (c: LineContent)
        ensures
            match c {
                LineContent::Text(t) => is_raw_spec(self@, id) && t@ == text_of(self@, id),
                LineContent::Html(h) => !is_raw_spec(self@, id) && h@ == line_html_spec(
                    info_of(self@, id).kind,
                    info_of(self@, id).visible_text,
                ),
            },
    {
        if self.is_raw(id) {
            LineContent::Text(self.block_text(id))
        } else {
            let info = self.line_info(id);
            LineContent::Html(render_line_html(&info))
        }
    }

    /// The largest UTF-16 cursor in what line `id` shows.
    pub fn cursor_limit(&self, id: usize) -> (n: usize)
        ensures
            n == if is_raw_spec(self@, id) {
                utf16_len_of(text_of(self@, id))
            } else {
                utf16_len_of(info_of(self@, id).visible_text)
            },
    {
        if self.is_raw(id) {
            utf16_len(self.block_text(id).as_str())
        } else {
            utf16_len(self.line_info(id).presentation.visible_text.as_str())
        }
    }

    /// The CSS classes of line `id`'s row.
    pub fn row_classes(&self, id: usize) -> (s: String)
        ensures
            s@ == info_of(self@, id).row_classes,
    {
        self.line_info(id).presentation.row_classes
    }

    /// The marker drawn in line `id`'s rail: none while the line is shown raw.
    pub fn marker(&self, id: usize) -> (s: String)
        ensures
            s@ == if is_raw_spec(self@, id) {
                Seq::<char>::empty()
            } else {
                match info_of(self@, id).marker_text {
                    Some(t) => t,
                    None => Seq::<char>::empty(),
                }
            },
    {
        if self.is_raw(id) {
            String::new()
        } else {
            match self.line_info(id).presentation.marker_text {
                Some(t) => t,
                None => String::new(),
            }
        }
    }

    /// Whether line `id` shows nothing (a thematic break shows its rule).
    pub fn is_empty_line(&self, id: usize) -> (b: bool)
        ensures
            b == if is_raw_spec(self@, id) {
                text_of(self@, id).len() == 0
            } else {
                info_of(self@, id).visible_text.len() == 0 && info_of(self@, id).kind
                    != LineKind::Hr
            },
    {
        if self.is_raw(id) {
            self.block_text(id).as_str().is_empty()
        } else {
            let info = self.line_info(id);
            info.presentation.visible_text.as_str().is_empty() && !matches!(info.kind, LineKind::Hr)
        }
    }

    /// Whether line `id` shows the placeholder: it is the only line and empty.
    pub fn shows_placeholder(&self, id: usize) -> (b: bool)
        ensures
            b == (self@.blocks.len() == 1 && self@.blocks[0].id == id && self@.blocks[0].text.len()
                == 0),
    {
        self.blocks.len() == 1 && self.blocks[0].id == id && self.blocks[0].text.as_str().is_empty()
    }

    /// Reloads the blocks from `content` when it differs from the document they hold.
    pub fn follow_content(&mut self, content: &str) -> (changed: bool)
        ensures
            changed == (content@ != old(self).document()),
            changed ==> final(self).loaded_from(content@),
            !changed ==> *final(self) == *old(self),
            old(self).wf() ==> final(self).wf(),
    {
        let current = self.to_string();
        if str_eq(content, current.as_str()) {
            false
        } else {
            self.sync_from_content(content);
            true
        }
    }
}

} // verus!
