//! Document-level logic of the editor window: the title shown for a file, the
//! character/word/paragraph counter, snippet insertion and selection
//! replacement, and undo/redo history.

use vstd::prelude::*;
use crate::cursor::{chars_before, chars_in_bytes, is_boundary};
use crate::editing::str_eq;
use crate::text::{
    byte_length, char_is_whitespace, chars_of, decimal, is_whitespace, lemma_trim_blank,
    push_decimal, push_one, string_of_range, trim, utf8_len,
};

verus! {

/// The part of `path` after its last `/` or `\` (all of it when there is none).
pub open spec fn file_name_spec(path: Seq<char>) -> Seq<char>
    decreases path.len(),
{
    if path.len() == 0 {
        path
    } else if path.last() == '/' || path.last() == '\\' {
        Seq::<char>::empty()
    } else {
        file_name_spec(path.drop_last()).push(path.last())
    }
}

/// The file name at the end of `path`.
pub fn filename_from_path(path: &str) -> (s: String)
    ensures
        s@ == file_name_spec(path@),
{
    let v = chars_of(path);
    let mut start: usize = v.len();
    assert(v@.take(v@.len() as int) =~= v@);
    assert(v@.subrange(v@.len() as int, v@.len() as int) =~= Seq::<char>::empty());
    assert(file_name_spec(v@) =~= file_name_spec(v@.take(start as int)) + v@.subrange(
        start as int,
        v@.len() as int,
    ));
    while start > 0 && v[start - 1] != '/' && v[start - 1] != '\\'
        invariant
            start <= v@.len(),
            file_name_spec(v@) == file_name_spec(v@.take(start as int)) + v@.subrange(
                start as int,
                v@.len() as int,
            ),
        decreases start,
    {
        let ghost t = v@.take(start as int);
        assert(t.drop_last() =~= v@.take(start - 1));
        assert(v@.subrange(start - 1, v@.len() as int) =~= seq![t.last()] + v@.subrange(
            start as int,
            v@.len() as int,
        ));
        assert(file_name_spec(t) =~= file_name_spec(t.drop_last()).push(t.last()));
        start -= 1;
    }
    proof {
        if start > 0 {
            assert(v@.take(start as int).last() == v@[start - 1]);
        }
        assert(file_name_spec(v@.take(start as int)) =~= Seq::<char>::empty());
    }
    assert(v@.take(v@.len() as int) =~= v@);
    string_of_range(v.as_slice(), start, v.len())
}

/// The title of the window: the file name (or `Untitled-1`), marked with `● `
/// while there are unsaved changes.
pub open spec fn display_name_spec(path: Option<Seq<char>>, dirty: bool) -> Seq<char> {
    let name = match path {
        Some(p) => file_name_spec(p),
        None => "Untitled-1"@,
    };
    if dirty {
        "● "@ + name
    } else {
        name
    }
}

/// The title of the window for the file at `path`.
pub fn display_name(path: Option<&str>, dirty: bool) -> (s: String)
    ensures
        s@ == display_name_spec(
            match path {
                Some(p) => Some(p@),
                None => None,
            },
            dirty,
        ),
{
    let name = match path {
        Some(p) => filename_from_path(p),
        None => String::from_str("Untitled-1"),
    };
    if dirty {
        let mut s = String::from_str("● ");
        s.append(name.as_str());
        s
    } else {
        name
    }
}

/// Number of maximal runs of non-whitespace characters of `s`.
pub open spec fn word_count(s: Seq<char>) -> nat
    decreases s.len(),
{
    if s.len() == 0 {
        0
    } else {
        word_count(s.drop_last()) + if !is_whitespace(s.last()) && (s.len() == 1
            || is_whitespace(s[s.len() - 2])) {
            1nat
        } else {
            0nat
        }
    }
}

/// The pieces of `s` between non-overlapping `"\n\n"` separators, found from the left.
pub open spec fn paragraph_pieces(s: Seq<char>) -> Seq<Seq<char>>
    decreases s.len(),
{
    if s.len() == 0 {
        seq![Seq::<char>::empty()]
    } else if s.len() >= 2 && s[0] == '\n' && s[1] == '\n' {
        seq![Seq::<char>::empty()] + paragraph_pieces(s.skip(2))
    } else {
        let r = paragraph_pieces(s.drop_first());
        r.update(0, seq![s[0]] + r[0])
    }
}

pub proof fn lemma_pieces_nonempty(s: Seq<char>)
    ensures
        paragraph_pieces(s).len() >= 1,
    decreases s.len(),
{
    if s.len() >= 2 && s[0] == '\n' && s[1] == '\n' {
        lemma_pieces_nonempty(s.skip(2));
    } else if s.len() > 0 {
        lemma_pieces_nonempty(s.drop_first());
    }
}

/// Number of pieces of `pieces` that are not blank once trimmed.
pub open spec fn non_blank_count(pieces: Seq<Seq<char>>) -> nat
    decreases pieces.len(),
{
    if pieces.len() == 0 {
        0
    } else {
        non_blank_count(pieces.drop_last()) + if trim(pieces.last()).len() > 0 {
            1nat
        } else {
            0nat
        }
    }
}

/// Number of paragraphs of `s`: `"\n\n"`-separated pieces that are not blank.
pub open spec fn paragraph_count(s: Seq<char>) -> nat {
    non_blank_count(paragraph_pieces(s))
}


/// `s` holds no blank-line break: no newline directly followed by another.
pub open spec fn no_blank_line_break(s: Seq<char>) -> bool {
    forall|i: int| 0 <= i < s.len() - 1 ==> !(#[trigger] s[i] == '\n' && s[i + 1] == '\n')
}

proof fn lemma_unbroken_is_one_piece(s: Seq<char>)
    requires
        no_blank_line_break(s),
    ensures
        paragraph_pieces(s) == seq![s],
    decreases s.len(),
{
    if s.len() == 0 {
        assert(s =~= Seq::<char>::empty());
    } else {
        let d = s.drop_first();
        assert(no_blank_line_break(d)) by {
            assert forall|i: int| 0 <= i < d.len() - 1 implies !(#[trigger] d[i] == '\n' && d[i + 1]
                == '\n') by {
                assert(d[i] == s[i + 1] && d[i + 1] == s[i + 2]);
            }
        }
        if s.len() >= 2 {
            assert(!(s[0] == '\n' && s[1] == '\n'));
        }
        lemma_unbroken_is_one_piece(d);
        assert(seq![s[0]] + d =~= s);
        assert(seq![d].update(0, seq![s[0]] + d) =~= seq![s]);
    }
}

/// A text that is not blank and holds no blank-line break is one paragraph,
/// however many lines it has: paragraphs are separated by `"\n\n"` only.
pub proof fn law_unbroken_text_is_one_paragraph(s: Seq<char>)
    requires
        no_blank_line_break(s),
        trim(s).len() > 0,
    ensures
        paragraph_count(s) == 1,
{
    lemma_unbroken_is_one_piece(s);
    assert(seq![s].drop_last() =~= Seq::<Seq<char>>::empty());
    assert(non_blank_count(Seq::<Seq<char>>::empty()) == 0);
    assert(seq![s].last() == s);
}

/// Number of words of `v`: maximal runs of non-whitespace characters.
fn count_words(v: &[char]) -> (n: usize)
    ensures
        n == word_count(v@),
{
    let mut n: usize = 0;
    let mut i: usize = 0;
    assert(v@.take(0) =~= Seq::<char>::empty());
    while i < v.len()
        invariant
            i <= v@.len(),
            n == word_count(v@.take(i as int)),
            n <= i,
        decreases v@.len() - i,
    {
        let ghost t = v@.take(i + 1);
        assert(t.drop_last() =~= v@.take(i as int));
        assert(t.last() == v@[i as int]);
        if i > 0 {
            assert(t[t.len() - 2] == v@[i - 1]);
        }
        if !char_is_whitespace(v[i]) && (i == 0 || char_is_whitespace(v[i - 1])) {
            n += 1;
        }
        i += 1;
    }
    assert(v@.take(v@.len() as int) =~= v@);
    n
}

/// Number of paragraphs of `v`.
fn count_paragraphs(v: &[char]) -> (n: usize)
    ensures
        n == paragraph_count(v@),
{
    let mut n: usize = 0;
    let mut cur_non_blank = false;
    let ghost mut done: Seq<Seq<char>> = Seq::empty();
    let ghost mut cur: Seq<char> = Seq::empty();
    let mut i: usize = 0;
    proof {
        lemma_pieces_nonempty(v@);
        assert(v@.skip(0) =~= v@);
        assert(paragraph_pieces(v@) =~= done + seq![cur + paragraph_pieces(v@.skip(0))[0]]
            + paragraph_pieces(v@.skip(0)).drop_first());
    }
    while i < v.len()
        invariant
            i <= v@.len(),
            paragraph_pieces(v@) == done + seq![cur + paragraph_pieces(v@.skip(i as int))[0]]
                + paragraph_pieces(v@.skip(i as int)).drop_first(),
            n == non_blank_count(done),
            n + (if cur_non_blank {
                1int
            } else {
                0int
            }) <= i,
            cur_non_blank == (trim(cur).len() > 0),
        decreases v@.len() - i,
    {
        let ghost rest = v@.skip(i as int);
        proof {
            lemma_trim_blank(cur);
        }
        if i + 1 < v.len() && v[i] == '\n' && v[i + 1] == '\n' {
            proof {
                assert(rest[0] == '\n' && rest[1] == '\n');
                assert(rest.skip(2) =~= v@.skip(i + 2));
                lemma_pieces_nonempty(v@.skip(i + 2));
                let f2 = paragraph_pieces(v@.skip(i + 2));
                assert(paragraph_pieces(rest) == seq![Seq::<char>::empty()] + f2);
                assert(paragraph_pieces(v@) =~= done.push(cur) + seq![Seq::<char>::empty() + f2[0]]
                    + f2.drop_first());
                assert(done.push(cur).drop_last() =~= done);
                done = done.push(cur);
                cur = Seq::empty();
                assert(trim(cur) =~= Seq::<char>::empty());
            }
            if cur_non_blank {
                n += 1;
            }
            cur_non_blank = false;
            i += 2;
        } else {
            let c = v[i];
            proof {
                assert(rest[0] == c);
                assert(rest.drop_first() =~= v@.skip(i + 1));
                lemma_pieces_nonempty(v@.skip(i + 1));
                let f1 = paragraph_pieces(v@.skip(i + 1));
                assert(!(rest.len() >= 2 && rest[0] == '\n' && rest[1] == '\n'));
                assert(paragraph_pieces(rest) == f1.update(0, seq![c] + f1[0]));
                assert(paragraph_pieces(rest)[0] == seq![c] + f1[0]);
                assert(paragraph_pieces(rest).drop_first() =~= f1.drop_first());
                assert(cur + (seq![c] + f1[0]) =~= cur.push(c) + f1[0]);
                assert(paragraph_pieces(v@) =~= done + seq![cur.push(c) + f1[0]] + f1.drop_first());
                lemma_trim_blank(cur.push(c));
                if !is_whitespace(c) {
                    assert(cur.push(c)[cur.len() as int] == c);
                }
                if trim(cur).len() > 0 {
                    let j = choose|j: int| 0 <= j < cur.len() && !is_whitespace(#[trigger] cur[j]);
                    assert(cur.push(c)[j] == cur[j]);
                }
                if trim(cur.push(c)).len() > 0 && is_whitespace(c) {
                    let j = choose|j: int| 0 <= j < cur.push(c).len() && !is_whitespace(
                        #[trigger] cur.push(c)[j],
                    );
                    assert(cur[j] == cur.push(c)[j]);
                }
                cur = cur.push(c);
            }
            if !char_is_whitespace(c) {
                cur_non_blank = true;
            }
            i += 1;
        }
    }
    proof {
        assert(v@.skip(i as int) =~= Seq::<char>::empty());
        assert(paragraph_pieces(v@) =~= done.push(cur));
        assert(done.push(cur).drop_last() =~= done);
    }
    if cur_non_blank {
        n += 1;
    }
    n
}

/// What the counter in the title bar shows in `mode`: characters (`C`),
/// words (`W`) or paragraphs (`P`).
pub open spec fn counter_spec(text: Seq<char>, mode: u8) -> Seq<char> {
    if mode == 0 {
        "C "@ + decimal(text.len())
    } else if mode == 1 {
        "W "@ + decimal(word_count(text))
    } else {
        "P "@ + decimal(paragraph_count(text))
    }
}

/// The counter of `text` shown in `mode`.
pub fn counter_display(text: &str, mode: u8) -> (s: String)
    ensures
        s@ == counter_spec(text@, mode),
{
    let v = chars_of(text);
    if mode == 0 {
        let mut s = String::from_str("C ");
        push_decimal(&mut s, v.len());
        s
    } else if mode == 1 {
        let mut s = String::from_str("W ");
        push_decimal(&mut s, count_words(v.as_slice()));
        s
    } else {
        let mut s = String::from_str("P ");
        push_decimal(&mut s, count_paragraphs(v.as_slice()));
        s
    }
}

/// The counter mode after a click: characters, words, paragraphs, around again.
pub fn next_counter_mode(mode: u8) -> (m: u8)
    requires
        mode < u8::MAX,
    ensures
        m == (mode + 1) % 3,
{
    (mode + 1) % 3
}


/// `content` with the byte just before `at` (the `@` that opened the insert
/// menu) replaced by `snippet`; `None` when `at` is outside `1..=len`.
pub open spec fn insert_snippet_spec(content: Seq<char>, at: int, snippet: Seq<char>) -> Option<
    Seq<char>,
> {
    if 0 < at <= utf8_len(content) {
        Some(
            content.take(chars_before(content, at - 1)) + snippet + content.skip(
                chars_before(content, at),
            ),
        )
    } else {
        None
    }
}

/// Puts `snippet` in place of the `@` that ends at byte `at_pos` of `content`.
pub fn insert_snippet(content: &str, at_pos: usize, snippet: &str) -> (r: Option<String>)
    requires
        0 < at_pos <= utf8_len(content@) ==> is_boundary(content@, at_pos - 1) && is_boundary(
            content@,
            at_pos as int,
        ),
    ensures
        match r {
            Some(s) => insert_snippet_spec(content@, at_pos as int, snippet@) == Some(s@),
            None => insert_snippet_spec(content@, at_pos as int, snippet@) is None,
        },
{
    let total = byte_length(content);
    if at_pos > 0 && at_pos <= total {
        let v = chars_of(content);
        let a = chars_in_bytes(v.as_slice(), at_pos - 1);
        let b = chars_in_bytes(v.as_slice(), at_pos);
        let mut s = string_of_range(v.as_slice(), 0, a);
        s.append(snippet);
        let tail = string_of_range(v.as_slice(), b, v.len());
        s.append(tail.as_str());
        assert(s@ =~= content@.take(a as int) + snippet@ + content@.skip(b as int));
        Some(s)
    } else {
        None
    }
}

/// `doc` with the bytes from `start` to `end` replaced by `amended`.
pub open spec fn replace_selection_spec(doc: Seq<char>, start: int, end: int, amended: Seq<char>) -> Seq<
    char,
> {
    doc.take(chars_before(doc, start)) + amended + doc.skip(chars_before(doc, end))
}

/// `doc` with the selected bytes `start..end` replaced by `amended`.
pub fn replace_selection(doc: &str, sel_start: usize, sel_end: usize, amended: &str) -> (s: String)
    requires
        is_boundary(doc@, sel_start as int),
        is_boundary(doc@, sel_end as int),
    ensures
        s@ == replace_selection_spec(doc@, sel_start as int, sel_end as int, amended@),
{
    let v = chars_of(doc);
    let a = chars_in_bytes(v.as_slice(), sel_start);
    let b = chars_in_bytes(v.as_slice(), sel_end);
    let mut s = string_of_range(v.as_slice(), 0, a);
    s.append(amended);
    let tail = string_of_range(v.as_slice(), b, v.len());
    s.append(tail.as_str());
    assert(s@ =~= doc@.take(a as int) + amended@ + doc@.skip(b as int));
    s
}

/// A keyboard shortcut of the editor window.
#[derive(Clone, Copy, Debug, PartialEq, Eq, Structural)]
pub enum Shortcut {
    /// Escape while the insert menu is open.
    CloseInsertMenu,
    /// Ctrl or Cmd with `z`.
    Undo,
    /// Ctrl or Cmd with `x` or `X`.
    Redo,
    /// Ctrl or Cmd with `s` or `S`.
    Save,
    /// Any other key.
    Plain,
}

/// Which [`Shortcut`] the key name `key` with the given modifiers is.
pub open spec fn shortcut_spec(key: Seq<char>, ctrl: bool, meta: bool, insert_menu_open: bool) -> Shortcut {
    if insert_menu_open && key == "Escape"@ {
        Shortcut::CloseInsertMenu
    } else if !(ctrl || meta) {
        Shortcut::Plain
    } else if key == "z"@ {
        Shortcut::Undo
    } else if key == "x"@ || key == "X"@ {
        Shortcut::Redo
    } else if key == "s"@ || key == "S"@ {
        Shortcut::Save
    } else {
        Shortcut::Plain
    }
}

/// Which [`Shortcut`] the browser key name `key` with the given modifiers is.
pub fn classify_shortcut(key: &str, ctrl: bool, meta: bool, insert_menu_open: bool) -> (k: Shortcut)
    ensures
        k == shortcut_spec(key@, ctrl, meta, insert_menu_open),
{
    if insert_menu_open && str_eq(key, "Escape") {
        Shortcut::CloseInsertMenu
    } else if !(ctrl || meta) {
        Shortcut::Plain
    } else if str_eq(key, "z") {
        Shortcut::Undo
    } else if str_eq(key, "x") || str_eq(key, "X") {
        Shortcut::Redo
    } else if str_eq(key, "s") || str_eq(key, "S") {
        Shortcut::Save
    } else {
        Shortcut::Plain
    }
}

/// Undo and redo stacks of whole document texts.
pub struct History {
    pub undo: Vec<String>,
    pub redo: Vec<String>,
}

/// The mathematical content of a [`History`].
pub struct HistoryModel {
    pub undo: Seq<Seq<char>>,
    pub redo: Seq<Seq<char>>,
}

pub open spec fn texts_view(v: Seq<String>) -> Seq<Seq<char>> {
    v.map_values(|s: String| s@)
}

impl View for History {
    type V = HistoryModel;

    open spec fn view(&self) -> HistoryModel {
        HistoryModel { undo: texts_view(self.undo@), redo: texts_view(self.redo@) }
    }
}

/// Recording `previous` before an edit: it goes on the undo stack, redo is forgotten.
pub open spec fn record_spec(h: HistoryModel, previous: Seq<char>) -> HistoryModel {
    HistoryModel { undo: h.undo.push(previous), redo: Seq::empty() }
}

/// Undo with `current` on screen: the last recorded text comes back and
/// `current` goes on the redo stack; nothing happens with nothing to undo.
pub open spec fn undo_spec(h: HistoryModel, current: Seq<char>) -> (HistoryModel, Option<Seq<char>>) {
    if h.undo.len() == 0 {
        (h, None)
    } else {
        (HistoryModel { undo: h.undo.drop_last(), redo: h.redo.push(current) }, Some(h.undo.last()))
    }
}

/// Redo with `current` on screen: the last undone text comes back and `current`
/// goes on the undo stack; nothing happens with nothing to redo.
pub open spec fn redo_spec(h: HistoryModel, current: Seq<char>) -> (HistoryModel, Option<Seq<char>>) {
    if h.redo.len() == 0 {
        (h, None)
    } else {
        (HistoryModel { undo: h.undo.push(current), redo: h.redo.drop_last() }, Some(h.redo.last()))
    }
}

impl History {
    /// A history whose undo stack starts with the initial document.
    pub fn new(initial: &str) -> (h: Self)
        ensures
            h@.undo == seq![initial@],
            h@.redo == Seq::<Seq<char>>::empty(),
    {
        let mut undo = Vec::new();
        undo.push(String::from_str(initial));
        let h = History { undo, redo: Vec::new() };
        assert(h@.undo =~= seq![initial@]);
        assert(h@.redo =~= Seq::<Seq<char>>::empty());
        h
    }

    /// Records `previous`, the document before an edit.
    pub fn record(&mut self, previous: &str)
        ensures
            final(self)@ == record_spec(old(self)@, previous@),
    {
        self.undo.push(String::from_str(previous));
        self.redo.clear();
        assert(self@.undo =~= old(self)@.undo.push(previous@));
        assert(self@.redo =~= Seq::<Seq<char>>::empty());
    }

    /// Records `previous` when the document changed from `previous` to `edited`.
    pub fn record_change(&mut self, previous: &str, edited: &str) -> (changed: bool)
        ensures
            changed == (previous@ != edited@),
            final(self)@ == if changed {
                record_spec(old(self)@, previous@)
            } else {
                old(self)@
            },
    {
        if str_eq(previous, edited) {
            false
        } else {
            self.record(previous);
            true
        }
    }

    /// Undo, with `current` on screen.
    pub fn undo(&mut self, current: &str) -> (r: Option<String>)
        ensures
            (final(self)@, match r {
                Some(s) => Some(s@),
                None => None,
            }) == undo_spec(old(self)@, current@),
    {
        match self.undo.pop() {
            Some(prev) => {
                self.redo.push(String::from_str(current));
                assert(self@.undo =~= old(self)@.undo.drop_last());
                assert(self@.redo =~= old(self)@.redo.push(current@));
                Some(prev)
            },
            None => None,
        }
    }

    /// Redo, with `current` on screen.
    pub fn redo(&mut self, current: &str) -> (r: Option<String>)
        ensures
            (final(self)@, match r {
                Some(s) => Some(s@),
                None => None,
            }) == redo_spec(old(self)@, current@),
    {
        match self.redo.pop() {
            Some(next) => {
                self.undo.push(String::from_str(current));
                assert(self@.redo =~= old(self)@.redo.drop_last());
                assert(self@.undo =~= old(self)@.undo.push(current@));
                Some(next)
            },
            None => None,
        }
    }
}

/// Undo right after an edit brings back the text from before it, and the edited
/// text is what redo would bring back.
pub proof fn law_undo_restores_recorded(h: HistoryModel, previous: Seq<char>, edited: Seq<char>)
    ensures
        undo_spec(record_spec(h, previous), edited).1 == Some(previous),
        undo_spec(record_spec(h, previous), edited).0.redo == seq![edited],
        undo_spec(record_spec(h, previous), edited).0.undo == h.undo,
{
    assert(record_spec(h, previous).undo.drop_last() =~= h.undo);
    assert(Seq::<Seq<char>>::empty().push(edited) =~= seq![edited]);
}

/// Redo right after an undo returns to the text on screen before the undo, and
/// leaves the history as it was.
pub proof fn law_redo_undoes_undo(h: HistoryModel, current: Seq<char>)
    requires
        h.undo.len() > 0,
    ensures
        ({
            let (h1, prev) = undo_spec(h, current);
            let (h2, next) = redo_spec(h1, prev.unwrap());
            next == Some(current) && h2 == h
        }),
{
    let (h1, prev) = undo_spec(h, current);
    assert(h1.redo.drop_last() =~= h.redo);
    assert(h1.undo.push(prev.unwrap()) =~= h.undo);
}

/// Undo right after a redo returns to the text on screen before the redo, and
/// leaves the history as it was.
pub proof fn law_undo_undoes_redo(h: HistoryModel, current: Seq<char>)
    requires
        h.redo.len() > 0,
    ensures
        ({
            let (h1, next) = redo_spec(h, current);
            let (h2, prev) = undo_spec(h1, next.unwrap());
            prev == Some(current) && h2 == h
        }),
{
    let (h1, next) = redo_spec(h, current);
    assert(h1.undo.drop_last() =~= h.undo);
    assert(h1.redo.push(next.unwrap()) =~= h.redo);
}

} // verus!
