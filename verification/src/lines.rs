//! Classification of a single Markdown source line: which kind of row it is,
//! how much leading markup is hidden, what remains visible, and the CSS row
//! classes that follow from that.

use vstd::prelude::*;
use crate::blocks::{
    first_index, is_first_with_id, lemma_first_unique, model_of, texts_of, BlockModel, TextBlock,
};
use crate::text::{
    byte_length, chars_of, decimal, is_whitespace, lemma_len_bounds, lemma_trim_blank,
    lemma_trim_end_keeps_first, lemma_trim_end_prefix, push_decimal, string_of_range, trim,
    trim_bounds, trim_start, trim_start_index, utf8_len,
};

verus! {

/// Length of the longest prefix of `s` whose characters all satisfy `p`.
pub open spec fn leading_run(s: Seq<char>, p: spec_fn(char) -> bool) -> nat
    decreases s.len(),
{
    if s.len() > 0 && p(s[0]) {
        1 + leading_run(s.drop_first(), p)
    } else {
        0
    }
}

pub open spec fn indent_pred() -> spec_fn(char) -> bool {
    |c: char| c == ' ' || c == '\t'
}

pub open spec fn hash_pred() -> spec_fn(char) -> bool {
    |c: char| c == '#'
}

pub open spec fn digit_pred() -> spec_fn(char) -> bool {
    |c: char| '0' <= c && c <= '9'
}

pub proof fn lemma_leading_run(s: Seq<char>, p: spec_fn(char) -> bool)
    ensures
        leading_run(s, p) <= s.len(),
        forall|j: int| 0 <= j < leading_run(s, p) ==> p(#[trigger] s[j]),
        leading_run(s, p) < s.len() ==> !p(s[leading_run(s, p) as int]),
    decreases s.len(),
{
    if s.len() > 0 && p(s[0]) {
        lemma_leading_run(s.drop_first(), p);
        assert forall|j: int| 0 <= j < leading_run(s, p) implies p(#[trigger] s[j]) by {
            if j > 0 {
                assert(s[j] == s.drop_first()[j - 1]);
            }
        }
    }
}

/// Counts the run of `v[from..]` as long as `pred_ok` marks the characters.
proof fn lemma_leading_run_step(s: Seq<char>, p: spec_fn(char) -> bool, i: int)
    requires
        0 <= i < s.len(),
        p(s[i]),
    ensures
        leading_run(s.skip(i), p) == 1 + leading_run(s.skip(i + 1), p),
{
    assert(s.skip(i).drop_first() =~= s.skip(i + 1));
}

/// Number of leading spaces and tabs; as these are ASCII, also their byte length.
pub open spec fn indent_len(s: Seq<char>) -> nat {
    leading_run(s, indent_pred())
}

pub open spec fn is_list_bullet(c: char) -> bool {
    c == '-' || c == '*' || c == '+'
}

/// `Some((level, prefix length))` for an ATX heading: up to six `#` after the indent,
/// then a space.
pub open spec fn heading_spec(s: Seq<char>) -> Option<(u8, nat)> {
    let ind = indent_len(s);
    let rest = s.skip(ind as int);
    let h = leading_run(rest, hash_pred());
    if 1 <= h <= 6 && h < rest.len() && rest[h as int] == ' ' {
        Some((h as u8, ind + h + 1))
    } else {
        None
    }
}

/// `Some((checked, prefix length))` for a task item: `- [ ] `, `- [x] ` or `- [X] `,
/// with `-`, `*` or `+` as bullet.
pub open spec fn task_spec(s: Seq<char>) -> Option<(bool, nat)> {
    let ind = indent_len(s);
    let rest = s.skip(ind as int);
    if rest.len() >= 6 && is_list_bullet(rest[0]) && rest[1] == ' ' && rest[2] == '[' && (
    rest[3] == ' ' || rest[3] == 'x' || rest[3] == 'X') && rest[4] == ']' && rest[5] == ' ' {
        Some((rest[3] != ' ', ind + 6))
    } else {
        None
    }
}

/// `Some(prefix length)` for a bullet item: `- `, `* ` or `+ ` after the indent.
pub open spec fn bullet_spec(s: Seq<char>) -> Option<nat> {
    let ind = indent_len(s);
    let rest = s.skip(ind as int);
    if rest.len() >= 2 && is_list_bullet(rest[0]) && rest[1] == ' ' {
        Some(ind + 2)
    } else {
        None
    }
}

/// `Some((marker, prefix length))` for an ordered item: ASCII digits, then `. ` or `) `;
/// the marker is the digits with their `.` or `)`.
pub open spec fn ordered_spec(s: Seq<char>) -> Option<(Seq<char>, nat)> {
    let ind = indent_len(s);
    let rest = s.skip(ind as int);
    let d = leading_run(rest, digit_pred());
    if d > 0 && rest.len() >= d + 2 && (rest[d as int] == '.' || rest[d as int] == ')')
        && rest[(d + 1) as int] == ' ' {
        Some((rest.take(d as int).push(rest[d as int]), ind + d + 2))
    } else {
        None
    }
}

/// `Some(prefix length)` for a quote line: `> ` after the indent.
pub open spec fn quote_spec(s: Seq<char>) -> Option<nat> {
    let ind = indent_len(s);
    let rest = s.skip(ind as int);
    if rest.len() >= 2 && rest[0] == '>' && rest[1] == ' ' {
        Some(ind + 2)
    } else {
        None
    }
}

/// A code fence: after leading whitespace, three backticks or three tildes.
pub open spec fn fence_spec(s: Seq<char>) -> bool {
    let t = trim_start(s);
    t.len() >= 3 && ((t[0] == '`' && t[1] == '`' && t[2] == '`') || (t[0] == '~' && t[1] == '~'
        && t[2] == '~'))
}

/// A table row: holds a `|` and starts or ends with one.
pub open spec fn table_row_spec(t: Seq<char>) -> bool {
    &&& t.contains('|')
    &&& t.len() > 0
    &&& (t[0] == '|' || t.last() == '|')
}

/// An HTML block line: starts with `<` and ends with `>`.
pub open spec fn html_block_spec(t: Seq<char>) -> bool {
    t.len() > 0 && t[0] == '<' && t.last() == '>'
}

/// A link reference definition: starts with `[` and holds `]:`.
pub open spec fn reference_definition_spec(t: Seq<char>) -> bool {
    &&& t.len() > 0
    &&& t[0] == '['
    &&& exists|i: int| 0 <= i && i + 1 < t.len() && #[trigger] t[i] == ']' && t[i + 1] == ':'
}

/// Number of characters of `t` other than the space.
pub open spec fn non_space_count(t: Seq<char>) -> nat
    decreases t.len(),
{
    if t.len() == 0 {
        0
    } else {
        non_space_count(t.drop_last()) + if t.last() == ' ' {
            0nat
        } else {
            1nat
        }
    }
}

/// Every character of `t` is a space or `m`.
pub open spec fn only_spaces_and(t: Seq<char>, m: char) -> bool {
    forall|i: int| 0 <= i < t.len() ==> t[i] == ' ' || t[i] == m
}

/// A thematic break: spaces aside, at least three of one of `-`, `*`, `_`, and nothing else.
pub open spec fn horizontal_rule_spec(t: Seq<char>) -> bool {
    non_space_count(t) >= 3 && (only_spaces_and(t, '-') || only_spaces_and(t, '*')
        || only_spaces_and(t, '_'))
}

/// Length of the leading run of spaces and tabs of `v`.
fn leading_indent_len(v: &[char]) -> (n: usize)
    ensures
        n == indent_len(v@),
        n <= v@.len(),
{
    let mut i: usize = 0;
    assert(v@.skip(0) =~= v@);
    while i < v.len() && (v[i] == ' ' || v[i] == '\t')
        invariant
            i <= v@.len(),
            indent_len(v@) == i + leading_run(v@.skip(i as int), indent_pred()),
        decreases v@.len() - i,
    {
        proof {
            lemma_leading_run_step(v@, indent_pred(), i as int);
        }
        i += 1;
    }
    i
}

/// End of the run of characters of `v[from..]` that are `#`.
fn hash_run_end(v: &[char], from: usize) -> (i: usize)
    requires
        from <= v@.len(),
    ensures
        i == from + leading_run(v@.skip(from as int), hash_pred()),
        i <= v@.len(),
{
    let mut i: usize = from;
    while i < v.len() && v[i] == '#'
        invariant
            from <= i <= v@.len(),
            from + leading_run(v@.skip(from as int), hash_pred()) == i + leading_run(
                v@.skip(i as int),
                hash_pred(),
            ),
        decreases v@.len() - i,
    {
        proof {
            lemma_leading_run_step(v@, hash_pred(), i as int);
        }
        i += 1;
    }
    i
}

/// End of the run of ASCII digits of `v[from..]`.
fn digit_run_end(v: &[char], from: usize) -> (i: usize)
    requires
        from <= v@.len(),
    ensures
        i == from + leading_run(v@.skip(from as int), digit_pred()),
        i <= v@.len(),
{
    let mut i: usize = from;
    while i < v.len() && '0' <= v[i] && v[i] <= '9'
        invariant
            from <= i <= v@.len(),
            from + leading_run(v@.skip(from as int), digit_pred()) == i + leading_run(
                v@.skip(i as int),
                digit_pred(),
            ),
        decreases v@.len() - i,
    {
        proof {
            lemma_leading_run_step(v@, digit_pred(), i as int);
        }
        i += 1;
    }
    i
}


/// Heading level and prefix length of `v`, if it is an ATX heading.
fn heading_prefix(v: &[char]) -> (r: Option<(u8, usize)>)
    ensures
        match r {
            Some((level, n)) => heading_spec(v@) == Some((level, n as nat)),
            None => heading_spec(v@) is None,
        },
{
    let ind = leading_indent_len(v);
    let end = hash_run_end(v, ind);
    let hashes = end - ind;
    let ghost rest = v@.skip(ind as int);
    assert(hashes == leading_run(rest, hash_pred()));
    if 1 <= hashes && hashes <= 6 && end < v.len() && v[end] == ' ' {
        assert(rest[hashes as int] == v@[end as int]);
        Some((hashes as u8, end + 1))
    } else {
        proof {
            if 1 <= hashes <= 6 && hashes < rest.len() {
                assert(rest[hashes as int] == v@[end as int]);
            }
        }
        None
    }
}

/// Whether the task box holds a check, and the prefix length, if `v` is a task item.
fn task_prefix(v: &[char]) -> (r: Option<(bool, usize)>)
    ensures
        match r {
            Some((checked, n)) => task_spec(v@) == Some((checked, n as nat)),
            None => task_spec(v@) is None,
        },
{
    let ind = leading_indent_len(v);
    let ghost rest = v@.skip(ind as int);
    if v.len() - ind >= 6 {
        let b = v[ind];
        let mark = v[ind + 3];
        assert(rest[0] == b && rest[1] == v@[ind + 1] && rest[2] == v@[ind + 2] && rest[3] == mark
            && rest[4] == v@[ind + 4] && rest[5] == v@[ind + 5]);
        if (b == '-' || b == '*' || b == '+') && v[ind + 1] == ' ' && v[ind + 2] == '[' && (mark
            == ' ' || mark == 'x' || mark == 'X') && v[ind + 4] == ']' && v[ind + 5] == ' ' {
            return Some((mark != ' ', ind + 6));
        }
    }
    None
}

/// Prefix length of `v`, if it is a bullet item.
fn bullet_prefix(v: &[char]) -> (r: Option<usize>)
    ensures
        match r {
            Some(n) => bullet_spec(v@) == Some(n as nat),
            None => bullet_spec(v@) is None,
        },
{
    let ind = leading_indent_len(v);
    let ghost rest = v@.skip(ind as int);
    if v.len() - ind >= 2 {
        let b = v[ind];
        assert(rest[0] == b && rest[1] == v@[ind + 1]);
        if (b == '-' || b == '*' || b == '+') && v[ind + 1] == ' ' {
            return Some(ind + 2);
        }
    }
    None
}

/// Marker (digits and delimiter) and prefix length of `v`, if it is an ordered item.
fn ordered_prefix(v: &[char]) -> (r: Option<(String, usize)>)
    ensures
        match r {
            Some((marker, n)) => ordered_spec(v@) == Some((marker@, n as nat)),
            None => ordered_spec(v@) is None,
        },
{
    let ind = leading_indent_len(v);
    let end = digit_run_end(v, ind);
    let d = end - ind;
    let ghost rest = v@.skip(ind as int);
    if d == 0 {
        return None;
    }
    if v.len() - end >= 2 {
        let delim = v[end];
        assert(rest[d as int] == delim && rest[d + 1] == v@[end + 1]);
        if (delim == '.' || delim == ')') && v[end + 1] == ' ' {
            let marker = string_of_range(v, ind, end + 1);
            assert(marker@ =~= rest.take(d as int).push(rest[d as int]));
            return Some((marker, end + 2));
        }
    }
    None
}

/// Prefix length of `v`, if it is a quote line.
fn quote_prefix(v: &[char]) -> (r: Option<usize>)
    ensures
        match r {
            Some(n) => quote_spec(v@) == Some(n as nat),
            None => quote_spec(v@) is None,
        },
{
    let ind = leading_indent_len(v);
    let ghost rest = v@.skip(ind as int);
    if v.len() - ind >= 2 {
        assert(rest[0] == v@[ind as int] && rest[1] == v@[ind + 1]);
        if v[ind] == '>' && v[ind + 1] == ' ' {
            return Some(ind + 2);
        }
    }
    None
}

/// Whether `v` opens or closes a fenced code block.
fn is_fence_line(v: &[char]) -> (b: bool)
    ensures
        b == fence_spec(v@),
{
    let i = trim_start_index(v, 0);
    assert(v@.skip(0) =~= v@);
    let ghost t = v@.skip(i as int);
    if v.len() - i >= 3 {
        assert(t[0] == v@[i as int] && t[1] == v@[i + 1] && t[2] == v@[i + 2]);
        (v[i] == '`' && v[i + 1] == '`' && v[i + 2] == '`') || (v[i] == '~' && v[i + 1] == '~'
            && v[i + 2] == '~')
    } else {
        false
    }
}


/// Whether the trimmed line `v[a..b]` looks like a table row.
fn looks_like_table_row(v: &[char], a: usize, b: usize) -> (r: bool)
    requires
        a <= b <= v@.len(),
    ensures
        r == table_row_spec(v@.subrange(a as int, b as int)),
{
    let ghost t = v@.subrange(a as int, b as int);
    let mut found = false;
    let mut i = a;
    while i < b
        invariant
            a <= i <= b <= v@.len(),
            t == v@.subrange(a as int, b as int),
            found == exists|j: int| a <= j < i && v@[j] == '|',
        decreases b - i,
    {
        if v[i] == '|' {
            found = true;
        }
        i += 1;
    }
    proof {
        if found {
            let j = choose|j: int| a <= j < b && v@[j] == '|';
            assert(t[j - a] == '|');
        }
        if t.contains('|') {
            let k = choose|k: int| 0 <= k < t.len() && t[k] == '|';
            assert(v@[a + k] == '|');
        }
    }
    if !found || a == b {
        return false;
    }
    assert(t[0] == v@[a as int] && t.last() == v@[b - 1]);
    v[a] == '|' || v[b - 1] == '|'
}

/// Whether the trimmed line `v[a..b]` looks like a block of raw HTML.
fn looks_like_html_block(v: &[char], a: usize, b: usize) -> (r: bool)
    requires
        a <= b <= v@.len(),
    ensures
        r == html_block_spec(v@.subrange(a as int, b as int)),
{
    let ghost t = v@.subrange(a as int, b as int);
    if a == b {
        return false;
    }
    assert(t[0] == v@[a as int] && t.last() == v@[b - 1]);
    v[a] == '<' && v[b - 1] == '>'
}

/// Whether the trimmed line `v[a..b]` looks like a link reference definition.
fn looks_like_reference_definition(v: &[char], a: usize, b: usize) -> (r: bool)
    requires
        a <= b <= v@.len(),
    ensures
        r == reference_definition_spec(v@.subrange(a as int, b as int)),
{
    let ghost t = v@.subrange(a as int, b as int);
    if a == b {
        return false;
    }
    assert(t[0] == v@[a as int]);
    if v[a] != '[' {
        return false;
    }
    let mut i = a;
    while i + 1 < b
        invariant
            a <= i < b <= v@.len(),
            t == v@.subrange(a as int, b as int),
            v@[a as int] == '[',
            forall|j: int| a <= j < i ==> !(#[trigger] v@[j] == ']' && v@[j + 1] == ':'),
        decreases b - i,
    {
        if v[i] == ']' && v[i + 1] == ':' {
            assert(t[i - a] == ']' && t[i - a + 1] == ':');
            return true;
        }
        i += 1;
    }
    assert forall|k: int| 0 <= k && k + 1 < t.len() && #[trigger] t[k] == ']' implies t[k + 1]
        != ':' by {
        assert(t[k] == v@[a + k] && t[k + 1] == v@[a + k + 1]);
    }
    false
}

/// Whether the trimmed line `v[a..b]` is a thematic break.
fn is_horizontal_rule(v: &[char], a: usize, b: usize) -> (r: bool)
    requires
        a <= b <= v@.len(),
    ensures
        r == horizontal_rule_spec(v@.subrange(a as int, b as int)),
{
    let mut count: usize = 0;
    let mut dashes = true;
    let mut stars = true;
    let mut underscores = true;
    let mut i = a;
    while i < b
        invariant
            a <= i <= b <= v@.len(),
            count == non_space_count(v@.subrange(a as int, i as int)),
            count <= i - a,
            dashes == only_spaces_and(v@.subrange(a as int, i as int), '-'),
            stars == only_spaces_and(v@.subrange(a as int, i as int), '*'),
            underscores == only_spaces_and(v@.subrange(a as int, i as int), '_'),
        decreases b - i,
    {
        let c = v[i];
        let ghost prev = v@.subrange(a as int, i as int);
        let ghost next = v@.subrange(a as int, i + 1);
        assert(next.drop_last() =~= prev);
        assert(next.last() == c);
        if c != ' ' {
            count += 1;
        }
        proof {
            assert forall|m: char| only_spaces_and(next, m) == (only_spaces_and(prev, m) && (c
                == ' ' || c == m)) by {
                if only_spaces_and(prev, m) && (c == ' ' || c == m) {
                    assert forall|j: int| 0 <= j < next.len() implies next[j] == ' ' || next[j]
                        == m by {
                        if j < prev.len() {
                            assert(next[j] == prev[j]);
                        }
                    }
                }
                if only_spaces_and(next, m) {
                    assert(next[next.len() - 1] == c);
                    assert forall|j: int| 0 <= j < prev.len() implies prev[j] == ' ' || prev[j]
                        == m by {
                        assert(next[j] == prev[j]);
                    }
                }
            }
        }
        dashes = dashes && (c == ' ' || c == '-');
        stars = stars && (c == ' ' || c == '*');
        underscores = underscores && (c == ' ' || c == '_');
        i += 1;
    }
    count >= 3 && (dashes || stars || underscores)
}


/// What kind of row a source line is shown as.
#[derive(Clone, Copy, Debug, PartialEq, Eq, Structural)]
pub enum LineKind {
    Blank,
    Paragraph,
    Heading(u8),
    BulletItem,
    OrderedItem,
    TaskItem { checked: bool },
    QuoteLine,
    Hr,
    FenceLine,
    CodeFenceBody,
    RawOnly,
}

/// How a line is presented: the hidden prefix, the text left visible, an
/// optional marker drawn in the rail, and the row's CSS classes.
#[derive(Debug, PartialEq, Eq)]
pub struct LinePresentation {
    /// Byte length of the hidden markup prefix.
    pub prefix_len: usize,
    pub visible_text: String,
    pub marker_text: Option<String>,
    pub row_classes: String,
}

/// Everything the editor needs to render one line.
#[derive(Debug, PartialEq, Eq)]
pub struct LineRenderInfo {
    pub kind: LineKind,
    pub presentation: LinePresentation,
    pub hidden_prefix: bool,
    pub raw_only: bool,
    pub auto_raw_on_focus: bool,
}

impl Clone for LinePresentation {
    fn clone(&self) -> (r: Self)
        ensures
            r == *self,
    {
        LinePresentation {
            prefix_len: self.prefix_len,
            visible_text: self.visible_text.clone(),
            marker_text: match &self.marker_text {
                Some(m) => Some(m.clone()),
                None => None,
            },
            row_classes: self.row_classes.clone(),
        }
    }
}

impl Clone for LineRenderInfo {
    fn clone(&self) -> (r: Self)
        ensures
            r == *self,
    {
        LineRenderInfo {
            kind: self.kind,
            presentation: self.presentation.clone(),
            hidden_prefix: self.hidden_prefix,
            raw_only: self.raw_only,
            auto_raw_on_focus: self.auto_raw_on_focus,
        }
    }
}

/// The mathematical content of a [`LineRenderInfo`].
pub struct LineSpec {
    pub kind: LineKind,
    pub prefix_len: nat,
    pub visible_text: Seq<char>,
    pub marker_text: Option<Seq<char>>,
    pub row_classes: Seq<char>,
    pub hidden_prefix: bool,
    pub raw_only: bool,
    pub auto_raw_on_focus: bool,
}

pub open spec fn opt_view(o: Option<String>) -> Option<Seq<char>> {
    match o {
        Some(s) => Some(s@),
        None => None,
    }
}

impl View for LineRenderInfo {
    type V = LineSpec;

    open spec fn view(&self) -> LineSpec {
        LineSpec {
            kind: self.kind,
            prefix_len: self.presentation.prefix_len as nat,
            visible_text: self.presentation.visible_text@,
            marker_text: opt_view(self.presentation.marker_text),
            row_classes: self.presentation.row_classes@,
            hidden_prefix: self.hidden_prefix,
            raw_only: self.raw_only,
            auto_raw_on_focus: self.auto_raw_on_focus,
        }
    }
}

/// The classes a row of `kind` carries besides the shell class.
pub open spec fn kind_classes(kind: LineKind) -> Seq<Seq<char>> {
    match kind {
        LineKind::Blank => seq!["is-blank"@],
        LineKind::Paragraph => seq!["is-paragraph"@],
        LineKind::Heading(level) => seq!["is-heading"@, "is-heading-"@ + decimal(level as nat)],
        LineKind::BulletItem => seq!["is-list"@, "is-bullet"@],
        LineKind::OrderedItem => seq!["is-list"@, "is-ordered"@],
        LineKind::TaskItem { .. } => seq!["is-list"@, "is-task"@],
        LineKind::QuoteLine => seq!["is-quote"@, "has-rail"@],
        LineKind::Hr => seq!["is-hr"@],
        LineKind::FenceLine => seq!["is-fence-line"@],
        LineKind::CodeFenceBody => seq!["is-code-fence-body"@],
        LineKind::RawOnly => seq!["is-raw-fallback"@],
    }
}

/// All classes of a row, in order.
pub open spec fn row_class_list(kind: LineKind, has_marker: bool, hidden_prefix: bool) -> Seq<
    Seq<char>,
> {
    seq!["editor-line-shell"@] + kind_classes(kind) + (if hidden_prefix {
        seq!["has-hidden-prefix"@]
    } else {
        seq![]
    }) + (if has_marker {
        seq!["has-marker"@]
    } else {
        seq![]
    })
}

/// The words of `list` separated by single spaces.
pub open spec fn join_words(list: Seq<Seq<char>>) -> Seq<char>
    decreases list.len(),
{
    if list.len() == 0 {
        seq![]
    } else if list.len() == 1 {
        list[0]
    } else {
        join_words(list.drop_last()) + " "@ + list.last()
    }
}

pub open spec fn views_of(words: Seq<String>) -> Seq<Seq<char>> {
    words.map_values(|w: String| w@)
}

/// The words of `words` separated by single spaces.
fn join_with_spaces(words: &Vec<String>) -> (s: String)
    ensures
        s@ == join_words(views_of(words@)),
{
    let mut s = String::new();
    let mut i: usize = 0;
    while i < words.len()
        invariant
            i <= words@.len(),
            s@ == join_words(views_of(words@).take(i as int)),
        decreases words@.len() - i,
    {
        let ghost before = views_of(words@).take(i as int);
        let ghost after = views_of(words@).take(i + 1);
        assert(after.drop_last() =~= before);
        assert(after.last() == words@[i as int]@);
        if i > 0 {
            s.append(" ");
        }
        s.append(words[i].as_str());
        proof {
            if i == 0 {
                assert(before.len() == 0);
                assert(s@ =~= join_words(after));
            }
        }
        i += 1;
    }
    assert(views_of(words@).take(words@.len() as int) =~= views_of(words@));
    s
}

/// The CSS classes of a row.
fn row_classes_for(kind: LineKind, has_marker: bool, hidden_prefix: bool) -> (s: String)
    ensures
        s@ == join_words(row_class_list(kind, has_marker, hidden_prefix)),
{
    let mut words: Vec<String> = Vec::new();
    words.push(String::from_str("editor-line-shell"));
    match kind {
        LineKind::Blank => words.push(String::from_str("is-blank")),
        LineKind::Paragraph => words.push(String::from_str("is-paragraph")),
        LineKind::Heading(level) => {
            words.push(String::from_str("is-heading"));
            let mut w = String::from_str("is-heading-");
            push_decimal(&mut w, level as usize);
            words.push(w);
        },
        LineKind::BulletItem => {
            words.push(String::from_str("is-list"));
            words.push(String::from_str("is-bullet"));
        },
        LineKind::OrderedItem => {
            words.push(String::from_str("is-list"));
            words.push(String::from_str("is-ordered"));
        },
        LineKind::TaskItem { .. } => {
            words.push(String::from_str("is-list"));
            words.push(String::from_str("is-task"));
        },
        LineKind::QuoteLine => {
            words.push(String::from_str("is-quote"));
            words.push(String::from_str("has-rail"));
        },
        LineKind::Hr => words.push(String::from_str("is-hr")),
        LineKind::FenceLine => words.push(String::from_str("is-fence-line")),
        LineKind::CodeFenceBody => words.push(String::from_str("is-code-fence-body")),
        LineKind::RawOnly => words.push(String::from_str("is-raw-fallback")),
    }
    if hidden_prefix {
        words.push(String::from_str("has-hidden-prefix"));
    }
    if has_marker {
        words.push(String::from_str("has-marker"));
    }
    assert(views_of(words@) =~= row_class_list(kind, has_marker, hidden_prefix));
    join_with_spaces(&words)
}


/// The presentation of `s` with its first `p` characters hidden.
pub open spec fn info_spec(
    kind: LineKind,
    s: Seq<char>,
    p: nat,
    marker: Option<Seq<char>>,
    hidden_prefix: bool,
    raw_only: bool,
    auto_raw_on_focus: bool,
) -> LineSpec {
    LineSpec {
        kind,
        prefix_len: utf8_len(s.take(p as int)),
        visible_text: s.skip(p as int),
        marker_text: marker,
        row_classes: join_words(row_class_list(kind, marker is Some, hidden_prefix)),
        hidden_prefix,
        raw_only,
        auto_raw_on_focus,
    }
}

/// How the line `s` is presented, given whether an open code fence precedes it.
///
/// Inside a fence every line is raw (a fence line closes it). Outside, in this
/// order: fence line, blank, raw fallback (table row, HTML block, reference
/// definition), thematic break (all of it hidden), heading, task, bullet, ordered
/// item, quote, and otherwise a paragraph.
pub open spec fn line_spec(s: Seq<char>, inside_code_fence: bool) -> LineSpec {
    let t = trim(s);
    if inside_code_fence {
        if fence_spec(s) {
            info_spec(LineKind::FenceLine, s, 0, None, false, true, false)
        } else {
            info_spec(LineKind::CodeFenceBody, s, 0, None, false, true, false)
        }
    } else if fence_spec(s) {
        info_spec(LineKind::FenceLine, s, 0, None, false, true, false)
    } else if t.len() == 0 {
        info_spec(LineKind::Blank, s, 0, None, false, false, false)
    } else if table_row_spec(t) || html_block_spec(t) || reference_definition_spec(t) {
        info_spec(LineKind::RawOnly, s, 0, None, false, true, false)
    } else if horizontal_rule_spec(t) {
        info_spec(LineKind::Hr, s, s.len(), None, true, false, true)
    } else if let Some((level, p)) = heading_spec(s) {
        info_spec(LineKind::Heading(level), s, p, None, true, false, false)
    } else if let Some((checked, p)) = task_spec(s) {
        info_spec(
            LineKind::TaskItem { checked },
            s,
            p,
            Some(
                if checked {
                    "☑"@
                } else {
                    "☐"@
                },
            ),
            true,
            false,
            false,
        )
    } else if let Some(p) = bullet_spec(s) {
        info_spec(LineKind::BulletItem, s, p, Some("•"@), true, false, false)
    } else if let Some((marker, p)) = ordered_spec(s) {
        info_spec(LineKind::OrderedItem, s, p, Some(marker), true, false, false)
    } else if let Some(p) = quote_spec(s) {
        info_spec(LineKind::QuoteLine, s, p, None, true, false, false)
    } else {
        info_spec(LineKind::Paragraph, s, 0, None, false, false, false)
    }
}

pub open spec fn ascii_prefix(s: Seq<char>, p: nat) -> bool {
    p <= s.len() && forall|j: int| 0 <= j < p ==> (#[trigger] s[j] as u32) < 0x80
}

/// An ASCII prefix has as many bytes as characters.
pub proof fn lemma_ascii_prefix_bytes(s: Seq<char>, p: nat)
    requires
        ascii_prefix(s, p),
    ensures
        utf8_len(s.take(p as int)) == p,
    decreases p,
{
    if p > 0 {
        assert(s.take(p as int).drop_last() =~= s.take(p - 1));
        assert(s.take(p as int).last() == s[p - 1]);
        lemma_ascii_prefix_bytes(s, (p - 1) as nat);
    }
}

/// Indent characters are ASCII.
proof fn lemma_indent_ascii(s: Seq<char>)
    ensures
        ascii_prefix(s, indent_len(s)),
{
    lemma_leading_run(s, indent_pred());
    assert forall|j: int| 0 <= j < indent_len(s) implies (#[trigger] s[j] as u32) < 0x80 by {
        assert(indent_pred()(s[j]));
    }
}

/// Builds the presentation of `v` with its first `p` characters (`prefix_len` bytes) hidden.
fn make_info(
    kind: LineKind,
    v: &[char],
    p: usize,
    prefix_len: usize,
    marker_text: Option<String>,
    hidden_prefix: bool,
    raw_only: bool,
    auto_raw_on_focus: bool,
) -> (info: LineRenderInfo)
    requires
        p <= v@.len(),
        prefix_len == utf8_len(v@.take(p as int)),
    ensures
        info@ == info_spec(
            kind,
            v@,
            p as nat,
            opt_view(marker_text),
            hidden_prefix,
            raw_only,
            auto_raw_on_focus,
        ),
{
    let visible_text = string_of_range(v, p, v.len());
    assert(visible_text@ =~= v@.skip(p as int));
    let has_marker = marker_text.is_some();
    let row_classes = row_classes_for(kind, has_marker, hidden_prefix);
    LineRenderInfo {
        kind,
        presentation: LinePresentation { prefix_len, visible_text, marker_text, row_classes },
        hidden_prefix,
        raw_only,
        auto_raw_on_focus,
    }
}

/// Classifies the characters `v` of a line whose UTF-8 length is `nbytes`.
fn analyze_chars(v: &[char], nbytes: usize, inside_code_fence: bool) -> (info: LineRenderInfo)
    requires
        nbytes == utf8_len(v@),
    ensures
        info@ == line_spec(v@, inside_code_fence),
{
    assert(v@.take(0) =~= Seq::<char>::empty());
    assert(utf8_len(v@.take(0)) == 0);
    if inside_code_fence {
        if is_fence_line(v) {
            return make_info(LineKind::FenceLine, v, 0, 0, None, false, true, false);
        }
        return make_info(LineKind::CodeFenceBody, v, 0, 0, None, false, true, false);
    }
    if is_fence_line(v) {
        return make_info(LineKind::FenceLine, v, 0, 0, None, false, true, false);
    }
    let (a, b) = trim_bounds(v);
    if a == b {
        return make_info(LineKind::Blank, v, 0, 0, None, false, false, false);
    }
    if looks_like_table_row(v, a, b) || looks_like_html_block(v, a, b)
        || looks_like_reference_definition(v, a, b) {
        return make_info(LineKind::RawOnly, v, 0, 0, None, false, true, false);
    }
    if is_horizontal_rule(v, a, b) {
        assert(v@.take(v@.len() as int) =~= v@);
        return make_info(LineKind::Hr, v, v.len(), nbytes, None, true, false, true);
    }
    let ghost s = v@;
    let ghost ind = indent_len(s);
    let ghost rest = s.skip(ind as int);
    proof {
        lemma_indent_ascii(s);
    }
    if let Some((level, p)) = heading_prefix(v) {
        proof {
            lemma_leading_run(rest, hash_pred());
            assert forall|j: int| 0 <= j < p implies (#[trigger] s[j] as u32) < 0x80 by {
                if j >= ind {
                    assert(s[j] == rest[j - ind]);
                    if j - ind < leading_run(rest, hash_pred()) {
                        assert(hash_pred()(rest[j - ind]));
                    }
                }
            }
            lemma_ascii_prefix_bytes(s, p as nat);
        }
        return make_info(LineKind::Heading(level), v, p, p, None, true, false, false);
    }
    if let Some((checked, p)) = task_prefix(v) {
        proof {
            assert forall|j: int| 0 <= j < p implies (#[trigger] s[j] as u32) < 0x80 by {
                if j >= ind {
                    assert(s[j] == rest[j - ind]);
                }
            }
            lemma_ascii_prefix_bytes(s, p as nat);
        }
        let marker = if checked {
            String::from_str("☑")
        } else {
            String::from_str("☐")
        };
        return make_info(
            LineKind::TaskItem { checked },
            v,
            p,
            p,
            Some(marker),
            true,
            false,
            false,
        );
    }
    if let Some(p) = bullet_prefix(v) {
        proof {
            assert forall|j: int| 0 <= j < p implies (#[trigger] s[j] as u32) < 0x80 by {
                if j >= ind {
                    assert(s[j] == rest[j - ind]);
                }
            }
            lemma_ascii_prefix_bytes(s, p as nat);
        }
        return make_info(
            LineKind::BulletItem,
            v,
            p,
            p,
            Some(String::from_str("•")),
            true,
            false,
            false,
        );
    }
    if let Some((marker, p)) = ordered_prefix(v) {
        proof {
            lemma_leading_run(rest, digit_pred());
            assert forall|j: int| 0 <= j < p implies (#[trigger] s[j] as u32) < 0x80 by {
                if j >= ind {
                    assert(s[j] == rest[j - ind]);
                    if j - ind < leading_run(rest, digit_pred()) {
                        assert(digit_pred()(rest[j - ind]));
                    }
                }
            }
            lemma_ascii_prefix_bytes(s, p as nat);
        }
        return make_info(LineKind::OrderedItem, v, p, p, Some(marker), true, false, false);
    }
    if let Some(p) = quote_prefix(v) {
        proof {
            assert forall|j: int| 0 <= j < p implies (#[trigger] s[j] as u32) < 0x80 by {
                if j >= ind {
                    assert(s[j] == rest[j - ind]);
                }
            }
            lemma_ascii_prefix_bytes(s, p as nat);
        }
        return make_info(LineKind::QuoteLine, v, p, p, None, true, false, false);
    }
    make_info(LineKind::Paragraph, v, 0, 0, None, false, false, false)
}

/// Classifies the line `text`; `inside_code_fence` tells whether a code fence
/// opened above it is still open.
pub fn analyze_line(text: &str, inside_code_fence: bool) -> (info: LineRenderInfo)
    ensures
        info@ == line_spec(text@, inside_code_fence),
{
    let v = chars_of(text);
    let nbytes = byte_length(text);
    analyze_chars(v.as_slice(), nbytes, inside_code_fence)
}


/// The hidden prefix of a line is a whole number of its characters, and the
/// visible text is what follows it.
pub proof fn lemma_line_prefix(s: Seq<char>, inside: bool)
    ensures
        exists|p: nat|
            p <= s.len() && line_spec(s, inside).prefix_len == utf8_len(#[trigger] s.take(p as int))
                && line_spec(s, inside).visible_text == s.skip(p as int),
{
    let info = line_spec(s, inside);
    let ind = indent_len(s);
    let rest = s.skip(ind as int);
    lemma_leading_run(s, indent_pred());
    lemma_leading_run(rest, hash_pred());
    lemma_leading_run(rest, digit_pred());
    if info.visible_text == s.skip(0) && info.prefix_len == utf8_len(s.take(0)) {
    } else if info.kind == LineKind::Hr {
        assert(info.prefix_len == utf8_len(s.take(s.len() as int)));
    } else if let Some((level, p)) = heading_spec(s) {
        assert(info.prefix_len == utf8_len(s.take(p as int)));
    } else if let Some((checked, p)) = task_spec(s) {
        assert(info.prefix_len == utf8_len(s.take(p as int)));
    } else if let Some(p) = bullet_spec(s) {
        assert(info.prefix_len == utf8_len(s.take(p as int)));
    } else if let Some((marker, p)) = ordered_spec(s) {
        assert(info.prefix_len == utf8_len(s.take(p as int)));
    } else if let Some(p) = quote_spec(s) {
        assert(info.prefix_len == utf8_len(s.take(p as int)));
    }
}

/// A line hides a prefix exactly when that prefix is not empty.
pub proof fn lemma_hidden_iff_prefix(s: Seq<char>, inside: bool)
    ensures
        line_spec(s, inside).hidden_prefix <==> line_spec(s, inside).prefix_len > 0,
{
    let info = line_spec(s, inside);
    let ind = indent_len(s);
    let rest = s.skip(ind as int);
    lemma_leading_run(s, indent_pred());
    lemma_leading_run(rest, hash_pred());
    lemma_leading_run(rest, digit_pred());
    lemma_trim_blank(s);
    assert(s.take(0) =~= Seq::<char>::empty());
    if !info.hidden_prefix {
        assert(info.prefix_len == utf8_len(s.take(0)));
    } else if info.kind == LineKind::Hr {
        assert(s.len() > 0);
        assert(s.take(s.len() as int) =~= s);
        lemma_len_bounds(s);
    } else if let Some((level, p)) = heading_spec(s) {
        lemma_len_bounds(s.take(p as int));
    } else if let Some((checked, p)) = task_spec(s) {
        lemma_len_bounds(s.take(p as int));
    } else if let Some(p) = bullet_spec(s) {
        lemma_len_bounds(s.take(p as int));
    } else if let Some((marker, p)) = ordered_spec(s) {
        lemma_len_bounds(s.take(p as int));
    } else if let Some(p) = quote_spec(s) {
        lemma_len_bounds(s.take(p as int));
    }
}

/// `n` hash signs, a space, then `t`.
pub open spec fn atx_line(n: nat, t: Seq<char>) -> Seq<char> {
    Seq::new(n, |i: int| '#') + seq![' '] + t
}

proof fn lemma_atx_hash_run(n: nat, t: Seq<char>)
    ensures
        leading_run(atx_line(n, t), hash_pred()) == n,
    decreases n,
{
    let s = atx_line(n, t);
    if n == 0 {
        assert(s[0] == ' ');
    } else {
        assert(s.drop_first() =~= atx_line((n - 1) as nat, t));
        lemma_atx_hash_run((n - 1) as nat, t);
        assert(s[0] == '#');
    }
}

/// A line made of one to six `#`, a space and a text holding no `|` is a heading
/// of that many levels: the hashes and the space are hidden, and the text after
/// them is what is shown.
pub proof fn law_atx_heading(n: nat, t: Seq<char>)
    requires
        1 <= n <= 6,
        !t.contains('|'),
    ensures
        ({
            let r = line_spec(atx_line(n, t), false);
            &&& r.kind == LineKind::Heading(n as u8)
            &&& r.prefix_len == n + 1
            &&& r.visible_text == t
            &&& r.hidden_prefix
            &&& !r.raw_only
            &&& r.marker_text is None
        }),
{
    let s = atx_line(n, t);
    assert(s[0] == '#');
    assert(!is_whitespace('#'));
    assert(trim_start(s) == s);
    lemma_trim_end_prefix(s);
    lemma_trim_end_keeps_first(s);
    let tr = trim(s);
    assert(tr[0] == s[0]);
    assert(!fence_spec(s));
    if tr.contains('|') {
        let i = choose|i: int| 0 <= i < tr.len() && tr[i] == '|';
        assert(s[i] == '|');
        assert(i > n);
        assert(t[i - n - 1] == '|');
        assert(t.contains('|'));
    }
    assert(!table_row_spec(tr));
    assert(!html_block_spec(tr));
    assert(!reference_definition_spec(tr));
    assert(!only_spaces_and(tr, '-') && !only_spaces_and(tr, '*') && !only_spaces_and(tr, '_'));
    assert(!horizontal_rule_spec(tr));
    assert(indent_len(s) == 0);
    assert(s.skip(0) =~= s);
    lemma_atx_hash_run(n, t);
    assert(s[n as int] == ' ');
    assert(heading_spec(s) == Some((n as u8, (n + 1) as nat)));
    assert forall|j: int| 0 <= j < n + 1 implies (#[trigger] s[j] as u32) < 0x80 by {
        if j < n {
            assert(s[j] == '#');
        } else {
            assert(s[j] == ' ');
        }
    }
    lemma_ascii_prefix_bytes(s, (n + 1) as nat);
    assert(s.skip((n + 1) as int) =~= t);
}

/// Whether a code fence is open just before block `k`: the number of fence
/// lines among the blocks above it is odd.
pub open spec fn fence_open_before(texts: Seq<Seq<char>>, k: int) -> bool
    decreases k,
{
    if k <= 0 {
        false
    } else {
        fence_open_before(texts, k - 1) != fence_spec(texts[k - 1])
    }
}

/// How the block with id `id` is presented: its line is classified with the
/// fence state that the blocks above it leave; an unknown id is a blank line.
pub open spec fn render_info_spec(blocks: Seq<BlockModel>, id: usize) -> LineSpec {
    match first_index(blocks, id) {
        Some(k) => line_spec(blocks[k].text, fence_open_before(texts_of(blocks), k)),
        None => line_spec(Seq::<char>::empty(), false),
    }
}

/// A line is shown as a code-fence row exactly when it is a fence line,
/// whether or not a code block is open above it.
pub proof fn law_fence_rows_are_fences(s: Seq<char>, inside: bool)
    ensures
        (line_spec(s, inside).kind == LineKind::FenceLine) == fence_spec(s),
{
}

/// The presentation of the block with id `id` within `blocks`.
pub fn line_render_info(blocks: &[TextBlock], id: usize) -> (info: LineRenderInfo)
    ensures
        info@ == render_info_spec(model_of(blocks@), id),
{
    let mut inside_code_fence = false;
    let mut i: usize = 0;
    while i < blocks.len()
        invariant
            i <= blocks@.len(),
            inside_code_fence == fence_open_before(texts_of(model_of(blocks@)), i as int),
            forall|j: int| 0 <= j < i ==> (#[trigger] blocks@[j]).id != id,
        decreases blocks@.len() - i,
    {
        let block = &blocks[i];
        let v = chars_of(block.text.as_str());
        if block.id == id {
            proof {
                lemma_first_unique(model_of(blocks@), id, i as int);
            }
            let nbytes = byte_length(block.text.as_str());
            return analyze_chars(v.as_slice(), nbytes, inside_code_fence);
        }
        assert(texts_of(model_of(blocks@))[i as int] == block.text@);
        if is_fence_line(v.as_slice()) {
            inside_code_fence = !inside_code_fence;
        }
        i += 1;
    }
    assert(!exists|k: int| is_first_with_id(model_of(blocks@), id, k));
    let empty = String::new();
    analyze_line(empty.as_str(), false)
}

} // verus!
