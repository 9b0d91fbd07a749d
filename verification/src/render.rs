//! Rendering of a line's visible text: Markdown to inline HTML through
//! pulldown-cmark, with block-level wrappers refused, and HTML escaping.

use vstd::prelude::*;
use pulldown_cmark::Options;
use crate::blocks::trim_end_char;
use crate::lines::{line_spec, LineKind, LineRenderInfo};
use crate::text::{chars_of, contains_chars, contains_seq, push_one, string_of_range, trim, trim_range};

verus! {

/// The Markdown extensions the editor renders with.
#[derive(Clone, Copy, Debug, PartialEq, Eq, Structural)]
pub enum MarkdownExtension {
    Gfm,
    Tables,
    Strikethrough,
    Tasklists,
    Footnotes,
    SmartPunctuation,
}

pub open spec fn editor_extensions() -> Seq<MarkdownExtension> {
    seq![
        MarkdownExtension::Gfm,
        MarkdownExtension::Tables,
        MarkdownExtension::Strikethrough,
        MarkdownExtension::Tasklists,
        MarkdownExtension::Footnotes,
        MarkdownExtension::SmartPunctuation,
    ]
}

/// The extensions the editor turns on, in the order they are enabled.
pub fn markdown_options() -> (o: Vec<MarkdownExtension>)
    ensures
        o@ == editor_extensions(),
{
    let mut o = Vec::new();
    o.push(MarkdownExtension::Gfm);
    o.push(MarkdownExtension::Tables);
    o.push(MarkdownExtension::Strikethrough);
    o.push(MarkdownExtension::Tasklists);
    o.push(MarkdownExtension::Footnotes);
    o.push(MarkdownExtension::SmartPunctuation);
    assert(o@ =~= editor_extensions());
    o
}

/// The HTML that pulldown-cmark renders for the Markdown `text` with `extensions` on.
pub uninterp spec fn markdown_html(text: Seq<char>, extensions: Seq<MarkdownExtension>) -> Seq<
    char,
>;

/// Renders `text` with `pulldown_cmark::Parser::new_ext` and `pulldown_cmark::html::push_html`
/// into a fresh string. Claimed: the result is a function of `text` and the
/// extensions alone, named `markdown_html`; nothing is claimed of its content.
#[verifier::external_body]
fn markdown_to_html(text: &str, extensions: &Vec<MarkdownExtension>) -> (html: String)
    ensures
        html@ == markdown_html(text@, extensions@),
{
    let mut options = Options::empty();
    for ext in extensions.iter() {
        options.insert(match ext {
            MarkdownExtension::Gfm => Options::ENABLE_GFM,
            MarkdownExtension::Tables => Options::ENABLE_TABLES,
            MarkdownExtension::Strikethrough => Options::ENABLE_STRIKETHROUGH,
            MarkdownExtension::Tasklists => Options::ENABLE_TASKLISTS,
            MarkdownExtension::Footnotes => Options::ENABLE_FOOTNOTES,
            MarkdownExtension::SmartPunctuation => Options::ENABLE_SMART_PUNCTUATION,
        });
    }
    let mut html = String::new();
    pulldown_cmark::html::push_html(&mut html, pulldown_cmark::Parser::new_ext(text, options));
    html
}

/// The escape of one character: `&`, `<` and `>` become entities.
pub open spec fn escape_char(c: char) -> Seq<char> {
    if c == '&' {
        "&amp;"@
    } else if c == '<' {
        "&lt;"@
    } else if c == '>' {
        "&gt;"@
    } else {
        seq![c]
    }
}

/// `s` with `&`, `<` and `>` escaped.
pub open spec fn html_escape_spec(s: Seq<char>) -> Seq<char>
    decreases s.len(),
{
    if s.len() == 0 {
        s
    } else {
        html_escape_spec(s.drop_last()) + escape_char(s.last())
    }
}

fn escape_chars_into(out: &mut String, v: &[char], from: usize, to: usize)
    requires
        from <= to <= v@.len(),
    ensures
        final(out)@ == old(out)@ + html_escape_spec(v@.subrange(from as int, to as int)),
{
    let mut i = from;
    assert(v@.subrange(from as int, from as int) =~= Seq::<char>::empty());
    while i < to
        invariant
            from <= i <= to <= v@.len(),
            out@ == old(out)@ + html_escape_spec(v@.subrange(from as int, i as int)),
        decreases to - i,
    {
        let c = v[i];
        let ghost prev = out@;
        assert(v@.subrange(from as int, i + 1).drop_last() =~= v@.subrange(from as int, i as int));
        assert(v@.subrange(from as int, i + 1).last() == c);
        if c == '&' {
            out.append("&amp;");
        } else if c == '<' {
            out.append("&lt;");
        } else if c == '>' {
            out.append("&gt;");
        } else {
            push_one(out, c);
        }
        assert(out@ =~= old(out)@ + html_escape_spec(v@.subrange(from as int, i + 1)));
        i += 1;
    }
}

/// `text` with `&`, `<` and `>` escaped.
pub fn html_escape(text: &str) -> (s: String)
    ensures
        s@ == html_escape_spec(text@),
{
    let v = chars_of(text);
    let mut s = String::new();
    escape_chars_into(&mut s, v.as_slice(), 0, v.len());
    assert(v@.subrange(0, v@.len() as int) =~= v@);
    s
}

/// The inner HTML of a single paragraph: trailing newlines dropped, then
/// `<p>` … `</p>` taken off, if both are there.
pub open spec fn strip_paragraph_spec(r: Seq<char>) -> Option<Seq<char>> {
    let t = trim_end_char(r, '\n');
    if t.len() >= 7 && t[0] == '<' && t[1] == 'p' && t[2] == '>' && t[t.len() - 4] == '<' && t[t.len()
        - 3] == '/' && t[t.len() - 2] == 'p' && t[t.len() - 1] == '>' {
        Some(t.subrange(3, t.len() - 4))
    } else {
        None
    }
}

/// End index of `v[..to]` once the trailing newlines are dropped.
fn trim_newlines_end(v: &[char], to: usize) -> (j: usize)
    requires
        to <= v@.len(),
    ensures
        j <= to,
        v@.take(j as int) == trim_end_char(v@.take(to as int), '\n'),
{
    let mut j = to;
    while j > 0 && v[j - 1] == '\n'
        invariant
            j <= to <= v@.len(),
            trim_end_char(v@.take(to as int), '\n') == trim_end_char(v@.take(j as int), '\n'),
        decreases j,
    {
        assert(v@.take(j as int).drop_last() =~= v@.take(j - 1));
        j -= 1;
    }
    j
}

/// The bounds of the paragraph's inner HTML within `v`, if `v` is one paragraph.
fn strip_paragraph_wrapper(v: &[char]) -> (r: Option<(usize, usize)>)
    ensures
        match r {
            Some((a, b)) => a <= b <= v@.len() && strip_paragraph_spec(v@) == Some(
                v@.subrange(a as int, b as int),
            ),
            None => strip_paragraph_spec(v@) is None,
        },
{
    let j = trim_newlines_end(v, v.len());
    assert(v@.take(v@.len() as int) =~= v@);
    let ghost t = v@.take(j as int);
    if j >= 7 {
        assert(t[0] == v@[0] && t[1] == v@[1] && t[2] == v@[2]);
        assert(t[t.len() - 4] == v@[j - 4] && t[t.len() - 3] == v@[j - 3] && t[t.len() - 2]
            == v@[j - 2] && t[t.len() - 1] == v@[j - 1]);
        if v[0] == '<' && v[1] == 'p' && v[2] == '>' && v[j - 4] == '<' && v[j - 3] == '/' && v[j
            - 2] == 'p' && v[j - 1] == '>' {
            assert(t.subrange(3, t.len() - 4) =~= v@.subrange(3, j - 4));
            return Some((3, j - 4));
        }
    }
    None
}

/// `c` with ASCII upper case letters lowered.
pub open spec fn ascii_lower(c: char) -> char {
    if 'A' <= c && c <= 'Z' {
        ((c as u32) + 32) as char
    } else {
        c
    }
}

/// The block-level tag openings that inline rendering refuses.
pub open spec fn block_tags() -> Seq<Seq<char>> {
    seq![
        "<p"@, "</p"@, "<ul"@, "<ol"@, "<li"@, "<blockquote"@, "<h1"@, "<h2"@, "<h3"@,
        "<h4"@, "<h5"@, "<h6"@, "<table"@, "<thead"@, "<tbody"@, "<tr"@, "<td"@, "<th"@,
        "<pre"@, "<hr"@, "<div"@,
    ]
}

/// `r` with ASCII upper case letters lowered.
pub open spec fn lower_seq(r: Seq<char>) -> Seq<char> {
    r.map_values(|c: char| ascii_lower(c))
}

/// Whether `r`, ASCII case ignored, holds one of the refused block tags.
pub open spec fn has_block_html(r: Seq<char>) -> bool {
    exists|k: int|
        0 <= k < block_tags().len() && contains_seq(lower_seq(r), #[trigger] block_tags()[k])
}


/// `c` with ASCII upper case letters lowered.
fn ascii_lower_char(c: char) -> (d: char)
    ensures
        d == ascii_lower(c),
{
    if 'A' <= c && c <= 'Z' {
        ((c as u8) + 32) as char
    } else {
        c
    }
}

/// Whether `v[a..b]`, ASCII case ignored, holds a refused block tag.
fn contains_disallowed_block_html(v: &[char], a: usize, b: usize) -> (r: bool)
    requires
        a <= b <= v@.len(),
    ensures
        r == has_block_html(v@.subrange(a as int, b as int)),
{
    let mut lowered: Vec<char> = Vec::new();
    let mut i = a;
    while i < b
        invariant
            a <= i <= b <= v@.len(),
            lowered@ == lower_seq(v@.subrange(a as int, i as int)),
        decreases b - i,
    {
        lowered.push(ascii_lower_char(v[i]));
        i += 1;
        assert(lowered@ =~= lower_seq(v@.subrange(a as int, i as int)));
    }
    let mut tags: Vec<Vec<char>> = Vec::new();
    tags.push(chars_of("<p"));
    tags.push(chars_of("</p"));
    tags.push(chars_of("<ul"));
    tags.push(chars_of("<ol"));
    tags.push(chars_of("<li"));
    tags.push(chars_of("<blockquote"));
    tags.push(chars_of("<h1"));
    tags.push(chars_of("<h2"));
    tags.push(chars_of("<h3"));
    tags.push(chars_of("<h4"));
    tags.push(chars_of("<h5"));
    tags.push(chars_of("<h6"));
    tags.push(chars_of("<table"));
    tags.push(chars_of("<thead"));
    tags.push(chars_of("<tbody"));
    tags.push(chars_of("<tr"));
    tags.push(chars_of("<td"));
    tags.push(chars_of("<th"));
    tags.push(chars_of("<pre"));
    tags.push(chars_of("<hr"));
    tags.push(chars_of("<div"));
    assert(tags@.map_values(|t: Vec<char>| t@) =~= block_tags());
    assert forall|m: int| 0 <= m < tags@.len() implies (#[trigger] tags@[m])@ == block_tags()[m] by {
        assert(tags@.map_values(|t: Vec<char>| t@)[m] == tags@[m]@);
    }
    let mut k: usize = 0;
    while k < tags.len()
        invariant
            k <= tags@.len() == block_tags().len(),
            lowered@ == lower_seq(v@.subrange(a as int, b as int)),
            forall|m: int| 0 <= m < tags@.len() ==> (#[trigger] tags@[m])@ == block_tags()[m],
            forall|m: int|
                0 <= m < k ==> !contains_seq(lowered@, #[trigger] block_tags()[m]),
        decreases tags@.len() - k,
    {
        if contains_chars(lowered.as_slice(), tags[k].as_slice()) {
            assert(contains_seq(lowered@, block_tags()[k as int]));
            return true;
        }
        k += 1;
    }
    false
}

/// The rendered HTML `rendered` without its paragraph wrapper (or else without
/// its trailing newlines), whitespace trimmed.
pub open spec fn unwrapped_html(rendered: Seq<char>) -> Seq<char> {
    trim(
        match strip_paragraph_spec(rendered) {
            Some(x) => x,
            None => trim_end_char(rendered, '\n'),
        },
    )
}

/// What a non-empty line's Markdown becomes once rendered to `rendered`: the
/// unwrapped HTML; nothing left gives a line break, a refused block tag gives
/// the escaped source.
pub open spec fn inline_post(text: Seq<char>, rendered: Seq<char>) -> Seq<char> {
    let t = unwrapped_html(rendered);
    if t.len() == 0 {
        "<br/>"@
    } else if has_block_html(t) {
        html_escape_spec(text)
    } else {
        t
    }
}

/// The inline HTML of the Markdown line `text`.
pub open spec fn inline_html_spec(text: Seq<char>) -> Seq<char> {
    if text.len() == 0 {
        "<br/>"@
    } else {
        inline_post(text, markdown_html(text, editor_extensions()))
    }
}

/// Turns the HTML `rendered` for the non-empty line `text` into inline HTML.
pub fn finish_inline_html(text: &str, rendered: &str) -> (s: String)
    ensures
        s@ == inline_post(text@, rendered@),
{
    let v = chars_of(rendered);
    let (a, b) = match strip_paragraph_wrapper(v.as_slice()) {
        Some((a, b)) => (a, b),
        None => {
            let j = trim_newlines_end(v.as_slice(), v.len());
            assert(v@.take(v@.len() as int) =~= v@);
            assert(v@.subrange(0, j as int) =~= v@.take(j as int));
            (0, j)
        },
    };
    let (c, d) = trim_range(v.as_slice(), a, b);
    if c == d {
        return String::from_str("<br/>");
    }
    if contains_disallowed_block_html(v.as_slice(), c, d) {
        html_escape(text)
    } else {
        string_of_range(v.as_slice(), c, d)
    }
}

/// The inline HTML of the Markdown line `text`: an empty line is a line break.
pub fn render_inline_html(text: &str) -> (s: String)
    ensures
        s@ == inline_html_spec(text@),
{
    if text.is_empty() {
        return String::from_str("<br/>");
    }
    let options = markdown_options();
    let rendered = markdown_to_html(text, &options);
    finish_inline_html(text, rendered.as_str())
}

/// The HTML shown for a line presented as `info`.
pub open spec fn line_html_spec(kind: LineKind, visible: Seq<char>) -> Seq<char> {
    match kind {
        LineKind::Blank => "<br/>"@,
        LineKind::Hr => "<span class=\"editor-inline-rule\"></span>"@,
        LineKind::FenceLine | LineKind::CodeFenceBody | LineKind::RawOnly => html_escape_spec(
            visible,
        ),
        _ => inline_html_spec(visible),
    }
}

/// The HTML shown for a line presented as `info`.
pub fn render_line_html(info: &LineRenderInfo) -> (s: String)
    ensures
        s@ == line_html_spec(info.kind, info.presentation.visible_text@),
{
    match info.kind {
        LineKind::Blank => String::from_str("<br/>"),
        LineKind::Hr => String::from_str("<span class=\"editor-inline-rule\"></span>"),
        LineKind::FenceLine | LineKind::CodeFenceBody | LineKind::RawOnly => html_escape(
            info.presentation.visible_text.as_str(),
        ),
        _ => render_inline_html(info.presentation.visible_text.as_str()),
    }
}


/// Every refused tag starts with `<` and has a second character.
proof fn lemma_block_tags_shape()
    ensures
        forall|k: int|
            0 <= k < block_tags().len() ==> (#[trigger] block_tags()[k]).len() >= 2
                && block_tags()[k][0] == '<',
        block_tags()[5] == seq!['<', 'b', 'l', 'o', 'c', 'k', 'q', 'u', 'o', 't', 'e'],
        forall|k: int| 0 <= k < block_tags().len() && k != 5 ==> (#[trigger] block_tags()[k])[1] != 'b',
{
    reveal_strlit("<p");
    reveal_strlit("</p");
    reveal_strlit("<ul");
    reveal_strlit("<ol");
    reveal_strlit("<li");
    reveal_strlit("<blockquote");
    reveal_strlit("<h1");
    reveal_strlit("<h2");
    reveal_strlit("<h3");
    reveal_strlit("<h4");
    reveal_strlit("<h5");
    reveal_strlit("<h6");
    reveal_strlit("<table");
    reveal_strlit("<thead");
    reveal_strlit("<tbody");
    reveal_strlit("<tr");
    reveal_strlit("<td");
    reveal_strlit("<th");
    reveal_strlit("<pre");
    reveal_strlit("<hr");
    reveal_strlit("<div");
    assert(block_tags()[5] =~= seq!['<', 'b', 'l', 'o', 'c', 'k', 'q', 'u', 'o', 't', 'e']);
}

/// Text without `<` holds no refused tag.
proof fn lemma_no_lt_no_block(r: Seq<char>)
    requires
        forall|j: int| 0 <= j < r.len() ==> r[j] != '<',
    ensures
        !has_block_html(r),
{
    lemma_block_tags_shape();
    assert forall|k: int| 0 <= k < block_tags().len() implies !contains_seq(
        lower_seq(r),
        #[trigger] block_tags()[k],
    ) by {
        let tag = block_tags()[k];
        assert forall|i: int| 0 <= i && i + tag.len() <= lower_seq(r).len() implies #[trigger] lower_seq(
            r,
        ).subrange(i, i + tag.len()) != tag by {
            assert(lower_seq(r).subrange(i, i + tag.len())[0] == lower_seq(r)[i]);
        }
    }
}

/// Escaped text holds no `<`.
proof fn lemma_escape_no_lt(s: Seq<char>)
    ensures
        forall|j: int| 0 <= j < html_escape_spec(s).len() ==> html_escape_spec(s)[j] != '<',
    decreases s.len(),
{
    reveal_strlit("&amp;");
    reveal_strlit("&lt;");
    reveal_strlit("&gt;");
    if s.len() > 0 {
        lemma_escape_no_lt(s.drop_last());
        let a = html_escape_spec(s.drop_last());
        let b = escape_char(s.last());
        assert forall|j: int| 0 <= j < (a + b).len() implies (a + b)[j] != '<' by {
            if j >= a.len() {
                assert((a + b)[j] == b[j - a.len()]);
            }
        }
    }
}

/// A line break holds no refused tag.
proof fn lemma_break_no_block()
    ensures
        !has_block_html("<br/>"@),
{
    reveal_strlit("<br/>");
    lemma_block_tags_shape();
    let r = "<br/>"@;
    assert(lower_seq(r) =~= r);
    assert forall|k: int| 0 <= k < block_tags().len() implies !contains_seq(
        lower_seq(r),
        #[trigger] block_tags()[k],
    ) by {
        let tag = block_tags()[k];
        assert forall|i: int| 0 <= i && i + tag.len() <= r.len() implies #[trigger] lower_seq(
            r,
        ).subrange(i, i + tag.len()) != tag by {
            let sub = lower_seq(r).subrange(i, i + tag.len());
            if sub == tag {
                assert(sub[0] == r[i]);
                assert(sub[1] == r[i + 1]);
                if k == 5 {
                    assert(sub[2] == r[i + 2]);
                }
            }
        }
    }
}

/// Every line inside an open code fence, code or the closing fence, is shown
/// as its own source with `&`, `<` and `>` escaped: code is never rendered as
/// Markdown, and no character of it is hidden.
pub proof fn law_fenced_lines_show_escaped_source(s: Seq<char>, v: Seq<char>)
    ensures
        line_html_spec(line_spec(s, true).kind, line_spec(s, true).visible_text)
            == html_escape_spec(s),
        line_html_spec(LineKind::CodeFenceBody, v) == html_escape_spec(v),
        line_html_spec(LineKind::FenceLine, v) == html_escape_spec(v),
{
    assert(s.skip(0) =~= s);
}

/// Escaping keeps every character, so it never shortens the text.
proof fn lemma_escape_len(s: Seq<char>)
    ensures
        html_escape_spec(s).len() >= s.len(),
    decreases s.len(),
{
    reveal_strlit("&amp;");
    reveal_strlit("&lt;");
    reveal_strlit("&gt;");
    if s.len() > 0 {
        lemma_escape_len(s.drop_last());
    }
}

/// The inline HTML of a line is never empty; an empty line gives a line break;
/// otherwise it is a line break, the escaped source, or the Markdown renderer's
/// output with its paragraph wrapper removed and whitespace trimmed.
pub proof fn law_inline_html_shape(text: Seq<char>)
    ensures
        inline_html_spec(text).len() > 0,
        text.len() == 0 ==> inline_html_spec(text) == "<br/>"@,
        inline_html_spec(text) == "<br/>"@ || inline_html_spec(text) == html_escape_spec(text)
            || inline_html_spec(text) == unwrapped_html(markdown_html(text, editor_extensions())),
{
    reveal_strlit("<br/>");
    lemma_escape_len(text);
}

/// Inline rendering never lets a block-level tag through, whatever HTML the
/// Markdown renderer produced.
pub proof fn law_inline_html_has_no_block_tags(text: Seq<char>, rendered: Seq<char>)
    ensures
        !has_block_html(inline_post(text, rendered)),
        !has_block_html(inline_html_spec(text)),
{
    lemma_break_no_block();
    lemma_escape_no_lt(text);
    lemma_no_lt_no_block(html_escape_spec(text));
    if text.len() > 0 {
        lemma_escape_no_lt(text);
    }
}

} // verus!
