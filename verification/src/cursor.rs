//! Cursor arithmetic: the browser counts positions in UTF-16 code units, Rust
//! strings in UTF-8 bytes, and a line may hide a markup prefix.

use vstd::prelude::*;
use crate::text::{
    byte_length, char_utf16_width, char_utf8_width, chars_of, lemma_len_bounds,
    lemma_utf16_len_concat, lemma_utf8_len_concat, lemma_utf8_len_single, string_of_range, utf16_len_of,
    utf16_width, utf8_len, utf8_width,
};

verus! {

/// Bytes and UTF-16 units of a prefix grow with the prefix.
pub proof fn lemma_prefix_lens(s: Seq<char>, i: int)
    requires
        0 <= i < s.len(),
    ensures
        utf8_len(s.take(i + 1)) == utf8_len(s.take(i)) + utf8_width(s[i]),
        utf16_len_of(s.take(i + 1)) == utf16_len_of(s.take(i)) + utf16_width(s[i]),
        utf8_len(s.take(i + 1)) <= utf8_len(s),
        utf16_len_of(s.take(i + 1)) <= utf8_len(s.take(i + 1)),
{
    assert(s.take(i + 1).drop_last() =~= s.take(i));
    lemma_utf8_len_concat(s.take(i + 1), s.skip(i + 1));
    assert(s.take(i + 1) + s.skip(i + 1) =~= s);
    lemma_len_bounds(s.take(i + 1));
}

/// Number of UTF-16 code units of `text`.
pub fn utf16_len(text: &str) -> (n: usize)
    ensures
        n == utf16_len_of(text@),
{
    let v = chars_of(text);
    let total = byte_length(text);
    let mut n: usize = 0;
    let mut i: usize = 0;
    assert(v@.take(0) =~= Seq::<char>::empty());
    while i < v.len()
        invariant
            i <= v@.len(),
            total == utf8_len(v@),
            n == utf16_len_of(v@.take(i as int)),
        decreases v@.len() - i,
    {
        proof {
            lemma_prefix_lens(v@, i as int);
        }
        n = n + char_utf16_width(v[i]);
        i += 1;
    }
    assert(v@.take(v@.len() as int) =~= v@);
    n
}

/// The byte position that the UTF-16 position `off` falls on in `s`: a position
/// inside a character's code units lands after that character, a position past
/// the end at the end.
pub open spec fn utf16_to_byte(s: Seq<char>, off: int) -> nat
    decreases s.len(),
{
    if s.len() == 0 || off <= 0 {
        0
    } else if off < utf16_width(s[0]) {
        utf8_width(s[0])
    } else {
        utf8_width(s[0]) + utf16_to_byte(s.drop_first(), off - utf16_width(s[0]))
    }
}

/// The number of characters that `utf16_to_byte` passes over.
pub open spec fn utf16_to_char(s: Seq<char>, off: int) -> nat
    decreases s.len(),
{
    if s.len() == 0 || off <= 0 {
        0
    } else if off < utf16_width(s[0]) {
        1
    } else {
        1 + utf16_to_char(s.drop_first(), off - utf16_width(s[0]))
    }
}

/// `utf16_to_byte` lands on the end of a whole character.
pub proof fn lemma_utf16_to_byte_chars(s: Seq<char>, off: int)
    ensures
        utf16_to_char(s, off) <= s.len(),
        utf16_to_byte(s, off) == utf8_len(s.take(utf16_to_char(s, off) as int)),
    decreases s.len(),
{
    let k = utf16_to_char(s, off);
    if s.len() == 0 || off <= 0 {
        assert(s.take(0) =~= Seq::<char>::empty());
    } else {
        if off >= utf16_width(s[0]) {
            lemma_utf16_to_byte_chars(s.drop_first(), off - utf16_width(s[0]));
        }
        let rest = s.drop_first().take(k - 1);
        assert(s.take(k as int) =~= seq![s[0]] + rest);
        lemma_utf8_len_concat(seq![s[0]], rest);
        lemma_utf8_len_single(s[0]);
        if off < utf16_width(s[0]) {
            assert(rest =~= Seq::<char>::empty());
        }
    }
}

/// A UTF-16 position at the end of a character maps to the byte position at
/// the end of the same character.
pub proof fn law_utf16_boundary_maps_to_byte_boundary(s: Seq<char>, k: int)
    requires
        0 <= k <= s.len(),
    ensures
        utf16_to_byte(s, utf16_len_of(s.take(k)) as int) == utf8_len(s.take(k)),
    decreases k,
{
    if k == 0 {
        assert(s.take(0) =~= Seq::<char>::empty());
    } else {
        let rest = s.drop_first();
        law_utf16_boundary_maps_to_byte_boundary(rest, k - 1);
        assert(s.take(k) =~= seq![s[0]] + rest.take(k - 1));
        lemma_utf16_len_concat(seq![s[0]], rest.take(k - 1));
        lemma_utf8_len_concat(seq![s[0]], rest.take(k - 1));
        lemma_utf8_len_single(s[0]);
        assert(utf16_len_of(seq![s[0]]) == utf16_width(s[0])) by {
            assert(seq![s[0]].drop_last() =~= Seq::<char>::empty());
            assert(seq![s[0]].last() == s[0]);
            assert(utf16_len_of(Seq::<char>::empty()) == 0);
        }
        lemma_len_bounds(rest.take(k - 1));
        if k - 1 == 0 {
            assert(rest.take(0) =~= Seq::<char>::empty());
        } else {
            assert(utf16_len_of(rest.take(k - 1)) >= 1);
        }
    }
}

/// The UTF-16 length of the first `j + 1` characters: the first character's
/// width plus that of the next `j`.
proof fn lemma_utf16_take_first(s: Seq<char>, j: int)
    requires
        0 <= j < s.len(),
    ensures
        utf16_len_of(s.take(j + 1)) == utf16_width(s[0]) + utf16_len_of(s.drop_first().take(j)),
{
    assert(s.take(j + 1) =~= seq![s[0]] + s.drop_first().take(j));
    lemma_utf16_len_concat(seq![s[0]], s.drop_first().take(j));
    assert(seq![s[0]].drop_last() =~= Seq::<char>::empty());
    assert(seq![s[0]].last() == s[0]);
    assert(utf16_len_of(Seq::<char>::empty()) == 0);
}

/// A UTF-16 offset maps to the end of the first character at which the UTF-16
/// length of the prefix reaches it (the start for an offset of zero or less),
/// and to the end of the text when the offset lies past it.
pub proof fn law_utf16_offset_is_least_boundary(s: Seq<char>, off: int)
    ensures
        ({
            let k = utf16_to_char(s, off) as int;
            &&& 0 <= k <= s.len()
            &&& utf16_to_byte(s, off) == utf8_len(s.take(k))
            &&& (off <= utf16_len_of(s) ==> utf16_len_of(s.take(k)) >= off)
            &&& forall|j: int| 0 <= j < k ==> utf16_len_of(#[trigger] s.take(j)) < off
            &&& (off > utf16_len_of(s) ==> k == s.len())
        }),
    decreases s.len(),
{
    lemma_utf16_to_byte_chars(s, off);
    let k = utf16_to_char(s, off) as int;
    assert(s.take(0) =~= Seq::<char>::empty());
    assert(utf16_len_of(Seq::<char>::empty()) == 0);
    if s.len() == 0 || off <= 0 {
        assert(s.take(s.len() as int) =~= s);
    } else {
        let w = utf16_width(s[0]);
        let rest = s.drop_first();
        lemma_utf16_take_first(s, rest.len() as int);
        assert(s.take(s.len() as int) =~= s);
        assert(rest.take(rest.len() as int) =~= rest);
        if off < w {
            lemma_utf16_take_first(s, 0);
            assert(rest.take(0) =~= Seq::<char>::empty());
        } else {
            law_utf16_offset_is_least_boundary(rest, off - w);
            let k1 = utf16_to_char(rest, off - w) as int;
            assert(k == k1 + 1);
            lemma_utf16_take_first(s, k1);
            assert forall|j: int| 0 <= j < k implies utf16_len_of(#[trigger] s.take(j)) < off by {
                if j > 0 {
                    lemma_utf16_take_first(s, j - 1);
                    assert(utf16_len_of(rest.take(j - 1)) < off - w);
                }
            }
        }
    }
}

/// `b` is the byte length of some prefix of `s` made of whole characters.
pub open spec fn is_boundary(s: Seq<char>, b: int) -> bool {
    exists|k: int| 0 <= k <= s.len() && utf8_len(#[trigger] s.take(k)) == b
}

/// Distinct prefixes have distinct byte lengths.
pub proof fn lemma_prefix_bytes_strict(s: Seq<char>, i: int, j: int)
    requires
        0 <= i < j <= s.len(),
    ensures
        utf8_len(s.take(i)) < utf8_len(s.take(j)),
    decreases j - i,
{
    lemma_prefix_lens(s, j - 1);
    if i < j - 1 {
        lemma_prefix_bytes_strict(s, i, j - 1);
    }
}

/// The number of characters whose bytes make up the first `b` bytes of `s`.
pub open spec fn chars_before(s: Seq<char>, b: int) -> int {
    choose|k: int| 0 <= k <= s.len() && utf8_len(#[trigger] s.take(k)) == b
}

pub proof fn lemma_chars_before(s: Seq<char>, b: int, k: int)
    requires
        0 <= k <= s.len(),
        utf8_len(s.take(k)) == b,
    ensures
        chars_before(s, b) == k,
{
    let c = chars_before(s, b);
    assert(is_boundary(s, b));
    if c < k {
        lemma_prefix_bytes_strict(s, c, k);
    } else if k < c {
        lemma_prefix_bytes_strict(s, k, c);
    }
}

/// Character index and byte index of the UTF-16 position `off` in `v`.
pub fn utf16_offset_to_position(v: &[char], total: usize, off: usize) -> (r: (usize, usize))
    requires
        total == utf8_len(v@),
    ensures
        r.0 <= v@.len(),
        r.1 == utf8_len(v@.take(r.0 as int)),
        r.1 == utf16_to_byte(v@, off as int),
{
    let mut i: usize = 0;
    let mut seen: usize = 0;
    let mut byte_idx: usize = 0;
    assert(v@.take(0) =~= Seq::<char>::empty());
    assert(v@.skip(0) =~= v@);
    while i < v.len()
        invariant
            i <= v@.len(),
            total == utf8_len(v@),
            byte_idx == utf8_len(v@.take(i as int)),
            seen == utf16_len_of(v@.take(i as int)),
            seen <= off || i == 0,
            utf16_to_byte(v@, off as int) == byte_idx + utf16_to_byte(
                v@.skip(i as int),
                off - seen,
            ),
        decreases v@.len() - i,
    {
        let c = v[i];
        let ghost rest = v@.skip(i as int);
        assert(rest[0] == c);
        assert(rest.drop_first() =~= v@.skip(i + 1));
        if seen >= off {
            return (i, byte_idx);
        }
        proof {
            lemma_prefix_lens(v@, i as int);
        }
        let next = seen + char_utf16_width(c);
        let w = char_utf8_width(c);
        if off < next {
            return (i + 1, byte_idx + w);
        }
        seen = next;
        byte_idx = byte_idx + w;
        i += 1;
    }
    assert(v@.take(v@.len() as int) =~= v@);
    (i, byte_idx)
}

/// The byte index in `text` of the UTF-16 position `utf16_offset`.
pub fn utf16_offset_to_byte_index(text: &str, utf16_offset: usize) -> (b: usize)
    ensures
        b == utf16_to_byte(text@, utf16_offset as int),
        is_boundary(text@, b as int),
{
    let v = chars_of(text);
    let total = byte_length(text);
    let (k, b) = utf16_offset_to_position(v.as_slice(), total, utf16_offset);
    assert(utf8_len(text@.take(k as int)) == b as int);
    b
}

/// The number of characters of `v` that the first `b` bytes hold.
pub fn chars_in_bytes(v: &[char], b: usize) -> (k: usize)
    requires
        is_boundary(v@, b as int),
    ensures
        k <= v@.len(),
        utf8_len(v@.take(k as int)) == b,
        k == chars_before(v@, b as int),
{
    let ghost target = chars_before(v@, b as int);
    let mut k: usize = 0;
    let mut acc: usize = 0;
    assert(v@.take(0) =~= Seq::<char>::empty());
    while acc < b
        invariant
            k <= target <= v@.len(),
            utf8_len(v@.take(target)) == b,
            acc == utf8_len(v@.take(k as int)),
        decreases target - k,
    {
        proof {
            assert(k < target);
            lemma_prefix_lens(v@, k as int);
            if k + 1 < target {
                lemma_prefix_bytes_strict(v@, k + 1, target);
            }
        }
        acc = acc + char_utf8_width(v[k]);
        k += 1;
    }
    proof {
        if k < target {
            lemma_prefix_bytes_strict(v@, k as int, target);
        }
        lemma_chars_before(v@, b as int, k as int);
    }
    k
}

/// `b` clamped to the byte length of `s`.
pub open spec fn clamp_bytes(s: Seq<char>, b: int) -> int {
    if b < utf8_len(s) {
        b
    } else {
        utf8_len(s) as int
    }
}

/// The characters of `s` before byte `min(b, len)`.
pub open spec fn byte_prefix(s: Seq<char>, b: int) -> Seq<char> {
    s.take(chars_before(s, clamp_bytes(s, b)))
}

/// The raw UTF-16 cursor for a cursor `visible_utf16_offset` counted in the
/// visible part of a line that hides its first `prefix_len` bytes.
pub fn visible_cursor_to_raw_cursor(prefix_len: usize, text: &str, visible_utf16_offset: usize) -> (r:
    usize)
    requires
        is_boundary(text@, clamp_bytes(text@, prefix_len as int)),
        utf16_len_of(byte_prefix(text@, prefix_len as int)) + visible_utf16_offset
            <= usize::MAX,
    ensures
        r == utf16_len_of(byte_prefix(text@, prefix_len as int)) + visible_utf16_offset,
{
    let v = chars_of(text);
    let total = byte_length(text);
    let m = if prefix_len < total {
        prefix_len
    } else {
        total
    };
    let k = chars_in_bytes(v.as_slice(), m);
    let prefix = string_of_range(v.as_slice(), 0, k);
    assert(prefix@ =~= v@.take(k as int));
    utf16_len(prefix.as_str()) + visible_utf16_offset
}

/// The new raw text of a line that hides its first `prefix_len` bytes once its
/// visible part is edited to `visible_text`: the hidden prefix is kept.
pub open spec fn preserve_prefix_spec(prefix_len: int, previous: Seq<char>, visible: Seq<char>) -> Seq<
    char,
> {
    if prefix_len > 0 {
        byte_prefix(previous, prefix_len) + visible
    } else {
        visible
    }
}

/// `visible_text` behind the hidden prefix that `previous_text` had.
pub fn preserve_hidden_prefix(prefix_len: usize, previous_text: &str, visible_text: &str) -> (s:
    String)
    requires
        prefix_len > 0 ==> is_boundary(
            previous_text@,
            clamp_bytes(previous_text@, prefix_len as int),
        ),
    ensures
        s@ == preserve_prefix_spec(prefix_len as int, previous_text@, visible_text@),
{
    if prefix_len > 0 {
        let v = chars_of(previous_text);
        let total = byte_length(previous_text);
        let m = if prefix_len < total {
            prefix_len
        } else {
            total
        };
        let k = chars_in_bytes(v.as_slice(), m);
        let mut s = string_of_range(v.as_slice(), 0, k);
        assert(s@ =~= v@.take(k as int));
        s.append(visible_text);
        s
    } else {
        String::from_str(visible_text)
    }
}


/// Where UTF-16 offset `off` falls among consecutive text pieces of the given
/// UTF-16 lengths: the first piece it reaches (its end counts), and the offset
/// within that piece.
pub open spec fn locate_spec(lens: Seq<usize>, off: int) -> Option<(int, int)>
    decreases lens.len(),
{
    if lens.len() == 0 {
        None
    } else if off <= lens[0] {
        Some((0, off))
    } else {
        match locate_spec(lens.drop_first(), off - lens[0]) {
            Some((i, o)) => Some((i + 1, o)),
            None => None,
        }
    }
}

/// The text piece (by index) and offset within it for the UTF-16 offset `offset`,
/// when the pieces in document order have the UTF-16 lengths `lens`.
pub fn locate_offset(lens: &[usize], offset: usize) -> (r: Option<(usize, usize)>)
    ensures
        match r {
            Some((i, o)) => locate_spec(lens@, offset as int) == Some((i as int, o as int)),
            None => locate_spec(lens@, offset as int) is None,
        },
{
    let mut remaining = offset;
    let mut i: usize = 0;
    assert(lens@.skip(0) =~= lens@);
    while i < lens.len()
        invariant
            i <= lens@.len(),
            remaining <= offset,
            locate_spec(lens@, offset as int) == match locate_spec(lens@.skip(i as int), remaining as int) {
                Some((j, o)) => Some((j + i, o)),
                None => None,
            },
        decreases lens@.len() - i,
    {
        assert(lens@.skip(i as int).drop_first() =~= lens@.skip(i + 1));
        assert(lens@.skip(i as int)[0] == lens@[i as int]);
        if remaining <= lens[i] {
            return Some((i, remaining));
        }
        remaining = remaining - lens[i];
        i += 1;
    }
    None
}

} // verus!
