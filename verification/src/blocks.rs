//! The document as a list of line blocks: splitting text into blocks, joining
//! them back, and the editor state that owns them.

use vstd::prelude::*;
use std::collections::HashSet;
use crate::text::{byte_length, chars_of, lemma_utf8_len_concat, lemma_utf8_len_single, push_one, utf8_len};

verus! {

/// One line of the document, with an id that stays with it while it is edited.
#[derive(Debug, PartialEq)]
pub struct TextBlock {
    pub id: usize,
    pub text: String,
}

/// The mathematical content of a [`TextBlock`].
pub struct BlockModel {
    pub id: usize,
    pub text: Seq<char>,
}

impl View for TextBlock {
    type V = BlockModel;

    open spec fn view(&self) -> BlockModel {
        BlockModel { id: self.id, text: self.text@ }
    }
}

/// The contents of a list of blocks.
pub open spec fn model_of(blocks: Seq<TextBlock>) -> Seq<BlockModel> {
    blocks.map_values(|b: TextBlock| b@)
}

impl Clone for TextBlock {
    fn clone(&self) -> (r: Self)
        ensures
            r == *self,
    {
        TextBlock { id: self.id, text: self.text.clone() }
    }
}

/// The zero-width space, which the editor never keeps in a line.
pub open spec fn zero_width_space() -> char {
    '\u{200b}'
}

/// The pieces of `s` between `'\n'` separators (one more than there are separators).
pub open spec fn split_lines(s: Seq<char>) -> Seq<Seq<char>>
    decreases s.len(),
{
    if s.len() == 0 {
        seq![Seq::<char>::empty()]
    } else {
        let rest = split_lines(s.drop_last());
        if s.last() == '\n' {
            rest.push(Seq::<char>::empty())
        } else {
            rest.update(rest.len() - 1, rest.last().push(s.last()))
        }
    }
}

/// `s` without the run of `c` at its end.
pub open spec fn trim_end_char(s: Seq<char>, c: char) -> Seq<char>
    decreases s.len(),
{
    if s.len() > 0 && s.last() == c {
        trim_end_char(s.drop_last(), c)
    } else {
        s
    }
}

/// `s` without any occurrence of `c`.
pub open spec fn remove_char(s: Seq<char>, c: char) -> Seq<char>
    decreases s.len(),
{
    if s.len() == 0 {
        s
    } else {
        remove_char(s.drop_last(), c) + if s.last() == c {
            Seq::<char>::empty()
        } else {
            seq![s.last()]
        }
    }
}

/// A raw line as the editor keeps it: trailing carriage returns dropped, then
/// every zero-width space removed.
pub open spec fn clean_line(l: Seq<char>) -> Seq<char> {
    remove_char(trim_end_char(l, '\r'), zero_width_space())
}

/// The lines of `list` joined by `'\n'`.
pub open spec fn join_lines(list: Seq<Seq<char>>) -> Seq<char>
    decreases list.len(),
{
    if list.len() == 0 {
        seq![]
    } else if list.len() == 1 {
        list[0]
    } else {
        join_lines(list.drop_last()).push('\n') + list.last()
    }
}

/// The texts of `blocks`, in order.
pub open spec fn texts_of(blocks: Seq<BlockModel>) -> Seq<Seq<char>> {
    blocks.map_values(|b: BlockModel| b.text)
}

/// The blocks that `content` is split into: one per line, numbered from 0.
pub open spec fn parsed_blocks_spec(content: Seq<char>, blocks: Seq<BlockModel>) -> bool {
    let lines = split_lines(content);
    &&& blocks.len() == lines.len()
    &&& forall|i: int|
        0 <= i < blocks.len() ==> (#[trigger] blocks[i]).id == i && blocks[i].text == clean_line(
            lines[i],
        )
}

/// Whether `k` is the first position of a block with id `id`.
pub open spec fn is_first_with_id(blocks: Seq<BlockModel>, id: usize, k: int) -> bool {
    &&& 0 <= k < blocks.len()
    &&& blocks[k].id == id
    &&& forall|j: int| 0 <= j < k ==> (#[trigger] blocks[j]).id != id
}

/// The position of the first block with id `id`, if any.
pub open spec fn first_index(blocks: Seq<BlockModel>, id: usize) -> Option<int> {
    if exists|k: int| is_first_with_id(blocks, id, k) {
        Some(choose|k: int| is_first_with_id(blocks, id, k))
    } else {
        None
    }
}

pub proof fn lemma_first_unique(blocks: Seq<BlockModel>, id: usize, k: int)
    requires
        is_first_with_id(blocks, id, k),
    ensures
        first_index(blocks, id) == Some(k),
{
    let c = choose|c: int| is_first_with_id(blocks, id, c);
    if c < k {
        assert(blocks[c].id != id);
    } else if k < c {
        assert(blocks[k].id != id);
    }
}

/// Position of the first block with id `id`.
pub fn position_of(blocks: &[TextBlock], id: usize) -> (r: Option<usize>)
    ensures
        match r {
            Some(k) => first_index(model_of(blocks@), id) == Some(k as int) && k < blocks@.len(),
            None => first_index(model_of(blocks@), id) is None,
        },
{
    let mut i: usize = 0;
    while i < blocks.len()
        invariant
            i <= blocks@.len(),
            forall|j: int| 0 <= j < i ==> (#[trigger] blocks@[j]).id != id,
        decreases blocks@.len() - i,
    {
        if blocks[i].id == id {
            proof {
                lemma_first_unique(model_of(blocks@), id, i as int);
            }
            return Some(i);
        }
        i += 1;
    }
    assert(!exists|k: int| is_first_with_id(model_of(blocks@), id, k));
    None
}

/// The text of the first block with id `id`, or `""` when there is none.
pub open spec fn block_text_spec(blocks: Seq<BlockModel>, id: usize) -> Seq<char> {
    match first_index(blocks, id) {
        Some(k) => blocks[k].text,
        None => Seq::<char>::empty(),
    }
}

/// The text of the block with id `id`, or an empty string.
pub fn current_block_text(blocks: &[TextBlock], id: usize) -> (s: String)
    ensures
        s@ == block_text_spec(model_of(blocks@), id),
{
    match position_of(blocks, id) {
        Some(k) => blocks[k].text.clone(),
        None => String::new(),
    }
}


/// `l` as the editor keeps it (see [`clean_line`]).
fn clean_line_chars(l: &[char]) -> (s: String)
    ensures
        s@ == clean_line(l@),
{
    let mut end = l.len();
    assert(l@.take(end as int) =~= l@);
    while end > 0 && l[end - 1] == '\r'
        invariant
            end <= l@.len(),
            trim_end_char(l@, '\r') == trim_end_char(l@.take(end as int), '\r'),
        decreases end,
    {
        assert(l@.take(end as int).drop_last() =~= l@.take(end - 1));
        end -= 1;
    }
    let ghost t = l@.take(end as int);
    let mut s = String::new();
    let mut i: usize = 0;
    while i < end
        invariant
            i <= end <= l@.len(),
            t == l@.take(end as int),
            s@ == remove_char(t.take(i as int), zero_width_space()),
        decreases end - i,
    {
        let c = l[i];
        assert(t.take(i + 1).drop_last() =~= t.take(i as int));
        assert(t.take(i + 1).last() == c);
        if c != '\u{200b}' {
            push_one(&mut s, c);
            assert(s@ =~= remove_char(t.take(i + 1), zero_width_space()));
        } else {
            assert(s@ =~= remove_char(t.take(i + 1), zero_width_space()));
        }
        i += 1;
    }
    assert(t.take(end as int) =~= t);
    s
}

/// Splits `content` into one block per line, numbered from 0.
pub fn parse_blocks(content: &str) -> (blocks: Vec<TextBlock>)
    ensures
        parsed_blocks_spec(content@, model_of(blocks@)),
        blocks@.len() >= 1,
{
    let v = chars_of(content);
    let mut blocks: Vec<TextBlock> = Vec::new();
    let mut cur: Vec<char> = Vec::new();
    let ghost mut raw: Seq<Seq<char>> = Seq::empty();
    let mut i: usize = 0;
    assert(v@.take(0) =~= Seq::<char>::empty());
    while i < v.len()
        invariant
            i <= v@.len(),
            split_lines(v@.take(i as int)) == raw.push(cur@),
            blocks@.len() == raw.len(),
            forall|j: int|
                0 <= j < blocks@.len() ==> (#[trigger] blocks@[j]).id == j && blocks@[j].text@
                    == clean_line(raw[j]),
        decreases v@.len() - i,
    {
        let c = v[i];
        assert(v@.take(i + 1).drop_last() =~= v@.take(i as int));
        assert(v@.take(i + 1).last() == c);
        if c == '\n' {
            let text = clean_line_chars(cur.as_slice());
            let id = blocks.len();
            blocks.push(TextBlock { id, text });
            proof {
                raw = raw.push(cur@);
            }
            cur = Vec::new();
            assert(split_lines(v@.take(i + 1)) =~= raw.push(cur@));
        } else {
            let ghost old_cur = cur@;
            cur.push(c);
            assert(split_lines(v@.take(i + 1)) =~= raw.push(cur@));
        }
        i += 1;
    }
    let text = clean_line_chars(cur.as_slice());
    let id = blocks.len();
    blocks.push(TextBlock { id, text });
    proof {
        raw = raw.push(cur@);
        assert(v@.take(v@.len() as int) =~= v@);
    }
    blocks
}

/// The texts of `blocks` joined by newlines.
pub fn join_blocks(blocks: &[TextBlock]) -> (s: String)
    ensures
        s@ == join_lines(texts_of(model_of(blocks@))),
{
    let mut s = String::new();
    let mut i: usize = 0;
    while i < blocks.len()
        invariant
            i <= blocks@.len(),
            s@ == join_lines(texts_of(model_of(blocks@)).take(i as int)),
        decreases blocks@.len() - i,
    {
        let ghost before = texts_of(model_of(blocks@)).take(i as int);
        let ghost after = texts_of(model_of(blocks@)).take(i + 1);
        assert(after.drop_last() =~= before);
        assert(after.last() == blocks@[i as int].text@);
        if i > 0 {
            push_one(&mut s, '\n');
        }
        s.append(blocks[i].text.as_str());
        proof {
            if i == 0 {
                assert(s@ =~= join_lines(after));
            }
        }
        i += 1;
    }
    assert(texts_of(model_of(blocks@)).take(blocks@.len() as int) =~= texts_of(model_of(blocks@)));
    s
}

/// Joining the lines of `s` gives `s` back.
pub proof fn lemma_join_split(s: Seq<char>)
    ensures
        join_lines(split_lines(s)) == s,
        split_lines(s).len() >= 1,
    decreases s.len(),
{
    if s.len() > 0 {
        let p = s.drop_last();
        lemma_join_split(p);
        let rest = split_lines(p);
        if s.last() == '\n' {
            let l = rest.push(Seq::<char>::empty());
            assert(l.drop_last() =~= rest);
            assert(join_lines(l) =~= p.push('\n'));
            assert(p.push('\n') =~= s);
        } else {
            let l = rest.update(rest.len() - 1, rest.last().push(s.last()));
            if rest.len() == 1 {
                assert(join_lines(rest) == rest[0]);
                assert(join_lines(l) =~= s);
            } else {
                assert(l.drop_last() =~= rest.drop_last());
                assert(join_lines(rest) == join_lines(rest.drop_last()).push('\n') + rest.last());
                assert(l.last() == rest.last().push(s.last()));
                assert(join_lines(l) == join_lines(l.drop_last()).push('\n') + l.last());
                assert(join_lines(l) =~= join_lines(rest).push(s.last()));
                assert(p.push(s.last()) =~= s);
            }
        }
    } else {
        assert(join_lines(split_lines(s)) =~= s);
    }
}


/// The editor's model of the document: its line blocks, the id the next new
/// block gets, the lines pinned to raw source view, and the line shown raw
/// because it has focus.
pub struct EditorState {
    pub blocks: Vec<TextBlock>,
    pub next_id: usize,
    pub raw_lines: HashSet<usize>,
    pub active_raw_line: Option<usize>,
}

/// Block ids are distinct and all below `next_id`, and there is at least one block.
pub open spec fn blocks_wf(blocks: Seq<BlockModel>, next_id: usize) -> bool {
    &&& blocks.len() >= 1
    &&& forall|i: int| 0 <= i < blocks.len() ==> (#[trigger] blocks[i]).id < next_id
    &&& forall|i: int, j: int|
        0 <= i < blocks.len() && 0 <= j < blocks.len() && i != j ==> (#[trigger] blocks[i]).id
            != (#[trigger] blocks[j]).id
}

impl EditorState {
    pub open spec fn wf(&self) -> bool {
        blocks_wf(model_of(self.blocks@), self.next_id)
    }

    /// The state of a freshly loaded document.
    pub open spec fn loaded_from(&self, content: Seq<char>) -> bool {
        &&& parsed_blocks_spec(content, model_of(self.blocks@))
        &&& self.next_id == self.blocks@.len()
        &&& self.raw_lines@ == Set::<usize>::empty()
        &&& self.active_raw_line is None
    }

    /// The document text: the blocks joined by newlines.
    pub open spec fn document(&self) -> Seq<char> {
        join_lines(texts_of(model_of(self.blocks@)))
    }

    /// An editor state holding `content`, one block per line.
    pub fn new(content: &str) -> (st: Self)
        ensures
            st.loaded_from(content@),
            st.wf(),
    {
        let blocks = parse_blocks(content);
        let next_id = blocks.len();
        EditorState { blocks, next_id, raw_lines: HashSet::new(), active_raw_line: None }
    }

    /// Replaces the whole document with `content` and forgets raw-view state.
    pub fn sync_from_content(&mut self, content: &str)
        ensures
            final(self).loaded_from(content@),
            final(self).wf(),
    {
        self.blocks = parse_blocks(content);
        self.next_id = self.blocks.len();
        self.raw_lines = HashSet::new();
        self.active_raw_line = None;
    }

    /// The document text: the blocks joined by newlines.
    pub fn to_string(&self) -> (s: String)
        ensures
            s@ == self.document(),
    {
        join_blocks(self.blocks.as_slice())
    }
}


/// Loading a document and writing it back gives the same text, when no line of
/// it ends in a carriage return or holds a zero-width space.
pub proof fn law_load_then_write_roundtrip(content: Seq<char>, st: EditorState)
    requires
        st.loaded_from(content),
        forall|i: int|
            0 <= i < split_lines(content).len() ==> clean_line(#[trigger] split_lines(content)[i])
                == split_lines(content)[i],
    ensures
        st.document() == content,
{
    lemma_join_split(content);
    assert(texts_of(model_of(st.blocks@)) =~= split_lines(content));
}


/// Joining two non-empty lists of lines puts one newline between their joins.
pub proof fn lemma_join_concat(a: Seq<Seq<char>>, b: Seq<Seq<char>>)
    requires
        a.len() >= 1,
        b.len() >= 1,
    ensures
        join_lines(a + b) == join_lines(a).push('\n') + join_lines(b),
    decreases b.len(),
{
    if b.len() == 1 {
        assert((a + b).drop_last() =~= a);
        assert((a + b).last() == b[0]);
    } else {
        lemma_join_concat(a, b.drop_last());
        assert((a + b).drop_last() =~= a + b.drop_last());
        assert((a + b).last() == b.last());
        assert(join_lines(a + b) =~= join_lines(a).push('\n') + join_lines(b));
    }
}

/// The byte offset in the joined document at which line `pos` starts.
pub open spec fn line_start(texts: Seq<Seq<char>>, pos: int) -> nat {
    if pos <= 0 {
        0
    } else {
        utf8_len(join_lines(texts.take(pos))) + 1
    }
}

/// The document around line `k`: the lines above it, a newline, the line, a
/// newline, and the lines below it.
pub proof fn lemma_join_around(texts: Seq<Seq<char>>, k: int)
    requires
        0 <= k < texts.len(),
    ensures
        join_lines(texts) == (if k > 0 {
            join_lines(texts.take(k)).push('\n')
        } else {
            Seq::<char>::empty()
        }) + texts[k] + (if k + 1 < texts.len() {
            seq!['\n'] + join_lines(texts.skip(k + 1))
        } else {
            Seq::<char>::empty()
        }),
{
    let mid = seq![texts[k]];
    assert(join_lines(mid) == texts[k]);
    if k > 0 {
        if k + 1 < texts.len() {
            assert(texts =~= texts.take(k) + mid + texts.skip(k + 1));
            lemma_join_concat(texts.take(k), mid);
            lemma_join_concat(texts.take(k) + mid, texts.skip(k + 1));
            assert(join_lines(texts) =~= join_lines(texts.take(k)).push('\n') + texts[k] + (seq![
                '\n',
            ] + join_lines(texts.skip(k + 1))));
        } else {
            assert(texts =~= texts.take(k) + mid);
            lemma_join_concat(texts.take(k), mid);
            assert(join_lines(texts) =~= join_lines(texts.take(k)).push('\n') + texts[k]
                + Seq::<char>::empty());
        }
    } else {
        if k + 1 < texts.len() {
            assert(texts =~= mid + texts.skip(k + 1));
            lemma_join_concat(mid, texts.skip(k + 1));
            assert(join_lines(texts) =~= Seq::<char>::empty() + texts[k] + (seq!['\n']
                + join_lines(texts.skip(k + 1))));
        } else {
            assert(texts =~= mid);
            assert(join_lines(texts) =~= Seq::<char>::empty() + texts[k] + Seq::<char>::empty());
        }
    }
}

/// Line `k` starts at `line_start` and ends within the document.
pub proof fn lemma_line_start_bound(texts: Seq<Seq<char>>, k: int)
    requires
        0 <= k < texts.len(),
    ensures
        line_start(texts, k) + utf8_len(texts[k]) <= utf8_len(join_lines(texts)),
{
    lemma_join_around(texts, k);
    let pre = if k > 0 {
        join_lines(texts.take(k)).push('\n')
    } else {
        Seq::<char>::empty()
    };
    let post = if k + 1 < texts.len() {
        seq!['\n'] + join_lines(texts.skip(k + 1))
    } else {
        Seq::<char>::empty()
    };
    lemma_utf8_len_concat(pre, texts[k]);
    lemma_utf8_len_concat(pre + texts[k], post);
    if k > 0 {
        lemma_utf8_len_concat(join_lines(texts.take(k)), seq!['\n']);
        assert(join_lines(texts.take(k)) + seq!['\n'] =~= join_lines(texts.take(k)).push('\n'));
        lemma_utf8_len_single('\n');
    } else {
        assert(utf8_len(Seq::<char>::empty()) == 0);
    }
}

/// Sum of the byte lengths of the lines before `pos`, one newline each.
pub fn line_start_exec(blocks: &[TextBlock], pos: usize) -> (n: usize)
    requires
        pos < blocks@.len(),
        utf8_len(join_lines(texts_of(model_of(blocks@)))) <= usize::MAX,
    ensures
        n == line_start(texts_of(model_of(blocks@)), pos as int),
{
    let ghost texts = texts_of(model_of(blocks@));
    let mut n: usize = 0;
    let mut j: usize = 0;
    while j < pos
        invariant
            j <= pos < blocks@.len(),
            texts == texts_of(model_of(blocks@)),
            utf8_len(join_lines(texts)) <= usize::MAX,
            n == line_start(texts, j as int),
        decreases pos - j,
    {
        proof {
            lemma_line_start_bound(texts, j as int);
            lemma_line_start_bound(texts, j + 1);
            assert(texts.take(j + 1).drop_last() =~= texts.take(j as int));
            assert(texts.take(j + 1).last() == texts[j as int]);
            if j > 0 {
                lemma_utf8_len_concat(join_lines(texts.take(j as int)).push('\n'), texts[j as int]);
                lemma_utf8_len_concat(join_lines(texts.take(j as int)), seq!['\n']);
                assert(join_lines(texts.take(j as int)) + seq!['\n'] =~= join_lines(
                    texts.take(j as int),
                ).push('\n'));
                lemma_utf8_len_single('\n');
            } else {
                assert(texts.take(1) =~= seq![texts[0]]);
            }
        }
        let len = byte_length(blocks[j].text.as_str());
        n = n + len + 1;
        j += 1;
    }
    n
}

} // verus!
