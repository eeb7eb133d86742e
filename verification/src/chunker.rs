//! Splitting documents into chunks for retrieval.
//!
//! Markdown is first split into sections at its headings; a section that is
//! too long, and any other text, is split at blank lines. A paragraph that is
//! too long is split at its line ends, a line that is too long at its spaces,
//! and a word that is too long is cut by length. Neighbouring chunks share some
//! characters. All lengths are in Unicode characters.

use crate::hash;
use crate::text;
use vstd::prelude::*;

verus! {

broadcast use vstd::string::group_string_axioms;

/// Chunk size used unless configured.
pub const DEFAULT_CHUNK_SIZE: usize = 512;

/// Overlap between neighbouring chunks used unless configured.
pub const DEFAULT_CHUNK_OVERLAP: usize = 50;

/// Smallest chunk size that can be configured.
pub const MIN_CHUNK_SIZE: usize = 64;

/// Largest chunk size that can be configured.
pub const MAX_CHUNK_SIZE: usize = 8192;

/// Environment variable that sets the chunk size.
pub const CHUNK_SIZE_ENV: &'static str = "SEMDOC_CHUNK_SIZE";

/// Environment variable that sets the overlap.
pub const CHUNK_OVERLAP_ENV: &'static str = "SEMDOC_CHUNK_OVERLAP";

// ---------------------------------------------------------------------------
// Settings
// ---------------------------------------------------------------------------

/// `n` brought into the range from `low` to `high`.
pub open spec fn clamped(n: nat, low: nat, high: nat) -> nat {
    if n < low {
        low
    } else if n > high {
        high
    } else {
        n
    }
}

/// The number that an optional setting writes, if it writes one.
pub open spec fn setting(value: Option<Seq<char>>) -> Option<nat> {
    match value {
        Some(s) => text::natural_upto(s, usize::MAX as nat),
        None => None,
    }
}

/// The chunk size that the setting asks for, clamped to the allowed range; the
/// default where there is none.
pub open spec fn chunk_size_of(value: Option<Seq<char>>) -> nat {
    match setting(value) {
        Some(n) => clamped(n, MIN_CHUNK_SIZE as nat, MAX_CHUNK_SIZE as nat),
        None => DEFAULT_CHUNK_SIZE as nat,
    }
}

/// The overlap that the setting asks for, clamped to half the chunk size; the
/// default, so clamped, where there is none.
pub open spec fn overlap_of(chunk_size: nat, value: Option<Seq<char>>) -> nat {
    match setting(value) {
        Some(n) => clamped(n, 0, chunk_size / 2),
        None => clamped(DEFAULT_CHUNK_OVERLAP as nat, 0, chunk_size / 2),
    }
}

/// The view of an optional text.
pub open spec fn opt_text(s: Option<&str>) -> Option<Seq<char>> {
    match s {
        Some(t) => Some(t@),
        None => None,
    }
}

/// The number that an optional setting writes.
fn read_setting(value: Option<&str>) -> (r: Option<usize>)
    ensures
        (match r {
            Some(n) => setting(opt_text(value)) == Some(n as nat),
            None => setting(opt_text(value)) is None,
        }),
{
    match value {
        Some(s) => match text::parse_upto(s, usize::MAX as u64) {
            Some(n) => Some(n as usize),
            None => None,
        },
        None => None,
    }
}

/// The chunk size for the given value of `SEMDOC_CHUNK_SIZE`, clamped to
/// `[64, 8192]`.
pub fn resolve_chunk_size(value: Option<&str>) -> (r: usize)
    ensures
        r == chunk_size_of(opt_text(value)),
        MIN_CHUNK_SIZE <= r <= MAX_CHUNK_SIZE,
{
    match read_setting(value) {
        Some(n) => if n < MIN_CHUNK_SIZE {
            MIN_CHUNK_SIZE
        } else if n > MAX_CHUNK_SIZE {
            MAX_CHUNK_SIZE
        } else {
            n
        },
        None => DEFAULT_CHUNK_SIZE,
    }
}

/// The overlap for the given value of `SEMDOC_CHUNK_OVERLAP`, clamped to
/// `[0, chunk_size / 2]`.
pub fn resolve_chunk_overlap(chunk_size: usize, value: Option<&str>) -> (r: usize)
    ensures
        r == overlap_of(chunk_size as nat, opt_text(value)),
        r <= chunk_size / 2,
{
    let max: usize = chunk_size / 2;
    let n: usize = match read_setting(value) {
        Some(n) => n,
        None => DEFAULT_CHUNK_OVERLAP,
    };
    if n > max {
        max
    } else {
        n
    }
}

// ---------------------------------------------------------------------------
// Chunks
// ---------------------------------------------------------------------------

/// One chunk of a document.
#[derive(Debug, PartialEq, Eq)]
pub struct Chunk {
    pub text: String,
    pub parent_doc_id: String,
    /// Position among the chunks of the document, from zero.
    pub chunk_index: u32,
    /// A function of the parent, the index and the text, so that the same
    /// document gives the same ids again.
    pub chunk_id: String,
}

/// The model of a chunk.
pub struct ChunkV {
    pub text: Seq<char>,
    pub parent_doc_id: Seq<char>,
    pub chunk_index: u32,
    pub chunk_id: Seq<char>,
}

impl View for Chunk {
    type V = ChunkV;

    open spec fn view(&self) -> ChunkV {
        ChunkV {
            text: self.text@,
            parent_doc_id: self.parent_doc_id@,
            chunk_index: self.chunk_index,
            chunk_id: self.chunk_id@,
        }
    }
}

/// The index of a chunk as ten digits.
pub open spec fn index_text(index: u32) -> Seq<char> {
    text::zero_padded(text::decimal(index as nat), 10)
}

/// The text whose hash is the id of a chunk: parent, index as ten digits and
/// text, with colons between them.
pub open spec fn id_input(parent: Seq<char>, index: u32, body: Seq<char>) -> Seq<char> {
    parent + ":"@ + index_text(index) + ":"@ + body
}

/// The id of a chunk.
pub open spec fn chunk_id(parent: Seq<char>, index: u32, body: Seq<char>) -> Seq<char> {
    hash::blake3_hex(id_input(parent, index, body))
}

impl Chunk {
    /// The hash of parent id, index and text in hexadecimal, with the index
    /// padded to a fixed width.
    pub fn compute_id(parent_doc_id: &str, chunk_index: u32, text: &str) -> (r: String)
        ensures
            r@ == chunk_id(parent_doc_id@, chunk_index, text@),
            r@.len() == 64,
            hash::all_hex(r@),
    {
        let digits: Vec<char> = text::radix_chars(chunk_index as u128, 10);
        let index: String = text::pad_zeros(&digits, 10);
        let input: String = text::cat5(parent_doc_id, ":", index.as_str(), ":", text);
        hash::content_hash(input.as_str())
    }
}

// ---------------------------------------------------------------------------
// Lines and sections
// ---------------------------------------------------------------------------

/// `line` without a carriage return at its end.
pub open spec fn chop_return(line: Seq<char>) -> Seq<char> {
    if line.len() > 0 && line.last() == '\r' {
        line.drop_last()
    } else {
        line
    }
}

/// The lines of `s` from `start` on, of which the characters up to `i` are
/// known to hold no line feed.
pub open spec fn lines_from(s: Seq<char>, start: int, i: int) -> Seq<Seq<char>>
    decreases s.len() - i,
{
    if i < 0 || i >= s.len() {
        if 0 <= start < s.len() {
            seq![s.subrange(start, s.len() as int)]
        } else {
            Seq::empty()
        }
    } else if s[i] == '\n' {
        seq![chop_return(s.subrange(start, i))] + lines_from(s, i + 1, i + 1)
    } else {
        lines_from(s, start, i + 1)
    }
}

/// The lines of a text: each ends with a line feed, or a carriage return and a
/// line feed, that is not part of it; the last may have no end.
pub open spec fn lines_of(s: Seq<char>) -> Seq<Seq<char>> {
    lines_from(s, 0, 0)
}

/// Whether a line is a heading of the second, third or fourth level.
pub open spec fn is_heading(line: Seq<char>) -> bool {
    ||| "## "@.is_prefix_of(line)
    ||| "### "@.is_prefix_of(line)
    ||| "#### "@.is_prefix_of(line)
}

/// The sections finished so far and the one being read.
pub struct Reading {
    pub done: Seq<Seq<char>>,
    pub current: Seq<char>,
}

/// Reads one more line: a heading ends the current section unless that is
/// blank.
pub open spec fn read_line(r: Reading, line: Seq<char>) -> Reading {
    if is_heading(line) && !text::is_blank(r.current) {
        Reading { done: r.done.push(r.current), current: line.push('\n') }
    } else {
        Reading { done: r.done, current: (r.current + line).push('\n') }
    }
}

/// Reads the first `n` lines.
pub open spec fn read_lines(lines: Seq<Seq<char>>, n: nat) -> Reading
    decreases n,
{
    if n == 0 || n > lines.len() {
        Reading { done: Seq::empty(), current: Seq::empty() }
    } else {
        read_line(read_lines(lines, (n - 1) as nat), lines[n - 1])
    }
}

/// The sections of a markdown text. Each starts with its heading; what stands
/// before the first heading is a section of its own.
pub open spec fn sections_of(s: Seq<char>) -> Seq<Seq<char>> {
    let lines = lines_of(s);
    let r = read_lines(lines, lines.len());
    if text::is_blank(r.current) {
        r.done
    } else {
        r.done.push(r.current)
    }
}

/// The length below which a section is joined to the next one.
pub open spec fn short_limit(chunk_size: nat) -> nat {
    if chunk_size / 3 > 64 {
        chunk_size / 3
    } else {
        64
    }
}

/// The sections from `i` on, each short one joined to the one after it.
pub open spec fn coalesced(sections: Seq<Seq<char>>, limit: nat, i: int) -> Seq<Seq<char>>
    decreases sections.len() - i,
{
    if i < 0 || i >= sections.len() {
        Seq::empty()
    } else {
        let rest = coalesced(sections, limit, i + 1);
        if sections[i].len() < limit && rest.len() > 0 {
            seq![sections[i] + "\n\n"@ + rest[0]] + rest.drop_first()
        } else {
            seq![sections[i]] + rest
        }
    }
}

// ---------------------------------------------------------------------------
// Splitting at separators and by length
// ---------------------------------------------------------------------------

/// The parts of `s` from `start` on, where none ends before `i`.
pub open spec fn parts_from(s: Seq<char>, sep: Seq<char>, start: int, i: int) -> Seq<Seq<char>>
    decreases s.len() - i,
{
    if i < 0 || i >= s.len() {
        seq![s.subrange(start, s.len() as int)]
    } else if sep.len() > 0 && text::occurs_at(s, sep, i) {
        seq![s.subrange(start, i)] + parts_from(s, sep, i + sep.len(), i + sep.len())
    } else {
        parts_from(s, sep, start, i + 1)
    }
}

/// The parts of a text between the separators in it.
pub open spec fn parts_of(s: Seq<char>, sep: Seq<char>) -> Seq<Seq<char>> {
    parts_from(s, sep, 0, 0)
}

/// The separators, the widest cut last: spaces between words, line feeds
/// between lines, empty lines between paragraphs.
pub open spec fn separator(level: nat) -> Seq<char> {
    if level == 0 {
        " "@
    } else if level == 1 {
        "\n"@
    } else {
        "\n\n"@
    }
}

/// The parts of a text between empty lines.
pub open spec fn paragraphs_of(s: Seq<char>) -> Seq<Seq<char>> {
    parts_of(s, separator(2))
}

/// The last `n` characters of `s`, or all of them.
pub open spec fn tail(s: Seq<char>, n: nat) -> Seq<char> {
    if s.len() <= n {
        s
    } else {
        s.skip(s.len() - n)
    }
}

/// The last `n` characters of the last text, if there is one.
pub open spec fn last_tail(out: Seq<Seq<char>>, n: nat) -> Seq<char> {
    if out.len() == 0 {
        Seq::empty()
    } else {
        tail(out.last(), n)
    }
}

/// `head` and `piece` with `sep` between them, unless `head` is empty.
pub open spec fn linked(head: Seq<char>, piece: Seq<char>, sep: Seq<char>) -> Seq<char> {
    if head.len() == 0 {
        piece
    } else {
        head + sep + piece
    }
}

/// How far the window moves from one cut to the next.
pub open spec fn stride(size: nat, overlap: nat) -> nat {
    if 0 < overlap < size {
        (size - overlap) as nat
    } else if size == 0 {
        1
    } else {
        size
    }
}

/// Where the window that begins at `start` ends.
pub open spec fn window_end(s: Seq<char>, start: int, size: nat) -> int {
    if start + size < s.len() {
        start + size
    } else {
        s.len() as int
    }
}

/// `s` from `start` on, cut into windows of `size` characters that move by
/// `step`; blank ones are left out.
pub open spec fn windows(s: Seq<char>, start: int, size: nat, step: nat) -> Seq<Seq<char>>
    decreases (if start < s.len() { s.len() - start } else { 0 }),
{
    if start < 0 || start >= s.len() || step == 0 {
        Seq::empty()
    } else {
        let end = window_end(s, start, size);
        let w = s.subrange(start, end);
        let this = if text::is_blank(w) {
            Seq::empty()
        } else {
            seq![w]
        };
        if end >= s.len() {
            this
        } else {
            this + windows(s, start + step, size, step)
        }
    }
}

/// The chunks finished so far and the one being filled.
pub struct Filling {
    pub out: Seq<Seq<char>>,
    pub buffer: Seq<char>,
}

/// The chunks once the one being filled is finished; a blank one is dropped.
pub open spec fn flushed(f: Filling) -> Seq<Seq<char>> {
    if text::is_blank(f.buffer) {
        f.out
    } else {
        f.out.push(f.buffer)
    }
}

/// Takes one more part that stood between separators of a level.
///
/// One longer than `size` finishes the buffer and is split further. Any other
/// joins the buffer if both fit in `size`; if not, the buffer is finished and
/// the next one begins with the end of the last chunk.
pub open spec fn absorb(
    f: Filling,
    piece: Seq<char>,
    level: nat,
    size: nat,
    overlap: nat,
) -> Filling
    decreases level, 1nat, 0nat,
{
    let sep = separator(level);
    if piece.len() > size {
        fill(flushed(f), piece, level, size, overlap)
    } else if f.buffer.len() == 0 || f.buffer.len() + sep.len() + piece.len() > size {
        Filling {
            out: flushed(f),
            buffer: linked(last_tail(flushed(f), overlap), piece, sep),
        }
    } else {
        Filling { out: f.out, buffer: linked(f.buffer, piece, sep) }
    }
}

/// Takes the first `n` parts that stood between separators of a level.
pub open spec fn absorb_all(
    out: Seq<Seq<char>>,
    ps: Seq<Seq<char>>,
    n: nat,
    level: nat,
    size: nat,
    overlap: nat,
) -> Filling
    decreases level, 2nat, n,
{
    if n == 0 || n > ps.len() {
        Filling { out, buffer: Seq::empty() }
    } else {
        absorb(
            absorb_all(out, ps, (n - 1) as nat, level, size, overlap),
            ps[n - 1],
            level,
            size,
            overlap,
        )
    }
}

/// Adds a text that is too long for one chunk to the chunks `out`.
///
/// It is split at the widest of the first `levels` separators. Where none is
/// left it is cut into windows, the first of which begins with the end of the
/// chunk before it.
pub open spec fn fill(
    out: Seq<Seq<char>>,
    s: Seq<char>,
    levels: nat,
    size: nat,
    overlap: nat,
) -> Filling
    decreases levels, 0nat, 0nat,
{
    if levels == 0 {
        let all = out + windows(last_tail(out, overlap) + s, 0, size, stride(size, overlap));
        Filling { out: all, buffer: last_tail(all, overlap) }
    } else {
        let ps = parts_of(s, separator((levels - 1) as nat));
        absorb_all(out, ps, ps.len(), (levels - 1) as nat, size, overlap)
    }
}

/// A text split into pieces of about `size` characters.
pub open spec fn split_text(s: Seq<char>, size: nat, overlap: nat) -> Seq<Seq<char>> {
    if size == 0 {
        Seq::empty()
    } else if s.len() <= size {
        seq![s]
    } else {
        flushed(fill(Seq::empty(), s, 3, size, overlap))
    }
}

/// The texts that are not blank.
pub open spec fn without_blank(v: Seq<Seq<char>>) -> Seq<Seq<char>>
    decreases v.len(),
{
    if v.len() == 0 {
        v
    } else if text::is_blank(v.last()) {
        without_blank(v.drop_last())
    } else {
        without_blank(v.drop_last()).push(v.last())
    }
}

/// The chunk texts of the first `n` sections.
pub open spec fn section_pieces(
    sections: Seq<Seq<char>>,
    n: nat,
    size: nat,
    overlap: nat,
) -> Seq<Seq<char>>
    decreases n,
{
    if n == 0 || n > sections.len() {
        Seq::empty()
    } else {
        let s = sections[n - 1];
        section_pieces(sections, (n - 1) as nat, size, overlap) + (if s.len() <= size {
            seq![s]
        } else {
            without_blank(split_text(s, size, overlap))
        })
    }
}

/// The chunk texts of a markdown text.
pub open spec fn markdown_pieces(s: Seq<char>, size: nat, overlap: nat) -> Seq<Seq<char>> {
    let sections = coalesced(sections_of(s), short_limit(size), 0);
    section_pieces(sections, sections.len(), size, overlap)
}

/// The chunk texts of any other text.
pub open spec fn plain_pieces(s: Seq<char>, size: nat, overlap: nat) -> Seq<Seq<char>> {
    without_blank(split_text(s, size, overlap))
}

/// The chunks with the given texts.
pub open spec fn numbered(pieces: Seq<Seq<char>>, parent: Seq<char>) -> Seq<ChunkV> {
    Seq::new(
        pieces.len(),
        |i: int|
            ChunkV {
                text: pieces[i],
                parent_doc_id: parent,
                chunk_index: i as u32,
                chunk_id: chunk_id(parent, i as u32, pieces[i]),
            },
    )
}

/// The models of a list of chunks.
pub open spec fn chunks(v: Seq<Chunk>) -> Seq<ChunkV> {
    Seq::new(v.len(), |i: int| v[i]@)
}

/// The texts that a list of character rows holds.
pub open spec fn rows(v: Seq<Vec<char>>) -> Seq<Seq<char>> {
    Seq::new(v.len(), |i: int| v[i]@)
}

// ---------------------------------------------------------------------------
// Working on rows of characters
// ---------------------------------------------------------------------------

/// `v[from..to]` as a row of its own.
fn slice(v: &Vec<char>, from: usize, to: usize) -> (r: Vec<char>)
    requires
        from <= to <= v@.len(),
    ensures
        r@ == v@.subrange(from as int, to as int),
{
    let mut r: Vec<char> = Vec::new();
    let mut i: usize = from;
    while i < to
        invariant
            from <= i <= to <= v@.len(),
            r@ == v@.subrange(from as int, i as int),
        decreases to - i,
    {
        r.push(v[i]);
        i = i + 1;
        assert(r@ =~= v@.subrange(from as int, i as int));
    }
    r
}

/// Whether a row holds nothing but white space.
fn blank_row(v: &Vec<char>) -> (r: bool)
    ensures
        r == text::is_blank(v@),
{
    let mut i: usize = 0;
    while i < v.len()
        invariant
            i <= v@.len(),
            forall|j: int| 0 <= j < i ==> text::is_space(#[trigger] v@[j]),
        decreases v@.len() - i,
    {
        if !text::space(v[i]) {
            return false;
        }
        i = i + 1;
    }
    true
}

/// Adds the characters of `v` to `to`.
fn extend(to: &mut Vec<char>, v: &Vec<char>)
    ensures
        final(to)@ == old(to)@ + v@,
{
    let ghost was = to@;
    let mut i: usize = 0;
    assert(was + v@.take(0) =~= was);
    while i < v.len()
        invariant
            i <= v@.len(),
            was == old(to)@,
            to@ == was + v@.take(i as int),
        decreases v@.len() - i,
    {
        to.push(v[i]);
        i = i + 1;
        assert(to@ =~= was + v@.take(i as int));
    }
    assert(v@.take(v@.len() as int) =~= v@);
}

/// `head` and `piece` with `sep` between them, unless `head` is empty.
fn join_rows(head: Vec<char>, piece: &Vec<char>, sep: &Vec<char>) -> (r: Vec<char>)
    ensures
        r@ == linked(head@, piece@, sep@),
{
    let ghost h = head@;
    let mut r: Vec<char> = head;
    if r.len() > 0 {
        extend(&mut r, sep);
    }
    extend(&mut r, piece);
    assert(r@ =~= linked(h, piece@, sep@));
    r
}

/// The last `n` characters of a row, or all of them.
fn row_tail(v: &Vec<char>, n: usize) -> (r: Vec<char>)
    ensures
        r@ == tail(v@, n as nat),
{
    let from: usize = if v.len() <= n {
        0
    } else {
        v.len() - n
    };
    let r: Vec<char> = slice(v, from, v.len());
    assert(r@ =~= tail(v@, n as nat));
    r
}

/// The last `n` characters of the last row, if there is one.
fn last_row_tail(out: &Vec<Vec<char>>, n: usize) -> (r: Vec<char>)
    ensures
        r@ == last_tail(rows(out@), n as nat),
{
    if out.len() == 0 {
        Vec::new()
    } else {
        assert(rows(out@).last() == out@.last()@);
        row_tail(&out[out.len() - 1], n)
    }
}

/// Adds a row to a list of rows.
fn push_row(out: &mut Vec<Vec<char>>, row: Vec<char>)
    ensures
        rows(final(out)@) == rows(old(out)@).push(row@),
{
    let ghost was = rows(out@);
    let ghost r = row@;
    out.push(row);
    assert(rows(out@) =~= was.push(r));
}

/// The separator of a level.
fn separator_row(level: usize) -> (r: Vec<char>)
    ensures
        r@ == separator(level as nat),
        0 < r@.len() <= 2,
{
    proof {
        lemma_separators(level as nat);
    }
    if level == 0 {
        text::chars_of(" ")
    } else if level == 1 {
        text::chars_of("\n")
    } else {
        text::chars_of("\n\n")
    }
}

/// A separator has one or two characters.
pub proof fn lemma_separators(level: nat)
    ensures
        0 < separator(level).len() <= 2,
{
    reveal_strlit(" ");
    reveal_strlit("\n");
    reveal_strlit("\n\n");
}

/// The parts of a text between the separators in it.
fn split_parts(s: &Vec<char>, sep: &Vec<char>) -> (r: Vec<Vec<char>>)
    requires
        sep@.len() > 0,
    ensures
        rows(r@) == parts_of(s@, sep@),
{
    let n: usize = s.len();
    let width: usize = sep.len();
    let mut out: Vec<Vec<char>> = Vec::new();
    let mut start: usize = 0;
    let mut i: usize = 0;
    assert(rows(out@) + parts_from(s@, sep@, 0, 0) =~= parts_of(s@, sep@));
    while i < n
        invariant
            n == s@.len(),
            width == sep@.len(),
            width > 0,
            start <= i <= n,
            rows(out@) + parts_from(s@, sep@, start as int, i as int) == parts_of(s@, sep@),
        decreases n - i,
    {
        let ghost was = rows(out@);
        if text::stands_at(s, sep, i) {
            let row: Vec<char> = slice(s, start, i);
            let ghost r = row@;
            let ghost rest = parts_from(s@, sep@, i + width, i + width);
            push_row(&mut out, row);
            assert(was + (seq![r] + rest) =~= was.push(r) + rest);
            i = i + width;
            start = i;
        } else {
            i = i + 1;
        }
    }
    let ghost was = rows(out@);
    let row: Vec<char> = slice(s, start, n);
    let ghost r = row@;
    push_row(&mut out, row);
    assert(was + seq![r] =~= was.push(r));
    out
}

/// Adds the windows of `s` to `out`: at most `size` characters each, moving by
/// less than that where they are to overlap.
fn hard_split_chars(s: &Vec<char>, size: usize, overlap: usize, out: &mut Vec<Vec<char>>)
    requires
        size > 0,
    ensures
        rows(final(out)@) == rows(old(out)@) + windows(
            s@,
            0,
            size as nat,
            stride(size as nat, overlap as nat),
        ),
{
    let n: usize = s.len();
    let step: usize = if overlap > 0 && overlap < size {
        size - overlap
    } else {
        size
    };
    let ghost start_rows = rows(out@);
    let ghost all = windows(s@, 0, size as nat, step as nat);
    let mut start: usize = 0;
    assert(rows(out@) + windows(s@, 0, size as nat, step as nat) =~= start_rows + all);
    while start < n
        invariant
            n == s@.len(),
            0 < step,
            0 < size,
            start <= n,
            start_rows == rows(old(out)@),
            all == windows(s@, 0, size as nat, step as nat),
            step == stride(size as nat, overlap as nat),
            rows(out@) + windows(s@, start as int, size as nat, step as nat) == start_rows + all,
        decreases n - start,
    {
        let ghost was = rows(out@);
        let end: usize = if size < n - start {
            start + size
        } else {
            n
        };
        let w: Vec<char> = slice(s, start, end);
        let ghost wv = w@;
        let ghost rest = windows(s@, start + step, size as nat, step as nat);
        if !blank_row(&w) {
            push_row(out, w);
        }
        proof {
            let this = if text::is_blank(wv) {
                Seq::<Seq<char>>::empty()
            } else {
                seq![wv]
            };
            assert(rows(out@) =~= was + this);
            if end < n {
                assert(was + (this + rest) =~= rows(out@) + rest);
            }
        }
        if end >= n {
            return ;
        }
        if step >= n - start {
            assert(rest =~= Seq::empty());
            assert(rows(out@) + rest =~= rows(out@));
            return ;
        }
        start = start + step;
    }
    assert(windows(s@, start as int, size as nat, step as nat) =~= Seq::empty());
    assert(rows(out@) + Seq::<Seq<char>>::empty() =~= rows(out@));
}

/// Takes one more part that stood between separators of a level, and gives the
/// buffer afterwards.
fn absorb_row(
    out: &mut Vec<Vec<char>>,
    buffer: Vec<char>,
    piece: &Vec<char>,
    level: usize,
    size: usize,
    overlap: usize,
) -> (r: Vec<char>)
    requires
        size > 0,
    ensures
        (Filling { out: rows(final(out)@), buffer: r@ }) == absorb(
            Filling { out: rows(old(out)@), buffer: buffer@ },
            piece@,
            level as nat,
            size as nat,
            overlap as nat,
        ),
    decreases level, 1nat,
{
    let sep: Vec<char> = separator_row(level);
    let width: usize = sep.len();
    if piece.len() > size {
        if !blank_row(&buffer) {
            push_row(out, buffer);
        }
        return fill_rows(out, piece, level, size, overlap);
    }
    if buffer.len() == 0 || buffer.len() as u128 + width as u128 + piece.len() as u128
        > size as u128 {
        if !blank_row(&buffer) {
            push_row(out, buffer);
        }
        let head: Vec<char> = last_row_tail(out, overlap);
        return join_rows(head, piece, &sep);
    }
    join_rows(buffer, piece, &sep)
}

/// Adds a text that is too long for one chunk to the chunks, split at the
/// widest of the first `levels` separators, or by length where none is left.
/// Gives the chunk that is being filled.
fn fill_rows(
    out: &mut Vec<Vec<char>>,
    s: &Vec<char>,
    levels: usize,
    size: usize,
    overlap: usize,
) -> (r: Vec<char>)
    requires
        size > 0,
    ensures
        (Filling { out: rows(final(out)@), buffer: r@ }) == fill(
            rows(old(out)@),
            s@,
            levels as nat,
            size as nat,
            overlap as nat,
        ),
    decreases levels, 0nat,
{
    if levels == 0 {
        let mut prefixed: Vec<char> = last_row_tail(out, overlap);
        extend(&mut prefixed, s);
        hard_split_chars(&prefixed, size, overlap, out);
        return last_row_tail(out, overlap);
    }
    let ghost first = rows(out@);
    let level: usize = levels - 1;
    let sep: Vec<char> = separator_row(level);
    let pieces: Vec<Vec<char>> = split_parts(s, &sep);
    let ghost ps = rows(pieces@);
    let n: usize = pieces.len();
    let mut buffer: Vec<char> = Vec::new();
    let mut i: usize = 0;
    assert(buffer@ =~= Seq::empty());
    while i < n
        invariant
            size > 0,
            level < levels,
            n == pieces@.len(),
            ps == rows(pieces@),
            i <= n,
            (Filling { out: rows(out@), buffer: buffer@ }) == absorb_all(
                first,
                ps,
                i as nat,
                level as nat,
                size as nat,
                overlap as nat,
            ),
        decreases n - i,
    {
        assert(ps[i as int] == pieces@[i as int]@);
        buffer = absorb_row(out, buffer, &pieces[i], level, size, overlap);
        i = i + 1;
    }
    buffer
}

/// Splits a text into pieces of about `chunk_size` characters.
///
/// Paragraphs are gathered until one more would not fit; the next piece then
/// begins with the last `overlap` characters of the one before. A paragraph
/// that is too long by itself is split into lines, a line into words, and a
/// word is cut by length.
fn recursive_char_split(s: &Vec<char>, chunk_size: usize, overlap: usize) -> (r: Vec<Vec<char>>)
    ensures
        rows(r@) == split_text(s@, chunk_size as nat, overlap as nat),
{
    let mut out: Vec<Vec<char>> = Vec::new();
    assert(rows(out@) =~= Seq::empty());
    if chunk_size == 0 {
        return out;
    }
    if s.len() <= chunk_size {
        let row: Vec<char> = slice(s, 0, s.len());
        assert(row@ =~= s@);
        push_row(&mut out, row);
        assert(rows(out@) =~= seq![s@]);
        return out;
    }
    let buffer: Vec<char> = fill_rows(&mut out, s, 3, chunk_size, overlap);
    if !blank_row(&buffer) {
        push_row(&mut out, buffer);
    }
    out
}

/// The lines of a text.
fn split_lines(s: &Vec<char>) -> (r: Vec<Vec<char>>)
    ensures
        rows(r@) == lines_of(s@),
{
    let n: usize = s.len();
    let mut out: Vec<Vec<char>> = Vec::new();
    let mut start: usize = 0;
    let mut i: usize = 0;
    assert(rows(out@) + lines_from(s@, 0, 0) =~= lines_of(s@));
    while i < n
        invariant
            n == s@.len(),
            start <= i <= n,
            rows(out@) + lines_from(s@, start as int, i as int) == lines_of(s@),
        decreases n - i,
    {
        let ghost was = rows(out@);
        if s[i] == '\n' {
            let end: usize = if i > start && s[i - 1] == '\r' {
                i - 1
            } else {
                i
            };
            let row: Vec<char> = slice(s, start, end);
            let ghost r = row@;
            proof {
                let line = s@.subrange(start as int, i as int);
                if line.len() > 0 {
                    assert(line.last() == s@[i - 1]);
                }
                assert(r =~= chop_return(line));
            }
            push_row(&mut out, row);
            assert(was + (seq![r] + lines_from(s@, i + 1, i + 1)) =~= was.push(r) + lines_from(
                s@,
                i + 1,
                i + 1,
            ));
            i = i + 1;
            start = i;
        } else {
            i = i + 1;
        }
    }
    let ghost was = rows(out@);
    if start < n {
        let row: Vec<char> = slice(s, start, n);
        let ghost r = row@;
        push_row(&mut out, row);
        assert(was + seq![r] =~= was.push(r));
    } else {
        assert(was + Seq::<Seq<char>>::empty() =~= was);
    }
    out
}

/// Whether a line is a heading of the second, third or fourth level.
fn heading_row(line: &Vec<char>) -> (r: bool)
    ensures
        r == is_heading(line@),
{
    let two: Vec<char> = text::chars_of("## ");
    let three: Vec<char> = text::chars_of("### ");
    let four: Vec<char> = text::chars_of("#### ");
    text::stands_at(line, &two, 0) || text::stands_at(line, &three, 0) || text::stands_at(
        line,
        &four,
        0,
    )
}

/// Splits markdown into sections at the headings of levels two to four.
fn split_markdown_by_headers(s: &Vec<char>) -> (r: Vec<Vec<char>>)
    ensures
        rows(r@) == sections_of(s@),
{
    let lines: Vec<Vec<char>> = split_lines(s);
    let ghost ls = rows(lines@);
    let n: usize = lines.len();
    let mut done: Vec<Vec<char>> = Vec::new();
    let mut current: Vec<char> = Vec::new();
    let mut i: usize = 0;
    assert(rows(done@) =~= Seq::empty());
    assert(current@ =~= Seq::empty());
    while i < n
        invariant
            n == lines@.len(),
            ls == rows(lines@),
            i <= n,
            read_lines(ls, i as nat) == (Reading { done: rows(done@), current: current@ }),
        decreases n - i,
    {
        let ghost r = read_lines(ls, i as nat);
        let line: &Vec<char> = &lines[i];
        assert(ls[i as int] == line@);
        if heading_row(line) && !blank_row(&current) {
            push_row(&mut done, current);
            current = Vec::new();
            assert(Seq::<char>::empty() + line@ =~= line@);
        }
        extend(&mut current, line);
        current.push('\n');
        assert(read_line(r, line@) == (Reading { done: rows(done@), current: current@ }));
        i = i + 1;
    }
    if !blank_row(&current) {
        push_row(&mut done, current);
    }
    done
}

/// Joins each short section to the one after it, from the last to the first.
fn coalesce(sections: &Vec<Vec<char>>, limit: usize) -> (r: Vec<Vec<char>>)
    ensures
        rows(r@) == coalesced(rows(sections@), limit as nat, 0),
{
    let ghost ss = rows(sections@);
    let n: usize = sections.len();
    // The sections from `i` on, the last first.
    let mut rev: Vec<Vec<char>> = Vec::new();
    let mut i: usize = n;
    assert(rows(rev@).reverse() =~= Seq::empty());
    while i > 0
        invariant
            n == sections@.len(),
            ss == rows(sections@),
            i <= n,
            rows(rev@).reverse() == coalesced(ss, limit as nat, i as int),
        decreases i,
    {
        let ghost was = rows(rev@);
        let ghost rest = coalesced(ss, limit as nat, i as int);
        i = i - 1;
        let section: Vec<char> = slice(&sections[i], 0, sections[i].len());
        assert(section@ =~= ss[i as int]);
        let short: bool = section.len() < limit;
        let next: Option<Vec<char>> = if short {
            rev.pop()
        } else {
            None
        };
        match next {
            Some(next) => {
                proof {
                    reveal_strlit("\n\n");
                    assert(rest[0] == was.last());
                    assert(rows(rev@) =~= was.drop_last());
                    assert(next@ == was.last());
                }
                let mut merged: Vec<char> = section;
                merged.push('\n');
                merged.push('\n');
                assert(merged@ =~= ss[i as int] + "\n\n"@);
                extend(&mut merged, &next);
                let ghost m = merged@;
                push_row(&mut rev, merged);
                assert(rows(rev@) =~= was.drop_last().push(m));
                assert(rows(rev@).reverse() =~= seq![m] + rest.drop_first());
            },
            None => {
                assert(rows(rev@) =~= was);
                assert(short ==> rest.len() == 0);
                push_row(&mut rev, section);
                assert(rows(rev@).reverse() =~= seq![ss[i as int]] + rest);
            },
        }
    }
    let mut r: Vec<Vec<char>> = Vec::new();
    let ghost back = rows(rev@);
    assert(rows(r@) =~= back.reverse().take(0));
    while rev.len() > 0
        invariant
            rows(rev@) == back.take(rev@.len() as int),
            rev@.len() <= back.len(),
            rows(r@) == back.reverse().take(back.len() - rev@.len()),
        decreases rev@.len(),
    {
        let ghost was = rows(r@);
        let ghost k = rev@.len();
        let ghost before = rows(rev@);
        match rev.pop() {
            Some(row) => {
                assert(row@ == before.last());
                assert(rows(rev@) =~= before.drop_last());
                let ghost v = row@;
                push_row(&mut r, row);
                assert(v == back[k - 1]);
                assert(rows(r@) =~= back.reverse().take(back.len() - rev@.len()));
            },
            None => {},
        }
    }
    assert(back.reverse().take(back.len() as int) =~= back.reverse());
    r
}

/// Moves the rows of `from` that are not blank to the end of `to`.
fn keep_rows(to: &mut Vec<Vec<char>>, from: Vec<Vec<char>>)
    ensures
        rows(final(to)@) == rows(old(to)@) + without_blank(rows(from@)),
{
    let ghost was = rows(to@);
    let ghost fs = rows(from@);
    let n: usize = from.len();
    let mut i: usize = 0;
    assert(fs.take(0) =~= Seq::empty());
    assert(was + without_blank(fs.take(0)) =~= was);
    while i < n
        invariant
            n == from@.len(),
            fs == rows(from@),
            was == rows(old(to)@),
            i <= n,
            rows(to@) == was + without_blank(fs.take(i as int)),
        decreases n - i,
    {
        assert(fs[i as int] == from@[i as int]@);
        assert(fs.take(i + 1).drop_last() =~= fs.take(i as int));
        if !blank_row(&from[i]) {
            let row: Vec<char> = slice(&from[i], 0, from[i].len());
            assert(row@ =~= fs[i as int]);
            push_row(to, row);
            assert(rows(to@) =~= was + without_blank(fs.take(i + 1)));
        }
        i = i + 1;
    }
    assert(fs.take(n as int) =~= fs);
}

/// Gives the pieces of a document their positions and ids.
fn finalize_chunks(pieces: &Vec<Vec<char>>, parent_doc_id: &str) -> (r: Vec<Chunk>)
    ensures
        chunks(r@) == numbered(rows(pieces@), parent_doc_id@),
{
    let ghost ps = rows(pieces@);
    let mut r: Vec<Chunk> = Vec::new();
    let mut i: usize = 0;
    assert(chunks(r@) =~= numbered(ps, parent_doc_id@).take(0));
    while i < pieces.len()
        invariant
            ps == rows(pieces@),
            i <= pieces@.len(),
            chunks(r@) == numbered(ps, parent_doc_id@).take(i as int),
        decreases pieces@.len() - i,
    {
        let ghost was = chunks(r@);
        let body: String = text::text_of(&pieces[i]);
        let id: String = Chunk::compute_id(parent_doc_id, i as u32, body.as_str());
        let c: Chunk = Chunk {
            text: body,
            parent_doc_id: parent_doc_id.to_string(),
            chunk_index: i as u32,
            chunk_id: id,
        };
        assert(c@ == numbered(ps, parent_doc_id@)[i as int]);
        r.push(c);
        assert(chunks(r@) =~= was.push(c@));
        i = i + 1;
        assert(chunks(r@) =~= numbered(ps, parent_doc_id@).take(i as int));
    }
    assert(numbered(ps, parent_doc_id@).take(ps.len() as int) =~= numbered(ps, parent_doc_id@));
    r
}

// ---------------------------------------------------------------------------
// Chunking
// ---------------------------------------------------------------------------

/// Chunks of a markdown text with the default sizes.
pub fn chunk_markdown(text: &str, parent_doc_id: &str) -> (r: Vec<Chunk>)
    ensures
        chunks(r@) == numbered(
            markdown_pieces(text@, DEFAULT_CHUNK_SIZE as nat, DEFAULT_CHUNK_OVERLAP as nat),
            parent_doc_id@,
        ),
{
    chunk_markdown_with(text, parent_doc_id, DEFAULT_CHUNK_SIZE, DEFAULT_CHUNK_OVERLAP)
}

/// Chunks of a markdown text: its sections, short ones joined to the next and
/// long ones split further. A heading of the first level is no section border.
pub fn chunk_markdown_with(
    text: &str,
    parent_doc_id: &str,
    chunk_size: usize,
    overlap: usize,
) -> (r: Vec<Chunk>)
    ensures
        chunks(r@) == numbered(
            markdown_pieces(text@, chunk_size as nat, overlap as nat),
            parent_doc_id@,
        ),
{
    let s: Vec<char> = text::chars_of(text);
    let sections: Vec<Vec<char>> = split_markdown_by_headers(&s);
    let third: usize = chunk_size / 3;
    let limit: usize = if third > 64 {
        third
    } else {
        64
    };
    let sections: Vec<Vec<char>> = coalesce(&sections, limit);
    let ghost ss = rows(sections@);
    let n: usize = sections.len();
    let mut pieces: Vec<Vec<char>> = Vec::new();
    let mut i: usize = 0;
    assert(rows(pieces@) =~= Seq::empty());
    while i < n
        invariant
            n == sections@.len(),
            ss == rows(sections@),
            i <= n,
            rows(pieces@) == section_pieces(ss, i as nat, chunk_size as nat, overlap as nat),
        decreases n - i,
    {
        let ghost was = rows(pieces@);
        assert(ss[i as int] == sections@[i as int]@);
        if sections[i].len() <= chunk_size {
            let row: Vec<char> = slice(&sections[i], 0, sections[i].len());
            assert(row@ =~= ss[i as int]);
            push_row(&mut pieces, row);
            assert(rows(pieces@) =~= was + seq![ss[i as int]]);
        } else {
            let parts: Vec<Vec<char>> = recursive_char_split(&sections[i], chunk_size, overlap);
            keep_rows(&mut pieces, parts);
        }
        i = i + 1;
    }
    finalize_chunks(&pieces, parent_doc_id)
}

/// Chunks of a plain text with the default sizes.
pub fn chunk_plain(text: &str, parent_doc_id: &str) -> (r: Vec<Chunk>)
    ensures
        chunks(r@) == numbered(
            plain_pieces(text@, DEFAULT_CHUNK_SIZE as nat, DEFAULT_CHUNK_OVERLAP as nat),
            parent_doc_id@,
        ),
{
    chunk_plain_with(text, parent_doc_id, DEFAULT_CHUNK_SIZE, DEFAULT_CHUNK_OVERLAP)
}

/// Chunks of a plain text.
pub fn chunk_plain_with(
    text: &str,
    parent_doc_id: &str,
    chunk_size: usize,
    overlap: usize,
) -> (r: Vec<Chunk>)
    ensures
        chunks(r@) == numbered(
            plain_pieces(text@, chunk_size as nat, overlap as nat),
            parent_doc_id@,
        ),
{
    let s: Vec<char> = text::chars_of(text);
    let parts: Vec<Vec<char>> = recursive_char_split(&s, chunk_size, overlap);
    let mut pieces: Vec<Vec<char>> = Vec::new();
    keep_rows(&mut pieces, parts);
    assert(rows(pieces@) =~= plain_pieces(text@, chunk_size as nat, overlap as nat));
    finalize_chunks(&pieces, parent_doc_id)
}

/// Whether a document is markdown: its language says so, or its path ends in
/// `.md` or `.markdown`.
pub open spec fn is_markdown(language: Option<Seq<char>>, path: Seq<char>) -> bool {
    ||| language == Some("markdown"@)
    ||| ".md"@.is_suffix_of(path)
    ||| ".markdown"@.is_suffix_of(path)
}

/// The chunk texts of a document under the given settings.
pub open spec fn document_pieces(
    s: Seq<char>,
    language: Option<Seq<char>>,
    path: Seq<char>,
    size: nat,
    overlap: nat,
) -> Seq<Seq<char>> {
    if is_markdown(language, path) {
        markdown_pieces(s, size, overlap)
    } else {
        plain_pieces(s, size, overlap)
    }
}

/// Chunks of a document, as markdown or plain text, with the sizes that the
/// given values of `SEMDOC_CHUNK_SIZE` and `SEMDOC_CHUNK_OVERLAP` ask for.
pub fn chunk_for(
    text: &str,
    parent_doc_id: &str,
    language: Option<&str>,
    source_path: &str,
    size_setting: Option<&str>,
    overlap_setting: Option<&str>,
) -> (r: Vec<Chunk>)
    ensures
        ({
            let size = chunk_size_of(opt_text(size_setting));
            let overlap = overlap_of(size, opt_text(overlap_setting));
            chunks(r@) == numbered(
                document_pieces(text@, opt_text(language), source_path@, size, overlap),
                parent_doc_id@,
            )
        }),
{
    let chunk_size: usize = resolve_chunk_size(size_setting);
    let overlap: usize = resolve_chunk_overlap(chunk_size, overlap_setting);
    let hinted: bool = match language {
        Some(l) => text::same(l, "markdown"),
        None => false,
    };
    if hinted || text::ends_with(source_path, ".md") || text::ends_with(source_path, ".markdown") {
        chunk_markdown_with(text, parent_doc_id, chunk_size, overlap)
    } else {
        chunk_plain_with(text, parent_doc_id, chunk_size, overlap)
    }
}

} // verus!
