//! What holds of every chunking.

use crate::chunker;
use crate::chunker::Filling;
use crate::hash;
use crate::text;
use vstd::prelude::*;

verus! {

// ---------------------------------------------------------------------------
// Ids
// ---------------------------------------------------------------------------

proof fn lemma_decimal_len(n: nat, limit: nat, width: nat)
    requires
        width > 0,
        n < limit,
        limit == pow10(width),
    ensures
        1 <= text::decimal(n).len() <= width,
    decreases width,
{
    if n >= 10 {
        if width == 1 {
            assert(pow10(0) == 1);
            assert(pow10(1) == 10);
        } else {
            assert(limit == 10 * pow10((width - 1) as nat));
            lemma_decimal_len(n / 10, pow10((width - 1) as nat), (width - 1) as nat);
        }
    }
}

/// Ten to the power of `k`.
pub open spec fn pow10(k: nat) -> nat
    decreases k,
{
    if k == 0 {
        1
    } else {
        10 * pow10((k - 1) as nat)
    }
}

proof fn lemma_index_width(index: u32)
    ensures
        chunker::index_text(index).len() == 10,
        text::digits_value(chunker::index_text(index)) == index,
        text::all_digits(chunker::index_text(index)),
{
    reveal_with_fuel(pow10, 11);
    assert(pow10(10) == 10_000_000_000);
    lemma_decimal_len(index as nat, pow10(10), 10);
    text::lemma_decimal_digits(index as nat);
    lemma_padded_value(text::decimal(index as nat), (10 - text::decimal(index as nat).len()) as nat);
    let d = text::decimal(index as nat);
    let zeros = Seq::new((10 - d.len()) as nat, |i: int| '0');
    if d.len() == 10 {
        assert(zeros + d =~= d);
    }
}

proof fn lemma_padded_value(d: Seq<char>, k: nat)
    ensures
        text::digits_value(Seq::new(k, |i: int| '0') + d) == text::digits_value(d),
    decreases d.len(), k,
{
    let z = Seq::new(k, |i: int| '0');
    if d.len() > 0 {
        lemma_padded_value(d.drop_last(), k);
        assert((z + d).drop_last() =~= z + d.drop_last());
    } else if k > 0 {
        let y = Seq::new((k - 1) as nat, |i: int| '0');
        assert((z + d).drop_last() =~= y + d);
        assert((z + d).last() == '0');
        lemma_padded_value(d, (k - 1) as nat);
    } else {
        assert(z + d =~= d);
    }
}

/// Whether `q` continues `p` as the text hashed for a chunk of `p` would: with a
/// colon and an index, and then a colon or nothing.
pub open spec fn continues(p: Seq<char>, q: Seq<char>) -> bool {
    exists|i: u32|
        #![trigger chunker::index_text(i)]
        q == p + ":"@ + chunker::index_text(i) || (p + ":"@ + chunker::index_text(i)
            + ":"@).is_prefix_of(q)
}

proof fn lemma_longer_parent_continues(
    p: Seq<char>,
    i: u32,
    a: Seq<char>,
    q: Seq<char>,
    j: u32,
    b: Seq<char>,
)
    requires
        p.len() < q.len(),
        chunker::id_input(p, i, a) == chunker::id_input(q, j, b),
    ensures
        continues(p, q),
{
    reveal_strlit(":");
    lemma_index_width(i);
    let x = chunker::index_text(i);
    let s = chunker::id_input(p, i, a);
    let n = p.len() as int;
    let m = q.len() as int;
    assert(s.take(m) =~= q);
    assert(s[m] == ':');
    if m < n + 11 {
        assert(s[m] == x[m - n - 1]);
        assert(text::is_digit(x[m - n - 1]));
    } else if m == n + 11 {
        assert(s.take(m) =~= p + ":"@ + x);
    } else {
        assert(s.take(m).take(n + 12) =~= p + ":"@ + x + ":"@);
    }
}

/// What is hashed for a chunk id tells parent, index and text apart: two chunks
/// have the same only if they agree in all three. Only a parent that continues
/// another with a colon and an index, and then a colon or nothing, is left out.
pub proof fn law_id_input_is_injective(
    p: Seq<char>,
    i: u32,
    a: Seq<char>,
    q: Seq<char>,
    j: u32,
    b: Seq<char>,
)
    requires
        !continues(p, q),
        !continues(q, p),
        chunker::id_input(p, i, a) == chunker::id_input(q, j, b),
    ensures
        p == q,
        i == j,
        a == b,
{
    reveal_strlit(":");
    lemma_index_width(i);
    lemma_index_width(j);
    if p.len() < q.len() {
        lemma_longer_parent_continues(p, i, a, q, j, b);
    } else if q.len() < p.len() {
        lemma_longer_parent_continues(q, j, b, p, i, a);
    }
    let s = chunker::id_input(p, i, a);
    let t = chunker::id_input(q, j, b);
    let n = p.len() as int;
    assert(s.take(n) =~= p);
    assert(t.take(n) =~= q);
    assert(s.subrange(n + 1, n + 11) =~= chunker::index_text(i));
    assert(t.subrange(n + 1, n + 11) =~= chunker::index_text(j));
    assert(s.skip(n + 12) =~= a);
    assert(t.skip(n + 12) =~= b);
}

/// Whether the hash tells two texts apart.
pub open spec fn hashed_apart(s: Seq<char>, t: Seq<char>) -> bool {
    hash::blake3_hex(s) == hash::blake3_hex(t) ==> s == t
}

/// Chunks that differ in parent, index or text have different ids where the
/// hash does not collide. Only a parent that continues another with a colon and
/// an index, and then a colon or nothing, is left out.
pub proof fn law_chunk_ids_differ(
    p: Seq<char>,
    i: u32,
    a: Seq<char>,
    q: Seq<char>,
    j: u32,
    b: Seq<char>,
)
    requires
        !continues(p, q),
        !continues(q, p),
        hashed_apart(chunker::id_input(p, i, a), chunker::id_input(q, j, b)),
        p != q || i != j || a != b,
    ensures
        chunker::chunk_id(p, i, a) != chunker::chunk_id(q, j, b),
{
    if chunker::chunk_id(p, i, a) == chunker::chunk_id(q, j, b) {
        law_id_input_is_injective(p, i, a, q, j, b);
    }
}

/// Chunks of one document that differ in index or text have different ids where
/// the hash does not collide.
pub proof fn law_chunk_ids_of_a_parent_differ(
    p: Seq<char>,
    i: u32,
    a: Seq<char>,
    j: u32,
    b: Seq<char>,
)
    requires
        hashed_apart(chunker::id_input(p, i, a), chunker::id_input(p, j, b)),
        i != j || a != b,
    ensures
        chunker::chunk_id(p, i, a) != chunker::chunk_id(p, j, b),
{
    reveal_strlit(":");
    assert(!continues(p, p)) by {
        if continues(p, p) {
            let k = choose|k: u32|
                #![trigger chunker::index_text(k)]
                p == p + ":"@ + chunker::index_text(k) || (p + ":"@ + chunker::index_text(k)
                    + ":"@).is_prefix_of(p);
            assert((p + ":"@ + chunker::index_text(k)).len() > p.len());
        }
    }
    law_chunk_ids_differ(p, i, a, p, j, b);
}

/// The chunks of a document have different ids where the hash does not collide
/// on them.
pub proof fn law_ids_within_a_document_differ(pieces: Seq<Seq<char>>, parent: Seq<char>)
    requires
        pieces.len() <= u32::MAX,
        forall|i: int, j: int|
            0 <= i < j < pieces.len() ==> hashed_apart(
                chunker::id_input(parent, i as u32, #[trigger] pieces[i]),
                chunker::id_input(parent, j as u32, #[trigger] pieces[j]),
            ),
    ensures
        forall|i: int, j: int|
            0 <= i < j < pieces.len() ==> (#[trigger] chunker::numbered(
                pieces,
                parent,
            )[i]).chunk_id != (#[trigger] chunker::numbered(pieces, parent)[j]).chunk_id,
{
    let v = chunker::numbered(pieces, parent);
    assert forall|i: int, j: int| 0 <= i < j < pieces.len() implies (#[trigger] v[i]).chunk_id != (
    #[trigger] v[j]).chunk_id by {
        assert(hashed_apart(
            chunker::id_input(parent, i as u32, pieces[i]),
            chunker::id_input(parent, j as u32, pieces[j]),
        ));
        law_chunk_ids_of_a_parent_differ(parent, i as u32, pieces[i], j as u32, pieces[j]);
    }
}

// ---------------------------------------------------------------------------
// Parts between separators
// ---------------------------------------------------------------------------

pub proof fn lemma_join_front(first: Seq<char>, rest: Seq<Seq<char>>, sep: Seq<char>)
    requires
        rest.len() > 0,
    ensures
        text::joined(seq![first] + rest, sep) == first + sep + text::joined(rest, sep),
    decreases rest.len(),
{
    let all = seq![first] + rest;
    if rest.len() == 1 {
        assert(all.drop_last() =~= seq![first]);
        assert(text::joined(all.drop_last(), sep) == first);
    } else {
        lemma_join_front(first, rest.drop_last(), sep);
        assert(all.drop_last() =~= seq![first] + rest.drop_last());
        assert(all.last() == rest.last());
        assert(text::joined(all, sep) =~= first + sep + text::joined(rest, sep));
    }
}

pub proof fn lemma_parts_join(s: Seq<char>, sep: Seq<char>, start: int, i: int)
    requires
        0 <= start <= i <= s.len(),
    ensures
        chunker::parts_from(s, sep, start, i).len() > 0,
        text::joined(chunker::parts_from(s, sep, start, i), sep) == s.skip(start),
    decreases s.len() - i,
{
    if i >= s.len() {
        assert(s.subrange(start, s.len() as int) =~= s.skip(start));
    } else if sep.len() > 0 && text::occurs_at(s, sep, i) {
        let next = i + sep.len();
        let rest = chunker::parts_from(s, sep, next, next);
        lemma_parts_join(s, sep, next, next);
        lemma_join_front(s.subrange(start, i), rest, sep);
        assert(s.subrange(start, i) + s.subrange(i, next) + s.skip(next) =~= s.skip(start));
    } else {
        lemma_parts_join(s, sep, start, i + 1);
    }
}

/// Splitting at a separator loses nothing: the parts with the separator between
/// them are the text again.
pub proof fn law_parts_make_the_text(s: Seq<char>, sep: Seq<char>)
    ensures
        text::joined(chunker::parts_of(s, sep), sep) == s,
{
    lemma_parts_join(s, sep, 0, 0);
    assert(s.skip(0) =~= s);
}

// ---------------------------------------------------------------------------
// Windows
// ---------------------------------------------------------------------------

/// Whether a list of texts holds a text.
pub open spec fn holds(out: Seq<Seq<char>>, w: Seq<char>) -> bool {
    exists|k: int| 0 <= k < out.len() && #[trigger] out[k] == w
}

/// No window is longer than the chunk size or blank.
pub proof fn law_windows_are_bounded(s: Seq<char>, start: int, size: nat, step: nat, k: int)
    requires
        0 <= k < chunker::windows(s, start, size, step).len(),
    ensures
        chunker::windows(s, start, size, step)[k].len() <= size,
        !text::is_blank(chunker::windows(s, start, size, step)[k]),
    decreases (if start < s.len() { s.len() - start } else { 0 }),
{
    let end = chunker::window_end(s, start, size);
    let w = s.subrange(start, end);
    let this = if text::is_blank(w) {
        Seq::<Seq<char>>::empty()
    } else {
        seq![w]
    };
    if end < s.len() && k >= this.len() {
        law_windows_are_bounded(s, start + step, size, step, k - this.len());
    }
}

/// Every character of a long paragraph that is not white space lies in one of
/// its windows.
pub proof fn law_windows_cover(s: Seq<char>, start: int, size: nat, step: nat, i: int) -> (a: int)
    requires
        0 <= start <= i < s.len(),
        0 < step <= size,
        !text::is_space(s[i]),
    ensures
        start <= a <= i < chunker::window_end(s, a, size),
        holds(
            chunker::windows(s, start, size, step),
            s.subrange(a, chunker::window_end(s, a, size)),
        ),
    decreases s.len() - start,
{
    let end = chunker::window_end(s, start, size);
    let w = s.subrange(start, end);
    let out = chunker::windows(s, start, size, step);
    if i < end {
        assert(w[i - start] == s[i]);
        assert(!text::is_blank(w));
        assert(out[0] == w);
        start
    } else {
        let a = law_windows_cover(s, start + step, size, step, i);
        let rest = chunker::windows(s, start + step, size, step);
        let v = s.subrange(a, chunker::window_end(s, a, size));
        let k = choose|k: int| 0 <= k < rest.len() && #[trigger] rest[k] == v;
        if text::is_blank(w) {
            assert(out =~= rest);
            assert(out[k] == v);
        } else {
            assert(out =~= seq![w] + rest);
            assert(out[k + 1] == v);
        }
        a
    }
}

/// A window that is followed by another ends with the `overlap` characters
/// that the other begins with.
pub proof fn law_windows_overlap(s: Seq<char>, start: int, size: nat, overlap: nat)
    requires
        0 < overlap < size,
        0 <= start,
        chunker::window_end(s, start, size) < s.len(),
    ensures
        ({
            let next = start + chunker::stride(size, overlap);
            let w = s.subrange(start, chunker::window_end(s, start, size));
            let v = s.subrange(next, chunker::window_end(s, next, size));
            chunker::tail(w, overlap).len() == overlap && chunker::tail(w, overlap).is_prefix_of(v)
        }),
{
    let next = start + chunker::stride(size, overlap);
    let w = s.subrange(start, chunker::window_end(s, start, size));
    let v = s.subrange(next, chunker::window_end(s, next, size));
    assert(chunker::tail(w, overlap) =~= v.take(overlap as int));
}

// ---------------------------------------------------------------------------
// Whole documents
// ---------------------------------------------------------------------------

/// Whether none of the texts is blank.
pub open spec fn none_blank(out: Seq<Seq<char>>) -> bool {
    forall|k: int| 0 <= k < out.len() ==> !text::is_blank(#[trigger] out[k])
}

/// Whether all texts have at most `n` characters.
pub open spec fn all_within(out: Seq<Seq<char>>, n: nat) -> bool {
    forall|k: int| 0 <= k < out.len() ==> (#[trigger] out[k]).len() <= n
}

/// The length that no chunk exceeds: the chunk size, and where chunks overlap
/// also the overlap and one empty line.
pub open spec fn longest(size: nat, overlap: nat) -> nat {
    if overlap == 0 {
        size
    } else {
        size + overlap + 2
    }
}

/// What holds while parts are gathered.
pub open spec fn gathering(f: Filling, size: nat, overlap: nat) -> bool {
    &&& none_blank(f.out)
    &&& all_within(f.out, longest(size, overlap))
    &&& f.buffer.len() <= longest(size, overlap)
}

proof fn lemma_flushed_keeps(f: Filling, size: nat, overlap: nat)
    requires
        gathering(f, size, overlap),
    ensures
        none_blank(chunker::flushed(f)),
        all_within(chunker::flushed(f), longest(size, overlap)),
{
    let out = chunker::flushed(f);
    assert forall|k: int| 0 <= k < out.len() implies !text::is_blank(#[trigger] out[k])
        && out[k].len() <= longest(size, overlap) by {
        if k < f.out.len() {
            assert(out[k] == f.out[k]);
        }
    }
}

proof fn lemma_fill_keeps(
    out: Seq<Seq<char>>,
    s: Seq<char>,
    levels: nat,
    size: nat,
    overlap: nat,
)
    requires
        none_blank(out),
        all_within(out, longest(size, overlap)),
    ensures
        gathering(chunker::fill(out, s, levels, size, overlap), size, overlap),
    decreases levels, 0nat, 0nat,
{
    let g = chunker::fill(out, s, levels, size, overlap);
    if levels == 0 {
        let step = chunker::stride(size, overlap);
        let seeded = chunker::last_tail(out, overlap) + s;
        let ws = chunker::windows(seeded, 0, size, step);
        assert forall|k: int| 0 <= k < g.out.len() implies !text::is_blank(#[trigger] g.out[k])
            && g.out[k].len() <= longest(size, overlap) by {
            if k < out.len() {
                assert(g.out[k] == out[k]);
            } else {
                assert(g.out[k] == ws[k - out.len()]);
                law_windows_are_bounded(seeded, 0, size, step, k - out.len());
            }
        }
    } else {
        let level = (levels - 1) as nat;
        let ps = chunker::parts_of(s, chunker::separator(level));
        lemma_absorb_all_keeps(out, ps, ps.len(), level, size, overlap);
    }
}

proof fn lemma_absorb_keeps(f: Filling, piece: Seq<char>, level: nat, size: nat, overlap: nat)
    requires
        gathering(f, size, overlap),
    ensures
        gathering(chunker::absorb(f, piece, level, size, overlap), size, overlap),
    decreases level, 1nat, 0nat,
{
    chunker::lemma_separators(level);
    lemma_flushed_keeps(f, size, overlap);
    if piece.len() > size {
        lemma_fill_keeps(chunker::flushed(f), piece, level, size, overlap);
    }
}

proof fn lemma_absorb_all_keeps(
    out: Seq<Seq<char>>,
    ps: Seq<Seq<char>>,
    n: nat,
    level: nat,
    size: nat,
    overlap: nat,
)
    requires
        none_blank(out),
        all_within(out, longest(size, overlap)),
        n <= ps.len(),
    ensures
        gathering(chunker::absorb_all(out, ps, n, level, size, overlap), size, overlap),
    decreases level, 2nat, n,
{
    if n > 0 {
        let m = (n - 1) as nat;
        lemma_absorb_all_keeps(out, ps, m, level, size, overlap);
        let f = chunker::absorb_all(out, ps, m, level, size, overlap);
        lemma_absorb_keeps(f, ps[n - 1], level, size, overlap);
    }
}

pub proof fn lemma_split_within(s: Seq<char>, size: nat, overlap: nat)
    ensures
        all_within(chunker::split_text(s, size, overlap), longest(size, overlap)),
        size < s.len() ==> none_blank(chunker::split_text(s, size, overlap)),
{
    if 0 < size < s.len() {
        lemma_fill_keeps(Seq::empty(), s, 3, size, overlap);
        lemma_flushed_keeps(chunker::fill(Seq::empty(), s, 3, size, overlap), size, overlap);
    }
}

proof fn lemma_without_blank(v: Seq<Seq<char>>, n: nat)
    requires
        all_within(v, n),
    ensures
        none_blank(chunker::without_blank(v)),
        all_within(chunker::without_blank(v), n),
    decreases v.len(),
{
    if v.len() > 0 {
        let head = v.drop_last();
        assert forall|k: int| 0 <= k < head.len() implies (#[trigger] head[k]).len() <= n by {
            assert(head[k] == v[k]);
        }
        lemma_without_blank(head, n);
    }
}

/// No chunk of a plain text is blank, and none is longer than the chunk size or,
/// where chunks overlap, than the chunk size, the overlap and one empty line
/// together.
pub proof fn law_plain_chunks_are_bounded(s: Seq<char>, size: nat, overlap: nat)
    ensures
        none_blank(chunker::plain_pieces(s, size, overlap)),
        all_within(chunker::plain_pieces(s, size, overlap), longest(size, overlap)),
{
    lemma_split_within(s, size, overlap);
    lemma_without_blank(chunker::split_text(s, size, overlap), longest(size, overlap));
}

proof fn lemma_sections_not_blank(lines: Seq<Seq<char>>, n: nat)
    requires
        n <= lines.len(),
    ensures
        none_blank(chunker::read_lines(lines, n).done),
    decreases n,
{
    if n > 0 {
        lemma_sections_not_blank(lines, (n - 1) as nat);
        let r = chunker::read_lines(lines, (n - 1) as nat);
        let g = chunker::read_lines(lines, n);
        assert forall|k: int| 0 <= k < g.done.len() implies !text::is_blank(
            #[trigger] g.done[k],
        ) by {
            if k < r.done.len() {
                assert(g.done[k] == r.done[k]);
            }
        }
    }
}

proof fn lemma_coalesced_not_blank(ss: Seq<Seq<char>>, limit: nat, i: int)
    requires
        none_blank(ss),
        0 <= i <= ss.len(),
    ensures
        none_blank(chunker::coalesced(ss, limit, i)),
    decreases ss.len() - i,
{
    if i < ss.len() {
        lemma_coalesced_not_blank(ss, limit, i + 1);
        let rest = chunker::coalesced(ss, limit, i + 1);
        let out = chunker::coalesced(ss, limit, i);
        let j = choose|j: int| 0 <= j < ss[i].len() && !text::is_space(#[trigger] ss[i][j]);
        assert(!text::is_blank(ss[i]));
        assert forall|k: int| 0 <= k < out.len() implies !text::is_blank(#[trigger] out[k]) by {
            if ss[i].len() < limit && rest.len() > 0 {
                if k == 0 {
                    assert(out[0] == ss[i] + "\n\n"@ + rest[0]);
                    assert(out[0][j] == ss[i][j]);
                } else {
                    assert(out[k] == rest[k]);
                }
            } else if k > 0 {
                assert(out[k] == rest[k - 1]);
            }
        }
    }
}

proof fn lemma_section_pieces(ss: Seq<Seq<char>>, n: nat, size: nat, overlap: nat)
    requires
        none_blank(ss),
        n <= ss.len(),
    ensures
        none_blank(chunker::section_pieces(ss, n, size, overlap)),
        all_within(chunker::section_pieces(ss, n, size, overlap), longest(size, overlap)),
    decreases n,
{
    if n > 0 {
        let before = chunker::section_pieces(ss, (n - 1) as nat, size, overlap);
        lemma_section_pieces(ss, (n - 1) as nat, size, overlap);
        let s = ss[n - 1];
        let out = chunker::section_pieces(ss, n, size, overlap);
        let more = if s.len() <= size {
            seq![s]
        } else {
            chunker::without_blank(chunker::split_text(s, size, overlap))
        };
        if s.len() > size {
            lemma_split_within(s, size, overlap);
            lemma_without_blank(chunker::split_text(s, size, overlap), longest(size, overlap));
        }
        assert forall|k: int| 0 <= k < out.len() implies !text::is_blank(#[trigger] out[k])
            && out[k].len() <= longest(size, overlap) by {
            if k < before.len() {
                assert(out[k] == before[k]);
            } else {
                assert(out[k] == more[k - before.len()]);
            }
        }
    }
}

/// No chunk of a markdown text is blank, and none is longer than the chunk size
/// or, where chunks overlap, than the chunk size, the overlap and one empty line
/// together.
pub proof fn law_markdown_chunks_are_bounded(s: Seq<char>, size: nat, overlap: nat)
    ensures
        none_blank(chunker::markdown_pieces(s, size, overlap)),
        all_within(chunker::markdown_pieces(s, size, overlap), longest(size, overlap)),
{
    lemma_sections_there(s, size);
    let ss = chunker::sections_of(s);
    let cs = chunker::coalesced(ss, chunker::short_limit(size), 0);
    lemma_section_pieces(cs, cs.len(), size, overlap);
}

/// No section is blank.
pub proof fn lemma_sections_there(s: Seq<char>, size: nat)
    ensures
        none_blank(
            chunker::coalesced(chunker::sections_of(s), chunker::short_limit(size), 0),
        ),
{
    let lines = chunker::lines_of(s);
    lemma_sections_not_blank(lines, lines.len());
    let r = chunker::read_lines(lines, lines.len());
    let ss = chunker::sections_of(s);
    assert forall|k: int| 0 <= k < ss.len() implies !text::is_blank(#[trigger] ss[k]) by {
        if k < r.done.len() {
            assert(ss[k] == r.done[k]);
        }
    }
    lemma_coalesced_not_blank(ss, chunker::short_limit(size), 0);
}

// ---------------------------------------------------------------------------
// Nothing is lost
// ---------------------------------------------------------------------------

/// Whether `p` stands whole in one of the texts.
pub open spec fn kept(out: Seq<Seq<char>>, p: Seq<char>) -> bool {
    exists|k: int| 0 <= k < out.len() && text::occurs(#[trigger] out[k], p)
}

pub proof fn lemma_occurs_in_longer(a: Seq<char>, s: Seq<char>, b: Seq<char>, p: Seq<char>)
    requires
        text::occurs(s, p),
    ensures
        text::occurs(a + s + b, p),
{
    let i = choose|i: int| text::occurs_at(s, p, i);
    let r = a + s + b;
    assert(r.subrange(a.len() + i, a.len() + i + p.len()) =~= s.subrange(i, i + p.len()));
    assert(text::occurs_at(r, p, a.len() + i));
}

proof fn lemma_occurs_not_blank(s: Seq<char>, p: Seq<char>)
    requires
        text::occurs(s, p),
        !text::is_blank(p),
    ensures
        !text::is_blank(s),
{
    let i = choose|i: int| text::occurs_at(s, p, i);
    let j = choose|j: int| 0 <= j < p.len() && !text::is_space(#[trigger] p[j]);
    assert(s.subrange(i, i + p.len())[j] == s[i + j]);
    assert(!text::is_space(s[i + j]));
}

proof fn lemma_kept_more(out: Seq<Seq<char>>, more: Seq<Seq<char>>, p: Seq<char>)
    requires
        kept(out, p),
    ensures
        kept(out + more, p),
{
    let k = choose|k: int| 0 <= k < out.len() && text::occurs(#[trigger] out[k], p);
    assert((out + more)[k] == out[k]);
}

/// Whether `p` stands whole in a finished chunk or in the one being filled.
pub open spec fn carried(f: Filling, p: Seq<char>) -> bool {
    kept(f.out, p) || text::occurs(f.buffer, p)
}

proof fn lemma_flushed_carries(f: Filling, p: Seq<char>)
    requires
        !text::is_blank(p),
        carried(f, p),
    ensures
        kept(chunker::flushed(f), p),
{
    let out = chunker::flushed(f);
    if text::occurs(f.buffer, p) {
        lemma_occurs_not_blank(f.buffer, p);
        assert(out[f.out.len() as int] == f.buffer);
    } else if !text::is_blank(f.buffer) {
        lemma_kept_more(f.out, seq![f.buffer], p);
        assert(out =~= f.out + seq![f.buffer]);
    }
}

proof fn lemma_fill_carries(
    out: Seq<Seq<char>>,
    s: Seq<char>,
    levels: nat,
    size: nat,
    overlap: nat,
    p: Seq<char>,
)
    requires
        !text::is_blank(p),
        kept(out, p),
    ensures
        carried(chunker::fill(out, s, levels, size, overlap), p),
    decreases levels, 0nat, 0nat,
{
    if levels == 0 {
        let seeded = chunker::last_tail(out, overlap) + s;
        let ws = chunker::windows(seeded, 0, size, chunker::stride(size, overlap));
        lemma_kept_more(out, ws, p);
    } else {
        let level = (levels - 1) as nat;
        let ps = chunker::parts_of(s, chunker::separator(level));
        lemma_absorb_all_carries(out, ps, ps.len(), level, size, overlap, p);
    }
}

proof fn lemma_absorb_carries(
    f: Filling,
    piece: Seq<char>,
    level: nat,
    size: nat,
    overlap: nat,
    p: Seq<char>,
)
    requires
        !text::is_blank(p),
        carried(f, p) || (p == piece && piece.len() <= size),
    ensures
        carried(chunker::absorb(f, piece, level, size, overlap), p),
    decreases level, 1nat, 0nat,
{
    let g = chunker::absorb(f, piece, level, size, overlap);
    let sep = chunker::separator(level);
    let out = chunker::flushed(f);
    if carried(f, p) {
        lemma_flushed_carries(f, p);
    }
    if piece.len() > size {
        lemma_fill_carries(out, piece, level, size, overlap, p);
    } else {
        let fresh = f.buffer.len() == 0 || f.buffer.len() + sep.len() + piece.len() > size;
        let head = if fresh {
            chunker::last_tail(out, overlap)
        } else {
            f.buffer
        };
        if !carried(f, p) {
            assert(piece.subrange(0, piece.len() as int) =~= piece);
            assert(text::occurs_at(piece, piece, 0));
            if head.len() > 0 {
                lemma_occurs_in_longer(head + sep, piece, Seq::empty(), p);
                assert(head + sep + piece + Seq::<char>::empty() =~= g.buffer);
            }
        } else if !fresh && text::occurs(f.buffer, p) {
            lemma_occurs_in_longer(Seq::empty(), head, sep + piece, p);
            assert(Seq::<char>::empty() + head + (sep + piece) =~= g.buffer);
        }
    }
}

proof fn lemma_absorb_all_carries(
    out: Seq<Seq<char>>,
    ps: Seq<Seq<char>>,
    n: nat,
    level: nat,
    size: nat,
    overlap: nat,
    p: Seq<char>,
)
    requires
        !text::is_blank(p),
        kept(out, p),
        n <= ps.len(),
    ensures
        carried(chunker::absorb_all(out, ps, n, level, size, overlap), p),
    decreases level, 2nat, n,
{
    if n > 0 {
        let m = (n - 1) as nat;
        lemma_absorb_all_carries(out, ps, m, level, size, overlap, p);
        let f = chunker::absorb_all(out, ps, m, level, size, overlap);
        lemma_absorb_carries(f, ps[n - 1], level, size, overlap, p);
    }
}

/// Whether `p` is one of the parts that a text is split into at the first
/// `levels` separators and that fit in `size` characters: a paragraph that
/// fits, a line that fits in a paragraph that does not, or a word that fits in
/// a line that does not.
pub open spec fn fitting_part(p: Seq<char>, s: Seq<char>, levels: nat, size: nat) -> bool
    decreases levels,
{
    &&& levels > 0
    &&& {
        let level = (levels - 1) as nat;
        let ps = chunker::parts_of(s, chunker::separator(level));
        exists|k: int|
            0 <= k < ps.len() && (if (#[trigger] ps[k]).len() <= size {
                ps[k] == p
            } else {
                fitting_part(p, ps[k], level, size)
            })
    }
}

proof fn lemma_part_is_taken(
    out: Seq<Seq<char>>,
    s: Seq<char>,
    levels: nat,
    size: nat,
    overlap: nat,
    p: Seq<char>,
)
    requires
        !text::is_blank(p),
        fitting_part(p, s, levels, size),
    ensures
        carried(chunker::fill(out, s, levels, size, overlap), p),
    decreases levels, 0nat,
{
    let level = (levels - 1) as nat;
    let ps = chunker::parts_of(s, chunker::separator(level));
    let k = choose|k: int|
        0 <= k < ps.len() && (if (#[trigger] ps[k]).len() <= size {
            ps[k] == p
        } else {
            fitting_part(p, ps[k], level, size)
        });
    lemma_part_among_taken(out, ps, ps.len(), k, level, size, overlap, p);
}

proof fn lemma_part_among_taken(
    out: Seq<Seq<char>>,
    ps: Seq<Seq<char>>,
    n: nat,
    k: int,
    level: nat,
    size: nat,
    overlap: nat,
    p: Seq<char>,
)
    requires
        !text::is_blank(p),
        0 <= k < n <= ps.len(),
        if ps[k].len() <= size {
            ps[k] == p
        } else {
            fitting_part(p, ps[k], level, size)
        },
    ensures
        carried(chunker::absorb_all(out, ps, n, level, size, overlap), p),
    decreases level, 1nat, n,
{
    let m = (n - 1) as nat;
    let f = chunker::absorb_all(out, ps, m, level, size, overlap);
    if k < m {
        lemma_part_among_taken(out, ps, m, k, level, size, overlap, p);
        lemma_absorb_carries(f, ps[n - 1], level, size, overlap, p);
    } else if ps[k].len() <= size {
        lemma_absorb_carries(f, ps[n - 1], level, size, overlap, p);
    } else {
        lemma_part_is_taken(chunker::flushed(f), ps[k], level, size, overlap, p);
        assert(chunker::absorb(f, ps[k], level, size, overlap) == chunker::fill(
            chunker::flushed(f),
            ps[k],
            level,
            size,
            overlap,
        ));
    }
}

proof fn lemma_part_occurs(s: Seq<char>, sep: Seq<char>, start: int, i: int, k: int)
    requires
        0 <= start <= i <= s.len(),
        0 <= k < chunker::parts_from(s, sep, start, i).len(),
    ensures
        text::occurs(s, chunker::parts_from(s, sep, start, i)[k]),
    decreases s.len() - i,
{
    let ps = chunker::parts_from(s, sep, start, i);
    if i >= s.len() {
        assert(text::occurs_at(s, ps[0], start));
    } else if sep.len() > 0 && text::occurs_at(s, sep, i) {
        if k == 0 {
            assert(text::occurs_at(s, ps[0], start));
        } else {
            lemma_part_occurs(s, sep, i + sep.len(), i + sep.len(), k - 1);
        }
    } else {
        lemma_part_occurs(s, sep, start, i + 1, k);
    }
}

proof fn lemma_fitting_part_occurs(p: Seq<char>, s: Seq<char>, levels: nat, size: nat)
    requires
        fitting_part(p, s, levels, size),
    ensures
        text::occurs(s, p),
    decreases levels,
{
    let level = (levels - 1) as nat;
    let ps = chunker::parts_of(s, chunker::separator(level));
    let k = choose|k: int|
        0 <= k < ps.len() && (if (#[trigger] ps[k]).len() <= size {
            ps[k] == p
        } else {
            fitting_part(p, ps[k], level, size)
        });
    lemma_part_occurs(s, chunker::separator(level), 0, 0, k);
    if ps[k].len() > size {
        lemma_fitting_part_occurs(p, ps[k], level, size);
        let i = choose|i: int| text::occurs_at(s, ps[k], i);
        let m = i + ps[k].len();
        lemma_occurs_in_longer(s.take(i), ps[k], s.skip(m), p);
        assert(s.take(i) + s.subrange(i, m) + s.skip(m) =~= s);
    }
}

proof fn lemma_without_blank_keeps(v: Seq<Seq<char>>, p: Seq<char>)
    requires
        kept(v, p),
        !text::is_blank(p),
    ensures
        kept(chunker::without_blank(v), p),
    decreases v.len(),
{
    let k = choose|k: int| 0 <= k < v.len() && text::occurs(#[trigger] v[k], p);
    let head = v.drop_last();
    let r = chunker::without_blank(v);
    if k == v.len() - 1 {
        lemma_occurs_not_blank(v.last(), p);
        assert(r[r.len() - 1] == v[k]);
    } else {
        assert(head[k] == v[k]);
        lemma_without_blank_keeps(head, p);
        let h = chunker::without_blank(head);
        let j = choose|j: int| 0 <= j < h.len() && text::occurs(#[trigger] h[j], p);
        assert(r[j] == h[j]);
    }
}

/// Nothing that fits in a chunk is torn apart: every paragraph of a plain text
/// that fits, every line that fits of a paragraph that does not, and every word
/// that fits of a line that does not stands whole in one of the chunks, unless
/// it is blank.
pub proof fn law_fitting_parts_are_kept(s: Seq<char>, size: nat, overlap: nat, p: Seq<char>)
    requires
        size > 0,
        fitting_part(p, s, 3, size),
        !text::is_blank(p),
    ensures
        kept(chunker::plain_pieces(s, size, overlap), p),
{
    let out = chunker::split_text(s, size, overlap);
    if s.len() <= size {
        lemma_fitting_part_occurs(p, s, 3, size);
        assert(out[0] == s);
    } else {
        lemma_part_is_taken(Seq::empty(), s, 3, size, overlap, p);
        lemma_flushed_carries(chunker::fill(Seq::empty(), s, 3, size, overlap), p);
    }
    lemma_without_blank_keeps(out, p);
}

// ---------------------------------------------------------------------------
// Overlap
// ---------------------------------------------------------------------------

/// Whether each text begins with the last `n` characters of the one before.
pub open spec fn chained(out: Seq<Seq<char>>, n: nat) -> bool {
    forall|k: int|
        0 < k < out.len() ==> chunker::tail(out[k - 1], n).is_prefix_of(#[trigger] out[k])
}

/// What holds while parts are gathered and none is cut by length: the chunks are
/// chained, and the one being filled, once it is begun, continues the last.
pub open spec fn continuing(f: Filling, n: nat) -> bool {
    &&& chained(f.out, n)
    &&& f.out.len() > 0 && f.buffer.len() > 0 ==> chunker::tail(f.out.last(), n).is_prefix_of(
        f.buffer,
    )
}

/// Whether no part of a text is left too long once it is split at the first
/// `levels` separators.
pub open spec fn divisible(s: Seq<char>, levels: nat, size: nat) -> bool
    decreases levels,
{
    &&& levels > 0
    &&& {
        let level = (levels - 1) as nat;
        let ps = chunker::parts_of(s, chunker::separator(level));
        forall|k: int|
            0 <= k < ps.len() && (#[trigger] ps[k]).len() > size ==> divisible(ps[k], level, size)
    }
}

proof fn lemma_flushed_chained(f: Filling, n: nat)
    requires
        continuing(f, n),
    ensures
        chained(chunker::flushed(f), n),
{
    let out = chunker::flushed(f);
    assert forall|k: int| 0 < k < out.len() implies chunker::tail(out[k - 1], n).is_prefix_of(
        #[trigger] out[k],
    ) by {
        assert(out[k - 1] == f.out[k - 1]);
        if k < f.out.len() {
            assert(out[k] == f.out[k]);
        }
    }
}

proof fn lemma_fill_continues(
    out: Seq<Seq<char>>,
    s: Seq<char>,
    levels: nat,
    size: nat,
    overlap: nat,
)
    requires
        chained(out, overlap),
        divisible(s, levels, size),
    ensures
        continuing(chunker::fill(out, s, levels, size, overlap), overlap),
    decreases levels, 0nat, 0nat,
{
    let level = (levels - 1) as nat;
    let ps = chunker::parts_of(s, chunker::separator(level));
    lemma_absorb_continues(out, ps, ps.len(), level, size, overlap);
}

proof fn lemma_absorb_continues(
    out: Seq<Seq<char>>,
    ps: Seq<Seq<char>>,
    n: nat,
    level: nat,
    size: nat,
    overlap: nat,
)
    requires
        n <= ps.len(),
        chained(out, overlap),
        forall|k: int|
            0 <= k < ps.len() && (#[trigger] ps[k]).len() > size ==> divisible(ps[k], level, size),
    ensures
        continuing(chunker::absorb_all(out, ps, n, level, size, overlap), overlap),
    decreases level, 1nat, n,
{
    if n > 0 {
        let m = (n - 1) as nat;
        lemma_absorb_continues(out, ps, m, level, size, overlap);
        let f = chunker::absorb_all(out, ps, m, level, size, overlap);
        let g = chunker::absorb(f, ps[n - 1], level, size, overlap);
        lemma_flushed_chained(f, overlap);
        if ps[n - 1].len() > size {
            lemma_fill_continues(chunker::flushed(f), ps[n - 1], level, size, overlap);
        } else if g.out.len() > 0 {
            let t = chunker::last_tail(g.out, overlap);
            assert(t =~= g.buffer.take(t.len() as int));
        }
    }
}

/// In a text without a word that is too long for a chunk, each chunk begins with
/// the last `overlap` characters of the one before.
pub proof fn law_chunks_overlap(s: Seq<char>, size: nat, overlap: nat)
    requires
        divisible(s, 3, size),
    ensures
        chained(chunker::split_text(s, size, overlap), overlap),
{
    if size > 0 && s.len() > size {
        lemma_fill_continues(Seq::empty(), s, 3, size, overlap);
        lemma_flushed_chained(chunker::fill(Seq::empty(), s, 3, size, overlap), overlap);
    }
}

// ---------------------------------------------------------------------------
// Sections
// ---------------------------------------------------------------------------

/// The texts one after the other.
pub open spec fn concat(v: Seq<Seq<char>>) -> Seq<char>
    decreases v.len(),
{
    if v.len() == 0 {
        Seq::empty()
    } else {
        concat(v.drop_last()) + v.last()
    }
}

/// The first `n` lines, each with a line feed.
pub open spec fn first_lines(lines: Seq<Seq<char>>, n: nat) -> Seq<char>
    decreases n,
{
    if n == 0 || n > lines.len() {
        Seq::empty()
    } else {
        first_lines(lines, (n - 1) as nat) + lines[n - 1].push('\n')
    }
}

/// Reading sections neither drops nor moves a line: the finished sections and
/// the current one hold the lines read so far in order.
pub proof fn law_sections_hold_all_lines(lines: Seq<Seq<char>>, n: nat)
    requires
        n <= lines.len(),
    ensures
        concat(chunker::read_lines(lines, n).done) + chunker::read_lines(lines, n).current
            == first_lines(lines, n),
    decreases n,
{
    let g = chunker::read_lines(lines, n);
    if n > 0 {
        law_sections_hold_all_lines(lines, (n - 1) as nat);
        let r = chunker::read_lines(lines, (n - 1) as nat);
        let line = lines[n - 1];
        if chunker::is_heading(line) && !text::is_blank(r.current) {
            assert(g.done.drop_last() =~= r.done);
            assert(concat(g.done) == concat(r.done) + r.current);
        }
        assert(concat(g.done) + g.current =~= first_lines(lines, n));
    } else {
        assert(concat(g.done) + g.current =~= first_lines(lines, n));
    }
}

/// Every section but the first begins with a heading.
pub proof fn law_sections_begin_with_headings(s: Seq<char>, k: int)
    requires
        0 < k < chunker::sections_of(s).len(),
    ensures
        chunker::is_heading(chunker::sections_of(s)[k]),
{
    let lines = chunker::lines_of(s);
    lemma_read_headings(lines, lines.len());
    let r = chunker::read_lines(lines, lines.len());
    if k < r.done.len() {
        assert(chunker::sections_of(s)[k] == r.done[k]);
    }
}

proof fn lemma_heading_extends(a: Seq<char>, b: Seq<char>)
    requires
        chunker::is_heading(a),
    ensures
        chunker::is_heading(a + b),
{
    lemma_prefix_extends("## "@, a, b);
    lemma_prefix_extends("### "@, a, b);
    lemma_prefix_extends("#### "@, a, b);
}

proof fn lemma_prefix_extends(p: Seq<char>, a: Seq<char>, b: Seq<char>)
    ensures
        p.is_prefix_of(a) ==> p.is_prefix_of(a + b),
{
    if p.is_prefix_of(a) {
        assert((a + b).subrange(0, p.len() as int) =~= a.subrange(0, p.len() as int));
    }
}

proof fn lemma_read_headings(lines: Seq<Seq<char>>, n: nat)
    requires
        n <= lines.len(),
    ensures
        ({
            let r = chunker::read_lines(lines, n);
            &&& forall|k: int| 0 < k < r.done.len() ==> chunker::is_heading(#[trigger] r.done[k])
            &&& r.done.len() > 0 ==> chunker::is_heading(r.current)
        }),
    decreases n,
{
    if n > 0 {
        lemma_read_headings(lines, (n - 1) as nat);
        let r = chunker::read_lines(lines, (n - 1) as nat);
        let g = chunker::read_lines(lines, n);
        let line = lines[n - 1];
        if chunker::is_heading(line) && !text::is_blank(r.current) {
            lemma_heading_extends(line, seq!['\n']);
            assert(line + seq!['\n'] =~= line.push('\n'));
            assert forall|k: int| 0 < k < g.done.len() implies chunker::is_heading(
                #[trigger] g.done[k],
            ) by {
                if k < r.done.len() {
                    assert(g.done[k] == r.done[k]);
                }
            }
        } else if r.done.len() > 0 {
            lemma_heading_extends(r.current, line.push('\n'));
            assert(r.current + line.push('\n') =~= (r.current + line).push('\n'));
        }
    }
}

/// The chunk size set in decimal is the chunk size used, where it is allowed;
/// the overlap likewise.
pub proof fn law_settings_read_back(size: nat, overlap: nat)
    requires
        chunker::MIN_CHUNK_SIZE <= size <= chunker::MAX_CHUNK_SIZE,
        overlap <= size / 2,
    ensures
        chunker::chunk_size_of(Some(text::decimal(size))) == size,
        chunker::overlap_of(size, Some(text::decimal(overlap))) == overlap,
{
    text::law_decimal_reads_back(size);
    text::law_decimal_reads_back(overlap);
}

} // verus!
