//! Nothing of a document is lost in its chunks.

use crate::chunker;
use crate::chunker::Filling;
use crate::chunker_laws;
use crate::chunker_laws::concat;
use crate::text;
use vstd::prelude::*;

verus! {

// ---------------------------------------------------------------------------
// Texts without white space
// ---------------------------------------------------------------------------

/// A text without its white space.
pub open spec fn solid(s: Seq<char>) -> Seq<char>
    decreases s.len(),
{
    if s.len() == 0 {
        s
    } else if text::is_space(s.last()) {
        solid(s.drop_last())
    } else {
        solid(s.drop_last()).push(s.last())
    }
}

/// White space is what separates words: blanks, tabs and line ends are, and no
/// letter, digit or sign that is seen in ASCII is.
pub proof fn law_white_space_is_not_seen(c: char)
    ensures
        text::is_space(' '),
        text::is_space('\t'),
        text::is_space('\n'),
        text::is_space('\r'),
        '!' <= c <= '~' ==> !text::is_space(c),
{
}

proof fn lemma_solid_add(a: Seq<char>, b: Seq<char>)
    ensures
        solid(a + b) == solid(a) + solid(b),
    decreases b.len(),
{
    if b.len() == 0 {
        assert(a + b =~= a);
        assert(solid(a) + solid(b) =~= solid(a));
    } else {
        lemma_solid_add(a, b.drop_last());
        assert((a + b).drop_last() =~= a + b.drop_last());
        assert((a + b).last() == b.last());
        assert(solid(a + b) =~= solid(a) + solid(b));
    }
}

proof fn lemma_solid_blank(s: Seq<char>)
    requires
        text::is_blank(s),
    ensures
        solid(s).len() == 0,
    decreases s.len(),
{
    if s.len() > 0 {
        assert(text::is_space(s[s.len() - 1]));
        assert forall|i: int| 0 <= i < s.drop_last().len() implies text::is_space(
            #[trigger] s.drop_last()[i],
        ) by {
            assert(text::is_space(s[i]));
        }
        lemma_solid_blank(s.drop_last());
    }
}

proof fn lemma_separator_blank(level: nat)
    ensures
        solid(chunker::separator(level)).len() == 0,
{
    reveal_strlit(" ");
    reveal_strlit("\n");
    reveal_strlit("\n\n");
    let sep = chunker::separator(level);
    assert forall|i: int| 0 <= i < sep.len() implies text::is_space(#[trigger] sep[i]) by {}
    lemma_solid_blank(sep);
}

proof fn lemma_concat_add(a: Seq<Seq<char>>, b: Seq<Seq<char>>)
    ensures
        concat(a + b) == concat(a) + concat(b),
    decreases b.len(),
{
    if b.len() == 0 {
        assert(a + b =~= a);
        assert(concat(a) + concat(b) =~= concat(a));
    } else {
        lemma_concat_add(a, b.drop_last());
        assert((a + b).drop_last() =~= a + b.drop_last());
        assert((a + b).last() == b.last());
        assert(concat(a + b) =~= concat(a) + concat(b));
    }
}

proof fn lemma_concat_push(a: Seq<Seq<char>>, s: Seq<char>)
    ensures
        concat(a.push(s)) == concat(a) + s,
{
    assert(a.push(s).drop_last() =~= a);
}

proof fn lemma_concat_one(s: Seq<char>)
    ensures
        concat(seq![s]) == s,
{
    assert(seq![s].drop_last() =~= Seq::empty());
    assert(concat(Seq::empty()) == Seq::<char>::empty());
    assert(concat(seq![s]) =~= s);
}

proof fn lemma_solid_joined(v: Seq<Seq<char>>, sep: Seq<char>)
    requires
        solid(sep).len() == 0,
    ensures
        solid(text::joined(v, sep)) == solid(concat(v)),
    decreases v.len(),
{
    if v.len() == 0 {
    } else if v.len() == 1 {
        assert(v =~= seq![v[0]]);
        lemma_concat_one(v[0]);
    } else {
        let front = v.drop_last();
        lemma_solid_joined(front, sep);
        lemma_solid_add(text::joined(front, sep) + sep, v.last());
        lemma_solid_add(text::joined(front, sep), sep);
        lemma_solid_add(concat(front), v.last());
        assert(solid(text::joined(front, sep)) + solid(sep) =~= solid(text::joined(front, sep)));
    }
}

// ---------------------------------------------------------------------------
// One text within another
// ---------------------------------------------------------------------------

/// Whether the characters of `a` stand in `b` at the given positions, which rise.
pub open spec fn placed(a: Seq<char>, b: Seq<char>, at: Seq<int>) -> bool {
    &&& at.len() == a.len()
    &&& forall|i: int| 0 <= i < at.len() ==> 0 <= #[trigger] at[i] < b.len() && b[at[i]] == a[i]
    &&& forall|i: int, j: int| 0 <= i < j < at.len() ==> #[trigger] at[i] < #[trigger] at[j]
}

/// Whether the characters of `a` all stand in `b`, in their order.
pub open spec fn within(a: Seq<char>, b: Seq<char>) -> bool {
    exists|at: Seq<int>| placed(a, b, at)
}

/// Whether `b` says all that `a` says: the same where nothing is said twice, and
/// otherwise all of it in its order.
pub open spec fn covers(b: Seq<char>, a: Seq<char>, overlap: nat) -> bool {
    if overlap == 0 {
        a == b
    } else {
        within(a, b)
    }
}

proof fn lemma_within_self(a: Seq<char>)
    ensures
        within(a, a),
{
    assert(placed(a, a, Seq::new(a.len(), |i: int| i)));
}

proof fn lemma_within_add(a: Seq<char>, b: Seq<char>, c: Seq<char>, d: Seq<char>)
    requires
        within(a, b),
        within(c, d),
    ensures
        within(a + c, b + d),
{
    let f = choose|at: Seq<int>| placed(a, b, at);
    let g = choose|at: Seq<int>| placed(c, d, at);
    let h = Seq::new(
        f.len() + g.len(),
        |i: int|
            if i < f.len() {
                f[i]
            } else {
                b.len() + g[i - f.len()]
            },
    );
    assert forall|i: int| 0 <= i < h.len() implies 0 <= #[trigger] h[i] < (b + d).len() && (b
        + d)[h[i]] == (a + c)[i] by {
        if i < f.len() {
            assert(h[i] == f[i]);
        } else {
            assert(h[i] == b.len() + g[i - f.len()]);
        }
    }
    assert forall|i: int, j: int| 0 <= i < j < h.len() implies #[trigger] h[i] < #[trigger] h[j] by {
        if i < f.len() {
            assert(h[i] == f[i]);
            if j < f.len() {
                assert(h[j] == f[j]);
            } else {
                assert(g[j - f.len()] >= 0);
            }
        } else {
            assert(g[i - f.len()] < g[j - f.len()]);
        }
    }
    assert(placed(a + c, b + d, h));
}

proof fn lemma_covers_self(a: Seq<char>, overlap: nat)
    ensures
        covers(a, a, overlap),
{
    lemma_within_self(a);
}

proof fn lemma_covers_add(
    b: Seq<char>,
    a: Seq<char>,
    d: Seq<char>,
    c: Seq<char>,
    overlap: nat,
)
    requires
        covers(b, a, overlap),
        covers(d, c, overlap),
    ensures
        covers(b + d, a + c, overlap),
{
    if overlap > 0 {
        lemma_within_add(a, b, c, d);
    }
}

/// What is said besides, before or after, takes nothing away.
proof fn lemma_covers_more(x: Seq<char>, b: Seq<char>, a: Seq<char>, y: Seq<char>, overlap: nat)
    requires
        covers(b, a, overlap),
        overlap == 0 ==> x.len() == 0 && y.len() == 0,
    ensures
        covers(x + b + y, a, overlap),
{
    if overlap == 0 {
        assert(x + b + y =~= b);
    } else {
        let none = Seq::<char>::empty();
        assert(placed(none, x, Seq::empty()));
        assert(placed(none, y, Seq::empty()));
        lemma_within_add(none, x, a, b);
        assert(none + a =~= a);
        lemma_within_add(a, x + b, none, y);
        assert(a + none =~= a);
    }
}

// ---------------------------------------------------------------------------
// Splitting
// ---------------------------------------------------------------------------

proof fn lemma_windows_covered(s: Seq<char>, start: int, size: nat, step: nat, overlap: nat)
    requires
        0 <= start <= s.len(),
        0 < step <= size,
        overlap == 0 ==> step == size,
    ensures
        covers(
            solid(concat(chunker::windows(s, start, size, step))),
            solid(s.skip(start)),
            overlap,
        ),
    decreases s.len() - start,
{
    let ws = chunker::windows(s, start, size, step);
    if start >= s.len() {
        assert(s.skip(start) =~= Seq::empty());
        lemma_covers_self(Seq::empty(), overlap);
    } else {
        let end = chunker::window_end(s, start, size);
        let w = s.subrange(start, end);
        let this = if text::is_blank(w) {
            Seq::<Seq<char>>::empty()
        } else {
            seq![w]
        };
        if text::is_blank(w) {
            lemma_solid_blank(w);
            assert(solid(concat(this)) =~= solid(w));
        } else {
            lemma_concat_one(w);
        }
        if end >= s.len() {
            assert(w =~= s.skip(start));
            lemma_covers_self(solid(w), overlap);
        } else {
            let next = start + step;
            lemma_windows_covered(s, next, size, step, overlap);
            let rest = chunker::windows(s, next, size, step);
            lemma_concat_add(this, rest);
            lemma_solid_add(concat(this), concat(rest));
            let a = s.subrange(start, next);
            let b = s.subrange(next, end);
            assert(w =~= a + b);
            lemma_solid_add(a, b);
            assert(s.skip(start) =~= a + s.skip(next));
            lemma_solid_add(a, s.skip(next));
            lemma_covers_self(solid(a), overlap);
            if overlap == 0 {
                assert(b =~= Seq::empty());
            }
            lemma_covers_more(Seq::empty(), solid(a), solid(a), solid(b), overlap);
            assert(Seq::<char>::empty() + solid(a) + solid(b) =~= solid(w));
            lemma_covers_add(
                solid(w),
                solid(a),
                solid(concat(rest)),
                solid(s.skip(next)),
                overlap,
            );
        }
    }
}

/// What the chunks hold, the one being filled included, without white space.
pub open spec fn body(f: Filling) -> Seq<char> {
    solid(concat(f.out)) + solid(f.buffer)
}

proof fn lemma_flushed_body(f: Filling)
    ensures
        solid(concat(chunker::flushed(f))) == body(f),
{
    if text::is_blank(f.buffer) {
        lemma_solid_blank(f.buffer);
        assert(body(f) =~= solid(concat(f.out)));
    } else {
        lemma_concat_push(f.out, f.buffer);
        lemma_solid_add(concat(f.out), f.buffer);
    }
}

proof fn lemma_last_tail_none(out: Seq<Seq<char>>)
    ensures
        chunker::last_tail(out, 0).len() == 0,
{
}

proof fn lemma_linked_solid(head: Seq<char>, piece: Seq<char>, level: nat)
    ensures
        solid(chunker::linked(head, piece, chunker::separator(level))) == solid(head) + solid(
            piece,
        ),
{
    let sep = chunker::separator(level);
    lemma_separator_blank(level);
    if head.len() == 0 {
        assert(solid(head) + solid(piece) =~= solid(piece));
    } else {
        lemma_solid_add(head + sep, piece);
        lemma_solid_add(head, sep);
        assert(solid(head) + solid(sep) =~= solid(head));
    }
}

proof fn lemma_fill_covers(
    out: Seq<Seq<char>>,
    s: Seq<char>,
    levels: nat,
    size: nat,
    overlap: nat,
    x: Seq<char>,
)
    requires
        size > 0,
        covers(solid(concat(out)), x, overlap),
    ensures
        covers(body(chunker::fill(out, s, levels, size, overlap)), x + solid(s), overlap),
    decreases levels, 0nat, 0nat,
{
    let f = chunker::fill(out, s, levels, size, overlap);
    if levels == 0 {
        let t = chunker::last_tail(out, overlap);
        let seeded = t + s;
        let step = chunker::stride(size, overlap);
        let ws = chunker::windows(seeded, 0, size, step);
        lemma_windows_covered(seeded, 0, size, step, overlap);
        assert(seeded.skip(0) =~= seeded);
        lemma_solid_add(t, s);
        lemma_concat_add(out, ws);
        lemma_solid_add(concat(out), concat(ws));
        if overlap == 0 {
            lemma_last_tail_none(out);
            lemma_last_tail_none(out + ws);
            assert(t =~= Seq::empty());
            assert(seeded =~= s);
            assert(body(f) =~= solid(concat(out)) + solid(concat(ws)));
        } else {
            lemma_within_part(solid(t), solid(s), solid(concat(ws)));
            lemma_covers_add(solid(concat(out)), x, solid(concat(ws)), solid(s), overlap);
            lemma_covers_more(
                Seq::empty(),
                solid(concat(out)) + solid(concat(ws)),
                x + solid(s),
                solid(f.buffer),
                overlap,
            );
            assert(Seq::<char>::empty() + (solid(concat(out)) + solid(concat(ws))) + solid(
                f.buffer,
            ) =~= body(f));
        }
    } else {
        let level = (levels - 1) as nat;
        let ps = chunker::parts_of(s, chunker::separator(level));
        lemma_absorb_all_covers(out, ps, ps.len(), level, size, overlap, x);
        assert(ps.take(ps.len() as int) =~= ps);
        lemma_separator_blank(level);
        chunker_laws::law_parts_make_the_text(s, chunker::separator(level));
        lemma_solid_joined(ps, chunker::separator(level));
    }
}

proof fn lemma_within_part(a: Seq<char>, b: Seq<char>, c: Seq<char>)
    requires
        within(a + b, c),
    ensures
        within(b, c),
{
    let f = choose|at: Seq<int>| placed(a + b, c, at);
    let g = f.skip(a.len() as int);
    assert forall|i: int| 0 <= i < g.len() implies 0 <= #[trigger] g[i] < c.len() && c[g[i]]
        == b[i] by {
        assert(g[i] == f[a.len() + i]);
        assert((a + b)[a.len() + i] == b[i]);
    }
    assert forall|i: int, j: int| 0 <= i < j < g.len() implies #[trigger] g[i] < #[trigger] g[j] by {
        assert(f[a.len() + i] < f[a.len() + j]);
    }
    assert(placed(b, c, g));
}

proof fn lemma_absorb_covers(
    f: Filling,
    piece: Seq<char>,
    level: nat,
    size: nat,
    overlap: nat,
    x: Seq<char>,
)
    requires
        size > 0,
        covers(body(f), x, overlap),
    ensures
        covers(body(chunker::absorb(f, piece, level, size, overlap)), x + solid(piece), overlap),
    decreases level, 1nat, 0nat,
{
    let g = chunker::absorb(f, piece, level, size, overlap);
    let sep = chunker::separator(level);
    let out = chunker::flushed(f);
    lemma_flushed_body(f);
    if piece.len() > size {
        lemma_fill_covers(out, piece, level, size, overlap, x);
    } else if f.buffer.len() == 0 || f.buffer.len() + sep.len() + piece.len() > size {
        let t = chunker::last_tail(out, overlap);
        lemma_linked_solid(t, piece, level);
        lemma_covers_self(solid(piece), overlap);
        if overlap == 0 {
            lemma_last_tail_none(out);
            assert(t =~= Seq::empty());
        }
        lemma_covers_more(solid(t), solid(piece), solid(piece), Seq::empty(), overlap);
        assert(solid(t) + solid(piece) + Seq::<char>::empty() =~= solid(g.buffer));
        lemma_covers_add(body(f), x, solid(g.buffer), solid(piece), overlap);
    } else {
        lemma_linked_solid(f.buffer, piece, level);
        lemma_covers_self(solid(piece), overlap);
        lemma_covers_add(body(f), x, solid(piece), solid(piece), overlap);
        assert(body(f) + solid(piece) =~= body(g));
    }
}

proof fn lemma_absorb_all_covers(
    out: Seq<Seq<char>>,
    ps: Seq<Seq<char>>,
    n: nat,
    level: nat,
    size: nat,
    overlap: nat,
    x: Seq<char>,
)
    requires
        size > 0,
        n <= ps.len(),
        covers(solid(concat(out)), x, overlap),
    ensures
        covers(
            body(chunker::absorb_all(out, ps, n, level, size, overlap)),
            x + solid(concat(ps.take(n as int))),
            overlap,
        ),
    decreases level, 2nat, n,
{
    let f = chunker::absorb_all(out, ps, n, level, size, overlap);
    if n == 0 {
        assert(ps.take(0) =~= Seq::empty());
        assert(x + solid(concat(ps.take(0))) =~= x);
        assert(body(f) =~= solid(concat(out)));
    } else {
        let m = (n - 1) as nat;
        lemma_absorb_all_covers(out, ps, m, level, size, overlap, x);
        let y = x + solid(concat(ps.take(m as int)));
        lemma_absorb_covers(
            chunker::absorb_all(out, ps, m, level, size, overlap),
            ps[n - 1],
            level,
            size,
            overlap,
            y,
        );
        assert(ps.take(n as int) =~= ps.take(m as int).push(ps[n - 1]));
        lemma_concat_push(ps.take(m as int), ps[n - 1]);
        lemma_solid_add(concat(ps.take(m as int)), ps[n - 1]);
        assert(y + solid(ps[n - 1]) =~= x + solid(concat(ps.take(n as int))));
    }
}

proof fn lemma_split_covers(s: Seq<char>, size: nat, overlap: nat)
    requires
        size > 0,
    ensures
        covers(solid(concat(chunker::split_text(s, size, overlap))), solid(s), overlap),
{
    if s.len() <= size {
        lemma_concat_one(s);
        lemma_covers_self(solid(s), overlap);
    } else {
        let none = Seq::<Seq<char>>::empty();
        let f = chunker::fill(none, s, 3, size, overlap);
        lemma_covers_self(Seq::empty(), overlap);
        lemma_fill_covers(none, s, 3, size, overlap, Seq::empty());
        lemma_flushed_body(f);
        assert(Seq::<char>::empty() + solid(s) =~= solid(s));
    }
}

proof fn lemma_without_blank_solid(v: Seq<Seq<char>>)
    ensures
        solid(concat(chunker::without_blank(v))) == solid(concat(v)),
    decreases v.len(),
{
    if v.len() > 0 {
        let front = v.drop_last();
        lemma_without_blank_solid(front);
        lemma_solid_add(concat(front), v.last());
        if text::is_blank(v.last()) {
            lemma_solid_blank(v.last());
            assert(solid(concat(v)) =~= solid(concat(front)));
        } else {
            lemma_concat_push(chunker::without_blank(front), v.last());
            lemma_solid_add(concat(chunker::without_blank(front)), v.last());
        }
    }
}

proof fn lemma_parts_pure(s: Seq<char>, sep: Seq<char>, start: int, i: int, k: int, j: int)
    requires
        0 <= start <= i <= s.len(),
        sep.len() > 0,
        forall|j: int| start <= j < i ==> !#[trigger] text::occurs_at(s, sep, j),
        0 <= k < chunker::parts_from(s, sep, start, i).len(),
    ensures
        !text::occurs_at(chunker::parts_from(s, sep, start, i)[k], sep, j),
    decreases s.len() - i,
{
    let ps = chunker::parts_from(s, sep, start, i);
    if i >= s.len() {
        lemma_part_pure(s, sep, start, s.len() as int, j);
    } else if text::occurs_at(s, sep, i) {
        let next = i + sep.len();
        if k == 0 {
            lemma_part_pure(s, sep, start, i, j);
        } else {
            lemma_parts_pure(s, sep, next, next, k - 1, j);
            assert(ps[k] == chunker::parts_from(s, sep, next, next)[k - 1]);
        }
    } else {
        lemma_parts_pure(s, sep, start, i + 1, k, j);
    }
}

proof fn lemma_part_pure(s: Seq<char>, sep: Seq<char>, start: int, end: int, j: int)
    requires
        0 <= start <= end <= s.len(),
        sep.len() > 0,
        forall|j: int| start <= j < end ==> !#[trigger] text::occurs_at(s, sep, j),
    ensures
        !text::occurs_at(s.subrange(start, end), sep, j),
{
    let p = s.subrange(start, end);
    if text::occurs_at(p, sep, j) {
        assert(s.subrange(start + j, start + j + sep.len()) =~= p.subrange(j, j + sep.len()));
        assert(text::occurs_at(s, sep, start + j));
    }
}

/// A text is split at every separator: none is left within a part.
pub proof fn law_no_separator_is_left(s: Seq<char>, sep: Seq<char>, k: int)
    requires
        sep.len() > 0,
        0 <= k < chunker::parts_of(s, sep).len(),
    ensures
        !text::occurs(chunker::parts_of(s, sep)[k], sep),
{
    let p = chunker::parts_of(s, sep)[k];
    if text::occurs(p, sep) {
        let j = choose|j: int| text::occurs_at(p, sep, j);
        lemma_parts_pure(s, sep, 0, 0, k, j);
    }
}

/// The separators are the empty line, then the line feed, then the blank.
pub proof fn law_separators_get_finer()
    ensures
        chunker::separator(2) == seq!['\n', '\n'],
        chunker::separator(1) == seq!['\n'],
        chunker::separator(0) == seq![' '],
{
    reveal_strlit(" ");
    reveal_strlit("\n");
    reveal_strlit("\n\n");
    assert(" "@ =~= seq![' ']);
    assert("\n"@ =~= seq!['\n']);
    assert("\n\n"@ =~= seq!['\n', '\n']);
}

// ---------------------------------------------------------------------------
// Chunks as they stand in the text
// ---------------------------------------------------------------------------

/// Whether all texts stand in `t` as they are.
pub open spec fn verbatim(out: Seq<Seq<char>>, t: Seq<char>) -> bool {
    forall|k: int| 0 <= k < out.len() ==> text::occurs(t, #[trigger] out[k])
}

/// Whether `b` ends `u`.
pub open spec fn ends(u: Seq<char>, b: Seq<char>) -> bool {
    b.len() <= u.len() && u.skip(u.len() - b.len()) == b
}

proof fn lemma_end_occurs(u: Seq<char>, b: Seq<char>, t: Seq<char>)
    requires
        ends(u, b),
        u.is_prefix_of(t),
    ensures
        text::occurs(t, b),
{
    let k = u.len() - b.len();
    assert(t.subrange(0, u.len() as int) == u);
    assert(t.subrange(k, k + b.len()) =~= u.skip(k)) by {
        assert forall|i: int| 0 <= i < b.len() implies t.subrange(k, k + b.len())[i] == u.skip(
            k,
        )[i] by {
            assert(t.subrange(0, u.len() as int)[k + i] == u[k + i]);
        }
    }
    assert(text::occurs_at(t, b, k));
}

proof fn lemma_ends_add(u: Seq<char>, b: Seq<char>, x: Seq<char>)
    requires
        ends(u, b),
    ensures
        ends(u + x, b + x),
{
    let v = u + x;
    let w = b + x;
    assert(v.skip(v.len() - w.len()) =~= w) by {
        assert forall|i: int| 0 <= i < w.len() implies v.skip(v.len() - w.len())[i] == w[i] by {
            if i < b.len() {
                assert(u.skip(u.len() - b.len())[i] == b[i]);
            }
        }
    }
}

proof fn lemma_prefix_less(a: Seq<char>, b: Seq<char>, t: Seq<char>)
    requires
        (a + b).is_prefix_of(t),
    ensures
        a.is_prefix_of(t),
{
    let n = a.len() as int;
    assert(t.subrange(0, n) =~= t.subrange(0, (a + b).len() as int).subrange(0, n));
    assert((a + b).subrange(0, n) =~= a);
}

proof fn lemma_flushed_verbatim(f: Filling, u: Seq<char>, t: Seq<char>)
    requires
        verbatim(f.out, t),
        ends(u, f.buffer),
        u.is_prefix_of(t),
    ensures
        verbatim(chunker::flushed(f), t),
{
    lemma_end_occurs(u, f.buffer, t);
    let out = chunker::flushed(f);
    assert forall|k: int| 0 <= k < out.len() implies text::occurs(t, #[trigger] out[k]) by {
        if k < f.out.len() {
            assert(out[k] == f.out[k]);
        }
    }
}

proof fn lemma_windows_verbatim(
    s: Seq<char>,
    start: int,
    size: nat,
    step: nat,
    k: int,
)
    requires
        0 <= start,
        0 <= k < chunker::windows(s, start, size, step).len(),
    ensures
        text::occurs(s, chunker::windows(s, start, size, step)[k]),
    decreases (if start < s.len() { s.len() - start } else { 0 }),
{
    let ws = chunker::windows(s, start, size, step);
    let end = chunker::window_end(s, start, size);
    let w = s.subrange(start, end);
    let this = if text::is_blank(w) {
        Seq::<Seq<char>>::empty()
    } else {
        seq![w]
    };
    if k < this.len() {
        assert(ws[k] == w);
        assert(text::occurs_at(s, w, start));
    } else {
        lemma_windows_verbatim(s, start + step, size, step, k - this.len());
        assert(ws[k] == chunker::windows(s, start + step, size, step)[k - this.len()]);
    }
}

proof fn lemma_fill_verbatim(
    out: Seq<Seq<char>>,
    s: Seq<char>,
    levels: nat,
    size: nat,
    pre: Seq<char>,
    t: Seq<char>,
)
    requires
        size > 0,
        verbatim(out, t),
        (pre + s).is_prefix_of(t),
    ensures
        ({
            let f = chunker::fill(out, s, levels, size, 0);
            verbatim(f.out, t) && ends(pre + s, f.buffer)
        }),
    decreases levels, 0nat, 0nat,
{
    let f = chunker::fill(out, s, levels, size, 0);
    if levels == 0 {
        lemma_last_tail_none(out);
        let none = chunker::last_tail(out, 0);
        assert(none + s =~= s);
        let ws = chunker::windows(s, 0, size, chunker::stride(size, 0));
        lemma_last_tail_none(out + ws);
        assert(f.buffer =~= Seq::empty());
        let u = pre + s;
        assert(u.skip(u.len() as int) =~= f.buffer);
        assert forall|k: int| 0 <= k < f.out.len() implies text::occurs(t, #[trigger] f.out[k]) by {
            if k < out.len() {
                assert(f.out[k] == out[k]);
            } else {
                let w = ws[k - out.len()];
                assert(f.out[k] == w);
                lemma_windows_verbatim(s, 0, size, chunker::stride(size, 0), k - out.len());
                chunker_laws::lemma_occurs_in_longer(pre, s, t.skip(u.len() as int), w);
                assert(pre + s + t.skip(u.len() as int) =~= t) by {
                    assert(t.subrange(0, u.len() as int) == u);
                    assert(t =~= t.subrange(0, u.len() as int) + t.skip(u.len() as int));
                }
            }
        }
    } else {
        let level = (levels - 1) as nat;
        let sep = chunker::separator(level);
        let ps = chunker::parts_of(s, sep);
        chunker_laws::law_parts_make_the_text(s, sep);
        chunker_laws::lemma_parts_join(s, sep, 0, 0);
        assert(ps.take(ps.len() as int) =~= ps);
        lemma_absorb_all_verbatim(out, ps, ps.len(), level, size, pre, t);
    }
}

proof fn lemma_absorb_all_verbatim(
    out: Seq<Seq<char>>,
    ps: Seq<Seq<char>>,
    n: nat,
    level: nat,
    size: nat,
    pre: Seq<char>,
    t: Seq<char>,
)
    requires
        size > 0,
        n <= ps.len(),
        verbatim(out, t),
        (pre + text::joined(ps.take(n as int), chunker::separator(level))).is_prefix_of(t),
    ensures
        ({
            let f = chunker::absorb_all(out, ps, n, level, size, 0);
            &&& verbatim(f.out, t)
            &&& ends(
                pre + text::joined(ps.take(n as int), chunker::separator(level)),
                f.buffer,
            )
            &&& n == 0 ==> f.buffer.len() == 0
        }),
    decreases level, 2nat, n,
{
    let sep = chunker::separator(level);
    let f = chunker::absorb_all(out, ps, n, level, size, 0);
    let u = pre + text::joined(ps.take(n as int), sep);
    if n == 0 {
        assert(u.skip(u.len() as int) =~= f.buffer);
    } else {
        let m = (n - 1) as nat;
        let p = ps[n - 1];
        let before = pre + text::joined(ps.take(m as int), sep);
        assert(ps.take(n as int).drop_last() =~= ps.take(m as int));
        assert(ps.take(n as int).last() == p);
        let lead = if m == 0 {
            pre
        } else {
            before + sep
        };
        if m == 0 {
            assert(ps.take(n as int) =~= seq![p]);
            assert(text::joined(ps.take(n as int), sep) == p);
            assert(text::joined(ps.take(0), sep) =~= Seq::empty());
            assert(before =~= pre);
            assert(u =~= lead + p);
        } else {
            assert(u =~= lead + p);
        }
        lemma_prefix_less(lead, p, t);
        if m > 0 {
            lemma_prefix_less(before, sep, t);
        }
        lemma_absorb_all_verbatim(out, ps, m, level, size, pre, t);
        lemma_absorb_verbatim(
            chunker::absorb_all(out, ps, m, level, size, 0),
            p,
            level,
            size,
            before,
            lead,
            t,
        );
    }
}

proof fn lemma_absorb_verbatim(
    f: Filling,
    p: Seq<char>,
    level: nat,
    size: nat,
    before: Seq<char>,
    lead: Seq<char>,
    t: Seq<char>,
)
    requires
        size > 0,
        verbatim(f.out, t),
        ends(before, f.buffer),
        before.is_prefix_of(t),
        f.buffer.len() > 0 ==> lead == before + chunker::separator(level),
        (lead + p).is_prefix_of(t),
    ensures
        ({
            let g = chunker::absorb(f, p, level, size, 0);
            verbatim(g.out, t) && ends(lead + p, g.buffer)
        }),
    decreases level, 1nat, 0nat,
{
    let sep = chunker::separator(level);
    let g = chunker::absorb(f, p, level, size, 0);
    let out = chunker::flushed(f);
    lemma_flushed_verbatim(f, before, t);
    if p.len() > size {
        lemma_fill_verbatim(out, p, level, size, lead, t);
    } else if f.buffer.len() == 0 || f.buffer.len() + sep.len() + p.len() > size {
        lemma_last_tail_none(out);
        assert(g.buffer == p);
        let u = lead + p;
        assert(u.skip(u.len() - p.len()) =~= p);
    } else {
        lemma_ends_add(before, f.buffer, sep);
        lemma_ends_add(before + sep, f.buffer + sep, p);
    }
}

/// Without overlap every chunk of a plain text stands in the text as it is,
/// between its neighbours' characters and with its own line ends and blanks.
pub proof fn law_plain_chunks_stand_in_the_text(s: Seq<char>, size: nat, k: int)
    requires
        size >= 1,
        0 <= k < chunker::plain_pieces(s, size, 0).len(),
    ensures
        text::occurs(s, chunker::plain_pieces(s, size, 0)[k]),
{
    let v = chunker::split_text(s, size, 0);
    if s.len() <= size {
        assert(s.subrange(0, s.len() as int) =~= s);
        assert(text::occurs_at(s, s, 0));
        assert(verbatim(v, s));
    } else {
        let none = Seq::<char>::empty();
        assert(none + s =~= s);
        assert(s.subrange(0, s.len() as int) =~= s);
        lemma_fill_verbatim(Seq::empty(), s, 3, size, none, s);
        lemma_flushed_verbatim(chunker::fill(Seq::empty(), s, 3, size, 0), s, s);
    }
    lemma_without_blank_verbatim(v, s);
}

proof fn lemma_without_blank_verbatim(v: Seq<Seq<char>>, t: Seq<char>)
    requires
        verbatim(v, t),
    ensures
        verbatim(chunker::without_blank(v), t),
    decreases v.len(),
{
    if v.len() > 0 {
        let front = v.drop_last();
        assert forall|k: int| 0 <= k < front.len() implies text::occurs(t, #[trigger] front[k]) by {
            assert(front[k] == v[k]);
        }
        lemma_without_blank_verbatim(front, t);
        let a = chunker::without_blank(front);
        let b = chunker::without_blank(v);
        assert(text::occurs(t, v[v.len() - 1]));
        assert forall|k: int| 0 <= k < b.len() implies text::occurs(t, #[trigger] b[k]) by {
            if k < a.len() {
                assert(b[k] == a[k]);
            }
        }
    }
}

// ---------------------------------------------------------------------------
// Sections
// ---------------------------------------------------------------------------

proof fn lemma_lines_solid(s: Seq<char>, start: int, i: int)
    requires
        0 <= start <= i <= s.len(),
    ensures
        ({
            let ls = chunker::lines_from(s, start, i);
            solid(chunker_laws::first_lines(ls, ls.len())) == solid(s.skip(start))
        }),
    decreases s.len() - i,
{
    let ls = chunker::lines_from(s, start, i);
    if i >= s.len() {
        if start < s.len() {
            let line = s.subrange(start, s.len() as int);
            assert(line =~= s.skip(start));
            assert(ls[0] == line);
            assert(chunker_laws::first_lines(ls, 0) == Seq::<char>::empty());
            assert(chunker_laws::first_lines(ls, 1) =~= line.push('\n'));
            assert(line.push('\n').drop_last() =~= line);
        } else {
            assert(s.skip(start) =~= Seq::empty());
        }
    } else if s[i] == '\n' {
        let rest = chunker::lines_from(s, i + 1, i + 1);
        lemma_lines_solid(s, i + 1, i + 1);
        let line = s.subrange(start, i);
        let first = chunker::chop_return(line);
        lemma_first_lines_front(first, rest, rest.len());
        lemma_solid_add(first.push('\n'), chunker_laws::first_lines(rest, rest.len()));
        assert(first.push('\n').drop_last() =~= first);
        assert(solid(first) == solid(line));
        assert(s.skip(start) =~= line.push('\n') + s.skip(i + 1));
        lemma_solid_add(line.push('\n'), s.skip(i + 1));
        assert(line.push('\n').drop_last() =~= line);
    } else {
        lemma_lines_solid(s, start, i + 1);
    }
}

proof fn lemma_first_lines_front(first: Seq<char>, rest: Seq<Seq<char>>, n: nat)
    requires
        n <= rest.len(),
    ensures
        chunker_laws::first_lines(seq![first] + rest, n + 1) == first.push('\n')
            + chunker_laws::first_lines(rest, n),
    decreases n,
{
    let all = seq![first] + rest;
    assert(all[n as int] == if n == 0 {
        first
    } else {
        rest[n - 1]
    });
    if n == 0 {
        assert(chunker_laws::first_lines(all, 0) == Seq::<char>::empty());
        assert(chunker_laws::first_lines(all, 1) =~= first.push('\n')
            + chunker_laws::first_lines(rest, 0));
    } else {
        lemma_first_lines_front(first, rest, (n - 1) as nat);
        assert(chunker_laws::first_lines(all, n + 1) =~= first.push('\n')
            + chunker_laws::first_lines(rest, n));
    }
}

/// What is missing of a text so that its last line ends.
pub open spec fn last_end(s: Seq<char>) -> Seq<char> {
    if s.len() == 0 || s.last() == '\n' {
        Seq::empty()
    } else {
        seq!['\n']
    }
}

proof fn lemma_lines_whole(s: Seq<char>, start: int, i: int)
    requires
        0 <= start <= i <= s.len(),
        forall|j: int| 0 <= j < s.len() ==> #[trigger] s[j] != '\r',
        start < i ==> s[i - 1] != '\n',
        start > 0 ==> s[start - 1] == '\n',
    ensures
        ({
            let ls = chunker::lines_from(s, start, i);
            chunker_laws::first_lines(ls, ls.len()) == s.skip(start) + last_end(s)
        }),
    decreases s.len() - i,
{
    let ls = chunker::lines_from(s, start, i);
    if i >= s.len() {
        if start < s.len() {
            let line = s.subrange(start, s.len() as int);
            assert(line =~= s.skip(start));
            assert(ls[0] == line);
            assert(chunker_laws::first_lines(ls, 0) == Seq::<char>::empty());
            assert(chunker_laws::first_lines(ls, 1) =~= line.push('\n'));
            assert(s.last() == s[i - 1]);
            assert(line.push('\n') =~= s.skip(start) + last_end(s));
        } else {
            assert(ls.len() == 0);
            assert(s.skip(start) + last_end(s) =~= Seq::empty());
        }
    } else if s[i] == '\n' {
        let rest = chunker::lines_from(s, i + 1, i + 1);
        lemma_lines_whole(s, i + 1, i + 1);
        let line = s.subrange(start, i);
        if line.len() > 0 {
            assert(line.last() == s[i - 1]);
        }
        assert(chunker::chop_return(line) == line);
        lemma_first_lines_front(line, rest, rest.len());
        assert(s.skip(start) =~= line.push('\n') + s.skip(i + 1));
        assert(line.push('\n') + (s.skip(i + 1) + last_end(s)) =~= s.skip(start) + last_end(s));
    } else {
        lemma_lines_whole(s, start, i + 1);
    }
}

/// Reading lines changes nothing of a text without carriage returns: the sections
/// of a markdown text, one after the other, are the text with an end to its last
/// line, unless white space alone is left over at the end.
pub proof fn law_sections_make_the_text(s: Seq<char>) -> (left: Seq<char>)
    requires
        forall|j: int| 0 <= j < s.len() ==> #[trigger] s[j] != '\r',
    ensures
        concat(chunker::sections_of(s)) + left == s + last_end(s),
        text::is_blank(left),
{
    let lines = chunker::lines_of(s);
    let r = chunker::read_lines(lines, lines.len());
    chunker_laws::law_sections_hold_all_lines(lines, lines.len());
    lemma_lines_whole(s, 0, 0);
    assert(s.skip(0) =~= s);
    if text::is_blank(r.current) {
        r.current
    } else {
        lemma_concat_push(r.done, r.current);
        let none = Seq::<char>::empty();
        assert(concat(chunker::sections_of(s)) + none =~= s + last_end(s));
        none
    }
}

proof fn lemma_sections_solid(s: Seq<char>)
    ensures
        solid(concat(chunker::sections_of(s))) == solid(s),
{
    let lines = chunker::lines_of(s);
    let r = chunker::read_lines(lines, lines.len());
    chunker_laws::law_sections_hold_all_lines(lines, lines.len());
    lemma_lines_solid(s, 0, 0);
    assert(s.skip(0) =~= s);
    lemma_solid_add(concat(r.done), r.current);
    if text::is_blank(r.current) {
        lemma_solid_blank(r.current);
        assert(solid(concat(r.done)) + solid(r.current) =~= solid(concat(r.done)));
    } else {
        lemma_concat_push(r.done, r.current);
    }
}

proof fn lemma_coalesced_solid(ss: Seq<Seq<char>>, limit: nat, i: int)
    requires
        0 <= i <= ss.len(),
    ensures
        solid(concat(chunker::coalesced(ss, limit, i))) == solid(concat(ss.skip(i))),
    decreases ss.len() - i,
{
    let out = chunker::coalesced(ss, limit, i);
    if i < ss.len() {
        lemma_coalesced_solid(ss, limit, i + 1);
        let rest = chunker::coalesced(ss, limit, i + 1);
        let s = ss[i];
        assert(ss.skip(i) =~= seq![s] + ss.skip(i + 1));
        lemma_concat_add(seq![s], ss.skip(i + 1));
        lemma_concat_one(s);
        lemma_solid_add(s, concat(ss.skip(i + 1)));
        if s.len() < limit && rest.len() > 0 {
            let both = s + "\n\n"@ + rest[0];
            let tail = rest.drop_first();
            lemma_concat_add(seq![both], tail);
            lemma_concat_one(both);
            assert(rest =~= seq![rest[0]] + tail);
            lemma_concat_add(seq![rest[0]], tail);
            lemma_concat_one(rest[0]);
            lemma_separator_blank(2);
            lemma_solid_add(both, concat(tail));
            lemma_solid_add(s + "\n\n"@, rest[0]);
            lemma_solid_add(s, "\n\n"@);
            lemma_solid_add(rest[0], concat(tail));
            assert(solid(s) + solid("\n\n"@) =~= solid(s));
            assert(solid(s) + solid(rest[0]) + solid(concat(tail)) =~= solid(s) + (solid(rest[0])
                + solid(concat(tail))));
        } else {
            lemma_concat_add(seq![s], rest);
            lemma_solid_add(s, concat(rest));
        }
    } else {
        assert(ss.skip(i) =~= Seq::empty());
    }
}

proof fn lemma_section_pieces_cover(ss: Seq<Seq<char>>, n: nat, size: nat, overlap: nat)
    requires
        size > 0,
        n <= ss.len(),
    ensures
        covers(
            solid(concat(chunker::section_pieces(ss, n, size, overlap))),
            solid(concat(ss.take(n as int))),
            overlap,
        ),
    decreases n,
{
    if n == 0 {
        assert(ss.take(0) =~= Seq::empty());
        lemma_covers_self(solid(concat(Seq::empty())), overlap);
    } else {
        let m = (n - 1) as nat;
        lemma_section_pieces_cover(ss, m, size, overlap);
        let s = ss[n - 1];
        let before = chunker::section_pieces(ss, m, size, overlap);
        let more = if s.len() <= size {
            seq![s]
        } else {
            chunker::without_blank(chunker::split_text(s, size, overlap))
        };
        if s.len() <= size {
            lemma_concat_one(s);
            lemma_covers_self(solid(s), overlap);
        } else {
            lemma_split_covers(s, size, overlap);
            lemma_without_blank_solid(chunker::split_text(s, size, overlap));
        }
        lemma_concat_add(before, more);
        lemma_solid_add(concat(before), concat(more));
        assert(ss.take(n as int) =~= ss.take(m as int).push(s));
        lemma_concat_push(ss.take(m as int), s);
        lemma_solid_add(concat(ss.take(m as int)), s);
        lemma_covers_add(
            solid(concat(before)),
            solid(concat(ss.take(m as int))),
            solid(concat(more)),
            solid(s),
            overlap,
        );
    }
}

// ---------------------------------------------------------------------------
// Documents
// ---------------------------------------------------------------------------

/// The texts of chunks, in their order.
pub open spec fn texts_of(cs: Seq<chunker::ChunkV>) -> Seq<Seq<char>> {
    Seq::new(cs.len(), |i: int| cs[i].text)
}

proof fn lemma_numbered_texts(pieces: Seq<Seq<char>>, parent: Seq<char>)
    ensures
        texts_of(chunker::numbered(pieces, parent)) == pieces,
{
    assert(texts_of(chunker::numbered(pieces, parent)) =~= pieces);
}

/// Nothing of a plain text is lost: without overlap the texts of the chunks, put
/// together, are the text again, but for white space; with overlap they hold all
/// of it in its order.
pub proof fn law_plain_chunks_hold_the_text(
    s: Seq<char>,
    parent: Seq<char>,
    size: nat,
    overlap: nat,
)
    requires
        size >= 1,
    ensures
        ({
            let cs = chunker::numbered(chunker::plain_pieces(s, size, overlap), parent);
            let said = solid(concat(texts_of(cs)));
            &&& overlap == 0 ==> said == solid(s)
            &&& within(solid(s), said)
        }),
{
    lemma_split_covers(s, size, overlap);
    lemma_without_blank_solid(chunker::split_text(s, size, overlap));
    lemma_numbered_texts(chunker::plain_pieces(s, size, overlap), parent);
    lemma_within_self(solid(s));
}

/// Nothing of a markdown text is lost: without overlap the texts of the chunks,
/// put together, are the text again, but for white space; with overlap they hold
/// all of it in its order.
pub proof fn law_markdown_chunks_hold_the_text(
    s: Seq<char>,
    parent: Seq<char>,
    size: nat,
    overlap: nat,
)
    requires
        size >= 1,
    ensures
        ({
            let cs = chunker::numbered(chunker::markdown_pieces(s, size, overlap), parent);
            let said = solid(concat(texts_of(cs)));
            &&& overlap == 0 ==> said == solid(s)
            &&& within(solid(s), said)
        }),
{
    let limit = chunker::short_limit(size);
    let raw = chunker::sections_of(s);
    let ss = chunker::coalesced(raw, limit, 0);
    lemma_sections_solid(s);
    lemma_coalesced_solid(raw, limit, 0);
    assert(raw.skip(0) =~= raw);
    lemma_section_pieces_cover(ss, ss.len(), size, overlap);
    assert(ss.take(ss.len() as int) =~= ss);
    lemma_numbered_texts(chunker::markdown_pieces(s, size, overlap), parent);
    lemma_within_self(solid(s));
}

/// Nothing of a document is lost, whatever kind of text it is taken for.
pub proof fn law_document_chunks_hold_the_text(
    s: Seq<char>,
    language: Option<Seq<char>>,
    path: Seq<char>,
    parent: Seq<char>,
    size: nat,
    overlap: nat,
)
    requires
        size >= 1,
    ensures
        ({
            let cs = chunker::numbered(
                chunker::document_pieces(s, language, path, size, overlap),
                parent,
            );
            let said = solid(concat(texts_of(cs)));
            &&& overlap == 0 ==> said == solid(s)
            &&& within(solid(s), said)
        }),
{
    law_plain_chunks_hold_the_text(s, parent, size, overlap);
    law_markdown_chunks_hold_the_text(s, parent, size, overlap);
}

/// The chunks of a document are counted from zero, name the document, and have
/// an id made of the document, their position and their text.
pub proof fn law_chunks_are_numbered(pieces: Seq<Seq<char>>, parent: Seq<char>, i: int)
    requires
        0 <= i < pieces.len() <= u32::MAX,
    ensures
        ({
            let cs = chunker::numbered(pieces, parent);
            &&& cs.len() == pieces.len()
            &&& cs[i].chunk_index == i
            &&& cs[i].parent_doc_id == parent
            &&& cs[i].text == pieces[i]
            &&& cs[i].chunk_id == crate::hash::blake3_hex(
                parent + ":"@ + text::zero_padded(text::decimal(i as nat), 10) + ":"@ + pieces[i],
            )
        }),
{
}

// ---------------------------------------------------------------------------
// Markdown
// ---------------------------------------------------------------------------

/// The chunks of the first `n` texts, each taken as a plain text.
pub open spec fn each_plain(ss: Seq<Seq<char>>, n: nat, size: nat, overlap: nat) -> Seq<Seq<char>>
    decreases n,
{
    if n == 0 || n > ss.len() {
        Seq::empty()
    } else {
        each_plain(ss, (n - 1) as nat, size, overlap) + chunker::plain_pieces(
            ss[n - 1],
            size,
            overlap,
        )
    }
}

proof fn lemma_each_plain(ss: Seq<Seq<char>>, n: nat, size: nat, overlap: nat)
    requires
        size > 0,
        n <= ss.len(),
        chunker_laws::none_blank(ss),
    ensures
        chunker::section_pieces(ss, n, size, overlap) == each_plain(ss, n, size, overlap),
    decreases n,
{
    if n > 0 {
        lemma_each_plain(ss, (n - 1) as nat, size, overlap);
        let s = ss[n - 1];
        assert(!text::is_blank(s));
        if s.len() <= size {
            let one = seq![s];
            assert(one.drop_last() =~= Seq::empty());
            assert(chunker::without_blank(one.drop_last()) == Seq::<Seq<char>>::empty());
            assert(chunker::without_blank(one) =~= one);
        }
    }
}

/// The chunks of a markdown text are those of its sections, one after the other,
/// each taken as a plain text: they are as long and overlap as those of a plain
/// text do.
pub proof fn law_sections_are_chunked_as_plain_text(s: Seq<char>, size: nat, overlap: nat)
    requires
        size >= 1,
    ensures
        ({
            let ss = chunker::coalesced(chunker::sections_of(s), chunker::short_limit(size), 0);
            chunker::markdown_pieces(s, size, overlap) == each_plain(
                ss,
                ss.len(),
                size,
                overlap,
            )
        }),
{
    chunker_laws::lemma_sections_there(s, size);
    let ss = chunker::coalesced(chunker::sections_of(s), chunker::short_limit(size), 0);
    lemma_each_plain(ss, ss.len(), size, overlap);
}

proof fn lemma_each_plain_keeps(
    ss: Seq<Seq<char>>,
    n: nat,
    k: int,
    size: nat,
    overlap: nat,
    p: Seq<char>,
)
    requires
        0 <= k < n <= ss.len(),
        chunker_laws::kept(chunker::plain_pieces(ss[k], size, overlap), p),
    ensures
        chunker_laws::kept(each_plain(ss, n, size, overlap), p),
    decreases n,
{
    let all = each_plain(ss, n, size, overlap);
    let before = each_plain(ss, (n - 1) as nat, size, overlap);
    let last = chunker::plain_pieces(ss[n - 1], size, overlap);
    if k < n - 1 {
        lemma_each_plain_keeps(ss, (n - 1) as nat, k, size, overlap, p);
        let j = choose|j: int| 0 <= j < before.len() && text::occurs(#[trigger] before[j], p);
        assert(all[j] == before[j]);
    } else {
        let j = choose|j: int| 0 <= j < last.len() && text::occurs(#[trigger] last[j], p);
        assert(all[before.len() + j] == last[j]);
    }
}

/// Nothing that fits in a chunk is torn apart in a markdown text either: every
/// paragraph of a section that fits, every line that fits of a paragraph that
/// does not, and every word that fits of a line that does not stands whole in
/// one of the chunks, unless it is blank.
pub proof fn law_fitting_parts_of_sections_are_kept(
    s: Seq<char>,
    size: nat,
    overlap: nat,
    k: int,
    p: Seq<char>,
)
    requires
        size >= 1,
        0 <= k < chunker::coalesced(
            chunker::sections_of(s),
            chunker::short_limit(size),
            0,
        ).len(),
        chunker_laws::fitting_part(
            p,
            chunker::coalesced(chunker::sections_of(s), chunker::short_limit(size), 0)[k],
            3,
            size,
        ),
        !text::is_blank(p),
    ensures
        chunker_laws::kept(chunker::markdown_pieces(s, size, overlap), p),
{
    let ss = chunker::coalesced(chunker::sections_of(s), chunker::short_limit(size), 0);
    law_sections_are_chunked_as_plain_text(s, size, overlap);
    chunker_laws::law_fitting_parts_are_kept(ss[k], size, overlap, p);
    lemma_each_plain_keeps(ss, ss.len(), k, size, overlap, p);
}

proof fn lemma_each_plain_verbatim(ss: Seq<Seq<char>>, n: nat, size: nat, k: int)
    requires
        size > 0,
        n <= ss.len(),
        0 <= k < each_plain(ss, n, size, 0).len(),
    ensures
        exists|i: int|
            0 <= i < n && text::occurs(#[trigger] ss[i], each_plain(ss, n, size, 0)[k]),
    decreases n,
{
    let all = each_plain(ss, n, size, 0);
    let before = each_plain(ss, (n - 1) as nat, size, 0);
    if k < before.len() {
        lemma_each_plain_verbatim(ss, (n - 1) as nat, size, k);
        assert(all[k] == before[k]);
        let i = choose|i: int| 0 <= i < n - 1 && text::occurs(#[trigger] ss[i], before[k]);
        assert(text::occurs(ss[i], all[k]));
    } else {
        law_plain_chunks_stand_in_the_text(ss[n - 1], size, k - before.len());
        assert(all[k] == chunker::plain_pieces(ss[n - 1], size, 0)[k - before.len()]);
        assert(text::occurs(ss[n - 1], all[k]));
    }
}

/// Without overlap every chunk of a markdown text stands in one of its sections as
/// it is.
pub proof fn law_markdown_chunks_stand_in_a_section(s: Seq<char>, size: nat, k: int)
    requires
        size >= 1,
        0 <= k < chunker::markdown_pieces(s, size, 0).len(),
    ensures
        exists|i: int|
            0 <= i < chunker::coalesced(
                chunker::sections_of(s),
                chunker::short_limit(size),
                0,
            ).len() && text::occurs(
                #[trigger] chunker::coalesced(
                    chunker::sections_of(s),
                    chunker::short_limit(size),
                    0,
                )[i],
                chunker::markdown_pieces(s, size, 0)[k],
            ),
{
    law_sections_are_chunked_as_plain_text(s, size, 0);
    let ss = chunker::coalesced(chunker::sections_of(s), chunker::short_limit(size), 0);
    lemma_each_plain_verbatim(ss, ss.len(), size, k);
}

/// In a plain text without a word that is too long for a chunk, each chunk begins
/// with the last `overlap` characters of the one before.
pub proof fn law_plain_chunks_overlap(s: Seq<char>, size: nat, overlap: nat)
    requires
        size >= 1,
        chunker_laws::divisible(s, 3, size),
    ensures
        chunker_laws::chained(chunker::plain_pieces(s, size, overlap), overlap),
{
    let v = chunker::split_text(s, size, overlap);
    chunker_laws::law_chunks_overlap(s, size, overlap);
    if s.len() > size {
        chunker_laws::lemma_split_within(s, size, overlap);
        lemma_without_blank_same(v);
    } else {
        law_short_texts_stay_whole(s, size, overlap);
    }
}

proof fn lemma_without_blank_same(v: Seq<Seq<char>>)
    requires
        chunker_laws::none_blank(v),
    ensures
        chunker::without_blank(v) == v,
    decreases v.len(),
{
    if v.len() > 0 {
        let front = v.drop_last();
        assert forall|k: int| 0 <= k < front.len() implies !text::is_blank(#[trigger] front[k]) by {
            assert(front[k] == v[k]);
        }
        lemma_without_blank_same(front);
        assert(!text::is_blank(v[v.len() - 1]));
        assert(front.push(v.last()) =~= v);
    }
}

/// A text that fits in one chunk is one chunk, unless it is blank: then there is
/// none.
pub proof fn law_short_texts_stay_whole(s: Seq<char>, size: nat, overlap: nat)
    requires
        size >= 1,
        s.len() <= size,
    ensures
        chunker::plain_pieces(s, size, overlap) == (if text::is_blank(s) {
            Seq::<Seq<char>>::empty()
        } else {
            seq![s]
        }),
{
    let v = seq![s];
    assert(v.drop_last() =~= Seq::empty());
    assert(chunker::without_blank(v.drop_last()) == Seq::<Seq<char>>::empty());
    assert(chunker::split_text(s, size, overlap) == v);
    assert(chunker::without_blank(v) =~= if text::is_blank(s) {
        Seq::<Seq<char>>::empty()
    } else {
        seq![s]
    });
}

/// Whether no text and the one after it would fit in `size` characters together,
/// with an empty line between them.
pub open spec fn packed(out: Seq<Seq<char>>, size: nat) -> bool {
    forall|k: int|
        0 < k < out.len() ==> out[k - 1].len() + 2 + (#[trigger] out[k]).len() > size
}

proof fn lemma_packed(ps: Seq<Seq<char>>, n: nat, size: nat, overlap: nat)
    requires
        n <= ps.len(),
        forall|k: int|
            0 <= k < ps.len() ==> (#[trigger] ps[k]).len() <= size && !text::is_blank(ps[k]),
    ensures
        ({
            let f = chunker::absorb_all(Seq::empty(), ps, n, 2, size, overlap);
            &&& packed(f.out, size)
            &&& n == 0 ==> f.out.len() == 0 && f.buffer.len() == 0
            &&& n > 0 ==> !text::is_blank(f.buffer)
            &&& f.out.len() > 0 ==> f.out.last().len() + 2 + f.buffer.len() > size
        }),
    decreases n,
{
    if n > 0 {
        reveal_strlit("\n\n");
        let m = (n - 1) as nat;
        lemma_packed(ps, m, size, overlap);
        let f = chunker::absorb_all(Seq::empty(), ps, m, 2, size, overlap);
        let p = ps[n - 1];
        assert(p.len() <= size && !text::is_blank(p));
        let g = chunker::absorb(f, p, 2, size, overlap);
        let sep = chunker::separator(2);
        assert(sep.len() == 2);
        let out = chunker::flushed(f);
        let q = choose|q: int| 0 <= q < p.len() && !text::is_space(#[trigger] p[q]);
        if f.buffer.len() == 0 || f.buffer.len() + sep.len() + p.len() > size {
            let t = chunker::last_tail(out, overlap);
            let at = if t.len() == 0 {
                q
            } else {
                t.len() + 2 + q
            };
            assert(g.buffer[at] == p[q]);
            assert(!text::is_space(g.buffer[at]));
            if m == 0 {
                assert(text::is_blank(f.buffer));
                assert(out.len() == 0);
            } else {
                assert(out == f.out.push(f.buffer));
                assert forall|k: int| 0 < k < out.len() implies out[k - 1].len() + 2 + (
                #[trigger] out[k]).len() > size by {
                    assert(out[k - 1] == f.out[k - 1]);
                    if k < f.out.len() {
                        assert(out[k] == f.out[k]);
                    }
                }
                let z = choose|z: int|
                    0 <= z < f.buffer.len() && !text::is_space(#[trigger] f.buffer[z]);
                assert(f.buffer.len() > 0);
            }
        } else {
            assert(g.buffer[f.buffer.len() + 2 + q] == p[q]);
            assert(!text::is_space(g.buffer[f.buffer.len() + 2 + q]));
        }
        assert(chunker::absorb_all(Seq::empty(), ps, n, 2, size, overlap) == g);
    }
}

/// Paragraphs are packed: where all of them fit in a chunk and none is blank, no
/// two neighbouring chunks would have fitted in one.
pub proof fn law_paragraphs_are_packed(s: Seq<char>, size: nat, overlap: nat)
    requires
        size >= 1,
        forall|k: int|
            0 <= k < chunker::paragraphs_of(s).len() ==> (#[trigger] chunker::paragraphs_of(
                s,
            )[k]).len() <= size && !text::is_blank(chunker::paragraphs_of(s)[k]),
    ensures
        packed(chunker::plain_pieces(s, size, overlap), size),
{
    if s.len() <= size {
        law_short_texts_stay_whole(s, size, overlap);
    } else {
        let ps = chunker::paragraphs_of(s);
        lemma_packed(ps, ps.len(), size, overlap);
        let f = chunker::fill(Seq::empty(), s, 3, size, overlap);
        assert(f == chunker::absorb_all(Seq::empty(), ps, ps.len(), 2, size, overlap));
        let v = chunker::split_text(s, size, overlap);
        chunker_laws::lemma_split_within(s, size, overlap);
        lemma_without_blank_same(v);
        assert forall|k: int| 0 < k < v.len() implies v[k - 1].len() + 2 + (#[trigger] v[k]).len()
            > size by {
            assert(v[k - 1] == f.out[k - 1]);
            if k < f.out.len() {
                assert(v[k] == f.out[k]);
            }
        }
    }
}

/// Whether a line begins with two to four number signs and a blank.
pub open spec fn marked(line: Seq<char>) -> bool {
    exists|k: int| #[trigger] marked_by(line, k)
}

/// Whether a line begins with `k` number signs, two to four, and a blank.
pub open spec fn marked_by(line: Seq<char>, k: int) -> bool {
    &&& 2 <= k <= 4
    &&& k < line.len()
    &&& line[k] == ' '
    &&& forall|i: int| 0 <= i < k ==> line[i] == '#'
}

/// A line is a heading exactly if it begins with two to four number signs and a
/// blank.
pub proof fn law_headings_are_marked(line: Seq<char>)
    ensures
        chunker::is_heading(line) <==> marked(line),
{
    reveal_strlit("## ");
    reveal_strlit("### ");
    reveal_strlit("#### ");
    let a = "## "@;
    let b = "### "@;
    let c = "#### "@;
    assert(a.len() == 3 && a[0] == '#' && a[1] == '#' && a[2] == ' ');
    assert(b.len() == 4 && b[0] == '#' && b[1] == '#' && b[2] == '#' && b[3] == ' ');
    assert(c.len() == 5 && c[0] == '#' && c[1] == '#' && c[2] == '#' && c[3] == '#' && c[4] == ' ');
    if a.is_prefix_of(line) {
        assert(forall|i: int| 0 <= i < 3 ==> line.subrange(0, 3)[i] == line[i]);
        assert(line.subrange(0, 3)[0] == a[0]);
        assert(line.subrange(0, 3)[1] == a[1]);
        assert(line.subrange(0, 3)[2] == a[2]);
        assert(marked_by(line, 2));
    }
    if b.is_prefix_of(line) {
        assert(forall|i: int| 0 <= i < 4 ==> line.subrange(0, 4)[i] == line[i]);
        assert(line.subrange(0, 4)[0] == b[0]);
        assert(line.subrange(0, 4)[1] == b[1]);
        assert(line.subrange(0, 4)[2] == b[2]);
        assert(line.subrange(0, 4)[3] == b[3]);
        assert(marked_by(line, 3));
    }
    if c.is_prefix_of(line) {
        assert(forall|i: int| 0 <= i < 5 ==> line.subrange(0, 5)[i] == line[i]);
        assert(line.subrange(0, 5)[0] == c[0]);
        assert(line.subrange(0, 5)[1] == c[1]);
        assert(line.subrange(0, 5)[2] == c[2]);
        assert(line.subrange(0, 5)[3] == c[3]);
        assert(line.subrange(0, 5)[4] == c[4]);
        assert(marked_by(line, 4));
    }
    if marked_by(line, 2) {
        assert(line.subrange(0, 3) =~= a);
    }
    if marked_by(line, 3) {
        assert(line.subrange(0, 4) =~= b);
    }
    if marked_by(line, 4) {
        assert(line.subrange(0, 5) =~= c);
    }
    if marked(line) {
        let k = choose|k: int| #[trigger] marked_by(line, k);
        assert(k == 2 || k == 3 || k == 4);
    }
}

/// Whether one of the texts begins with a line.
pub open spec fn begins(out: Seq<Seq<char>>, line: Seq<char>) -> bool {
    exists|k: int| 0 <= k < out.len() && line.is_prefix_of(#[trigger] out[k])
}

proof fn lemma_heading_begins(lines: Seq<Seq<char>>, n: nat, i: int)
    requires
        0 <= i < n <= lines.len(),
        chunker::is_heading(lines[i]),
        exists|j: int| 0 <= j < i && !text::is_blank(#[trigger] lines[j]),
    ensures
        ({
            let r = chunker::read_lines(lines, n);
            begins(r.done, lines[i]) || lines[i].is_prefix_of(r.current)
        }),
    decreases n,
{
    let m = (n - 1) as nat;
    let before = chunker::read_lines(lines, m);
    let r = chunker::read_lines(lines, n);
    let line = lines[n - 1];
    if i < m {
        lemma_heading_begins(lines, m, i);
        if begins(before.done, lines[i]) {
            let k = choose|k: int|
                0 <= k < before.done.len() && lines[i].is_prefix_of(#[trigger] before.done[k]);
            assert(r.done[k] == before.done[k]);
        } else if chunker::is_heading(line) && !text::is_blank(before.current) {
            assert(r.done[before.done.len() as int] == before.current);
        } else {
            assert(r.current.subrange(0, lines[i].len() as int) =~= before.current.subrange(
                0,
                lines[i].len() as int,
            ));
        }
    } else {
        let j = choose|j: int| 0 <= j < i && !text::is_blank(#[trigger] lines[j]);
        lemma_current_not_blank(lines, m, j);
        assert(r.current.subrange(0, line.len() as int) =~= line);
    }
}

proof fn lemma_current_not_blank(lines: Seq<Seq<char>>, n: nat, j: int)
    requires
        0 <= j < n <= lines.len(),
        !text::is_blank(lines[j]),
    ensures
        !text::is_blank(chunker::read_lines(lines, n).current),
    decreases n,
{
    let m = (n - 1) as nat;
    let before = chunker::read_lines(lines, m);
    let r = chunker::read_lines(lines, n);
    let line = lines[n - 1];
    if chunker::is_heading(line) && !text::is_blank(before.current) {
        law_headings_are_marked(line);
        let k = choose|k: int| #[trigger] marked_by(line, k);
        assert(line[0] == '#');
        assert(r.current[0] == '#');
        assert(!text::is_space(r.current[0]));
    } else if j < m {
        lemma_current_not_blank(lines, m, j);
        let q = choose|q: int|
            0 <= q < before.current.len() && !text::is_space(#[trigger] before.current[q]);
        assert(r.current[q] == before.current[q]);
    } else {
        let q = choose|q: int| 0 <= q < line.len() && !text::is_space(#[trigger] line[q]);
        assert(r.current[before.current.len() + q] == line[q]);
    }
}

/// Every heading begins a section, unless nothing but white space stands before
/// it.
pub proof fn law_headings_begin_sections(s: Seq<char>, i: int)
    requires
        0 <= i < chunker::lines_of(s).len(),
        marked(chunker::lines_of(s)[i]),
        exists|j: int| 0 <= j < i && !text::is_blank(#[trigger] chunker::lines_of(s)[j]),
    ensures
        begins(chunker::sections_of(s), chunker::lines_of(s)[i]),
{
    let lines = chunker::lines_of(s);
    let n = lines.len();
    law_headings_are_marked(lines[i]);
    lemma_heading_begins(lines, n, i);
    let r = chunker::read_lines(lines, n);
    let out = chunker::sections_of(s);
    let j = choose|j: int| 0 <= j < i && !text::is_blank(#[trigger] lines[j]);
    lemma_current_not_blank(lines, n, j);
    if begins(r.done, lines[i]) {
        let k = choose|k: int|
            0 <= k < r.done.len() && lines[i].is_prefix_of(#[trigger] r.done[k]);
        assert(out[k] == r.done[k]);
    } else {
        assert(out[r.done.len() as int] == r.current);
    }
}

/// Once short sections are joined to the next, none but the last is short: each
/// has at least sixty-four characters and at least a third of the chunk size.
/// Nothing else is joined: there are at least as many as there are sections that
/// are not short.
pub proof fn law_joined_sections_are_not_short(ss: Seq<Seq<char>>, size: nat, k: int)
    requires
        0 <= k < chunker::coalesced(ss, chunker::short_limit(size), 0).len() - 1,
    ensures
        chunker::coalesced(ss, chunker::short_limit(size), 0)[k].len() >= 64,
        chunker::coalesced(ss, chunker::short_limit(size), 0)[k].len() >= size / 3,
{
    lemma_joined_long(ss, chunker::short_limit(size), 0);
}

proof fn lemma_joined_long(ss: Seq<Seq<char>>, limit: nat, i: int)
    requires
        0 <= i <= ss.len(),
    ensures
        ({
            let out = chunker::coalesced(ss, limit, i);
            forall|k: int| 0 <= k < out.len() - 1 ==> (#[trigger] out[k]).len() >= limit
        }),
    decreases ss.len() - i,
{
    if i < ss.len() {
        lemma_joined_long(ss, limit, i + 1);
        let rest = chunker::coalesced(ss, limit, i + 1);
        let out = chunker::coalesced(ss, limit, i);
        assert forall|k: int| 0 <= k < out.len() - 1 implies (#[trigger] out[k]).len() >= limit by {
            if ss[i].len() < limit && rest.len() > 0 {
                if k == 0 {
                    assert(rest[0].len() >= limit);
                } else {
                    assert(out[k] == rest[k]);
                }
            } else if k > 0 {
                assert(out[k] == rest[k - 1]);
            }
        }
    }
}

/// A section that is not short is joined to nothing after it: where it ends, a
/// section ends.
pub proof fn law_long_sections_end_a_section(ss: Seq<Seq<char>>, size: nat, i: int)
    requires
        0 <= i < ss.len(),
        ss[i].len() >= 64,
        ss[i].len() >= size / 3,
    ensures
        exists|k: int|
            0 <= k < chunker::coalesced(ss, chunker::short_limit(size), 0).len()
                && ss[i].is_suffix_of(
                #[trigger] chunker::coalesced(ss, chunker::short_limit(size), 0)[k],
            ),
{
    lemma_long_ends(ss, chunker::short_limit(size), 0, i);
}

proof fn lemma_long_ends(ss: Seq<Seq<char>>, limit: nat, i: int, j: int)
    requires
        0 <= i <= j < ss.len(),
        ss[j].len() >= limit,
    ensures
        exists|k: int|
            0 <= k < chunker::coalesced(ss, limit, i).len() && ss[j].is_suffix_of(
                #[trigger] chunker::coalesced(ss, limit, i)[k],
            ),
    decreases ss.len() - i,
{
    let rest = chunker::coalesced(ss, limit, i + 1);
    let out = chunker::coalesced(ss, limit, i);
    if i == j {
        assert(out[0] == ss[i]);
        assert(ss[i].subrange(0, ss[i].len() as int) =~= ss[i]);
        assert(ss[j].is_suffix_of(out[0]));
    } else {
        lemma_long_ends(ss, limit, i + 1, j);
        let k = choose|k: int| 0 <= k < rest.len() && ss[j].is_suffix_of(#[trigger] rest[k]);
        if ss[i].len() < limit && rest.len() > 0 {
            if k == 0 {
                let w = out[0];
                let r = rest[0];
                let n = ss[j].len() as int;
                assert(w == ss[i] + "\n\n"@ + r);
                assert(w.subrange(w.len() - n, w.len() as int) =~= r.subrange(
                    r.len() - n,
                    r.len() as int,
                ));
                assert(ss[j].is_suffix_of(out[0]));
            } else {
                assert(out[k] == rest[k]);
            }
        } else {
            assert(out[k + 1] == rest[k]);
        }
    }
}

proof fn lemma_joined_first(ss: Seq<Seq<char>>, limit: nat, i: int)
    requires
        0 <= i < ss.len(),
    ensures
        chunker::coalesced(ss, limit, i).len() > 0,
        ss[i].is_prefix_of(chunker::coalesced(ss, limit, i)[0]),
{
    let out = chunker::coalesced(ss, limit, i);
    let s = ss[i];
    assert(out[0].subrange(0, s.len() as int) =~= s);
}

proof fn lemma_short_joined(ss: Seq<Seq<char>>, limit: nat, i: int, j: int)
    requires
        0 <= i <= j,
        j + 1 < ss.len(),
        ss[j].len() < limit,
    ensures
        chunker_laws::kept(chunker::coalesced(ss, limit, i), ss[j] + "\n\n"@ + ss[j + 1]),
    decreases j - i,
{
    let rest = chunker::coalesced(ss, limit, i + 1);
    let out = chunker::coalesced(ss, limit, i);
    let sep = "\n\n"@;
    let w = ss[j] + sep + ss[j + 1];
    if i == j {
        lemma_joined_first(ss, limit, i + 1);
        let r = rest[0];
        let n = ss[j + 1].len() as int;
        assert(out[0] == ss[j] + sep + r);
        assert(r.subrange(0, n) =~= ss[j + 1]);
        assert(out[0].subrange(0, w.len() as int) =~= w);
        assert(text::occurs_at(out[0], w, 0));
    } else {
        lemma_short_joined(ss, limit, i + 1, j);
        let k = choose|k: int| 0 <= k < rest.len() && text::occurs(#[trigger] rest[k], w);
        if ss[i].len() < limit && rest.len() > 0 {
            if k == 0 {
                let x = choose|x: int| text::occurs_at(rest[0], w, x);
                let d = ss[i].len() as int + sep.len() as int;
                assert(out[0].subrange(d + x, d + x + w.len()) =~= rest[0].subrange(
                    x,
                    x + w.len(),
                ));
                assert(text::occurs_at(out[0], w, d + x));
                assert(text::occurs(out[0], w));
            } else {
                assert(out[k] == rest[k]);
            }
        } else {
            assert(out[k + 1] == rest[k]);
        }
    }
}

/// A short section stands before the next one, with an empty line between them.
pub proof fn law_short_sections_stand_before_the_next(ss: Seq<Seq<char>>, size: nat, j: int)
    requires
        0 <= j,
        j + 1 < ss.len(),
        ss[j].len() < 64 || ss[j].len() < size / 3,
    ensures
        chunker_laws::kept(
            chunker::coalesced(ss, chunker::short_limit(size), 0),
            ss[j] + "\n\n"@ + ss[j + 1],
        ),
{
    lemma_short_joined(ss, chunker::short_limit(size), 0, j);
}

/// A document is taken for markdown where its language says so or its path ends
/// in `.md` or `.markdown`, and for plain text otherwise.
pub proof fn law_kind_of_document(
    s: Seq<char>,
    language: Option<Seq<char>>,
    path: Seq<char>,
    name: Seq<char>,
    size: nat,
    overlap: nat,
)
    ensures
        ({
            let out = chunker::document_pieces(s, language, path, size, overlap);
            let marked = language == Some("markdown"@) || path == name + ".md"@ || path == name
                + ".markdown"@;
            &&& marked ==> out == chunker::markdown_pieces(s, size, overlap)
            &&& out == chunker::markdown_pieces(s, size, overlap) || (out == chunker::plain_pieces(
                s,
                size,
                overlap,
            ) && !marked)
        }),
{
    let a = ".md"@;
    let b = ".markdown"@;
    if path == name + a {
        assert(path.subrange(path.len() - a.len(), path.len() as int) =~= a);
        assert(a.is_suffix_of(path));
    }
    if path == name + b {
        assert(path.subrange(path.len() - b.len(), path.len() as int) =~= b);
        assert(b.is_suffix_of(path));
    }
}

/// A document whose language is not markdown and whose path ends in neither
/// `.md` nor `.markdown` is taken for plain text.
pub proof fn law_other_documents_are_plain(
    s: Seq<char>,
    language: Option<Seq<char>>,
    path: Seq<char>,
    size: nat,
    overlap: nat,
)
    requires
        language != Some("markdown"@),
        forall|name: Seq<char>| path != #[trigger] (name + ".md"@),
        forall|name: Seq<char>| path != #[trigger] (name + ".markdown"@),
    ensures
        chunker::document_pieces(s, language, path, size, overlap) == chunker::plain_pieces(
            s,
            size,
            overlap,
        ),
{
    let a = ".md"@;
    let b = ".markdown"@;
    if a.is_suffix_of(path) {
        let n = path.len() - a.len();
        assert(path =~= path.take(n) + path.subrange(n, path.len() as int));
        assert(path == path.take(n) + a);
    }
    if b.is_suffix_of(path) {
        let n = path.len() - b.len();
        assert(path =~= path.take(n) + path.subrange(n, path.len() as int));
        assert(path == path.take(n) + b);
    }
}

} // verus!
