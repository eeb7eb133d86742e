//! A map from texts to values that keeps its keys in ascending order.

use crate::text;
use vstd::prelude::*;

verus! {

/// Whether `a` comes strictly before `b`, comparing character by character.
pub open spec fn lex_less(a: Seq<char>, b: Seq<char>) -> bool
    decreases a.len(),
{
    if b.len() == 0 {
        false
    } else if a.len() == 0 {
        true
    } else if a[0] != b[0] {
        a[0] < b[0]
    } else {
        lex_less(a.drop_first(), b.drop_first())
    }
}

/// No text comes before itself.
pub proof fn lemma_less_irreflexive(a: Seq<char>)
    ensures
        !lex_less(a, a),
    decreases a.len(),
{
    if a.len() > 0 {
        lemma_less_irreflexive(a.drop_first());
    }
}

/// The order is transitive.
pub proof fn lemma_less_transitive(a: Seq<char>, b: Seq<char>, c: Seq<char>)
    requires
        lex_less(a, b),
        lex_less(b, c),
    ensures
        lex_less(a, c),
    decreases a.len(),
{
    if a.len() > 0 && a[0] == b[0] && b[0] == c[0] {
        lemma_less_transitive(a.drop_first(), b.drop_first(), c.drop_first());
    }
}

/// Of two different texts one comes before the other.
pub proof fn lemma_less_total(a: Seq<char>, b: Seq<char>)
    ensures
        a == b || lex_less(a, b) || lex_less(b, a),
    decreases a.len(),
{
    if a.len() > 0 && b.len() > 0 && a[0] == b[0] {
        lemma_less_total(a.drop_first(), b.drop_first());
        if a.drop_first() == b.drop_first() {
            assert(a =~= seq![a[0]] + a.drop_first());
            assert(b =~= seq![b[0]] + b.drop_first());
        }
    } else if a.len() == 0 && b.len() == 0 {
        assert(a =~= b);
    }
}

/// Whether `a` comes strictly before `b`.
pub fn before(a: &str, b: &str) -> (r: bool)
    ensures
        r == lex_less(a@, b@),
{
    let x: Vec<char> = text::chars_of(a);
    let y: Vec<char> = text::chars_of(b);
    let mut i: usize = 0;
    assert(a@.skip(0) =~= a@);
    assert(b@.skip(0) =~= b@);
    while i < x.len() && i < y.len()
        invariant
            x@ == a@,
            y@ == b@,
            i <= x@.len(),
            i <= y@.len(),
            lex_less(a@, b@) == lex_less(a@.skip(i as int), b@.skip(i as int)),
        decreases x@.len() - i,
    {
        if x[i] != y[i] {
            return x[i] < y[i];
        }
        assert(a@.skip(i as int).drop_first() =~= a@.skip(i + 1));
        assert(b@.skip(i as int).drop_first() =~= b@.skip(i + 1));
        i = i + 1;
    }
    i < y.len()
}

/// Whether the texts are in strictly ascending order.
pub open spec fn ascending(s: Seq<Seq<char>>) -> bool {
    forall|i: int, j: int| 0 <= i < j < s.len() ==> lex_less(#[trigger] s[i], #[trigger] s[j])
}

/// Texts in strictly ascending order are all different.
pub proof fn lemma_ascending_distinct(s: Seq<Seq<char>>, i: int, j: int)
    requires
        ascending(s),
        0 <= i < s.len(),
        0 <= j < s.len(),
        s[i] == s[j],
    ensures
        i == j,
{
    lemma_less_irreflexive(s[i]);
}

/// A map with text keys, kept in ascending key order.
#[derive(Debug)]
pub struct Dict<V> {
    /// The keys, ascending.
    pub keys: Vec<String>,
    /// The value of each key, at the key's position.
    pub vals: Vec<V>,
}

impl<V> View for Dict<V> {
    type V = Map<Seq<char>, V>;

    open spec fn view(&self) -> Map<Seq<char>, V> {
        Map::new(|k: Seq<char>| self.has(k), |k: Seq<char>| self.vals@[self.pos(k)])
    }
}

impl<V> Dict<V> {
    /// The keys in order.
    pub open spec fn names(&self) -> Seq<Seq<char>> {
        text::texts(self.keys@)
    }

    /// One value for each key, and the keys in strictly ascending order.
    pub open spec fn wf(&self) -> bool {
        &&& self.keys@.len() == self.vals@.len()
        &&& ascending(self.names())
    }

    /// Whether `k` is one of the keys.
    pub open spec fn has(&self, k: Seq<char>) -> bool {
        exists|i: int| 0 <= i < self.keys@.len() && #[trigger] self.keys@[i]@ == k
    }

    /// The position of the key `k`.
    pub open spec fn pos(&self, k: Seq<char>) -> int {
        choose|i: int| 0 <= i < self.keys@.len() && #[trigger] self.keys@[i]@ == k
    }

    /// What the map holds at position `i`.
    pub proof fn lemma_at(&self, i: int)
        requires
            self.wf(),
            0 <= i < self.keys@.len(),
        ensures
            self.pos(self.keys@[i]@) == i,
            self@.dom().contains(self.keys@[i]@),
            self@[self.keys@[i]@] == self.vals@[i],
    {
        let k = self.keys@[i]@;
        assert(self.has(k));
        let p = self.pos(k);
        assert(self.names()[p] == self.names()[i]);
        lemma_ascending_distinct(self.names(), p, i);
    }

    /// An empty map.
    pub fn new() -> (d: Self)
        ensures
            d.wf(),
            d@ == Map::<Seq<char>, V>::empty(),
            d.names() == Seq::<Seq<char>>::empty(),
    {
        let d = Dict { keys: Vec::new(), vals: Vec::new() };
        assert(d@ =~= Map::<Seq<char>, V>::empty());
        d
    }

    /// The value of `k`, if `k` is one of the keys.
    pub fn get(&self, k: &str) -> (r: Option<&V>)
        requires
            self.wf(),
        ensures
            (match r {
                Some(v) => self@.dom().contains(k@) && *v == self@[k@],
                None => !self@.dom().contains(k@),
            }),
    {
        let mut i: usize = 0;
        while i < self.keys.len()
            invariant
                self.wf(),
                i <= self.keys@.len(),
                forall|j: int| 0 <= j < i ==> #[trigger] self.keys@[j]@ != k@,
            decreases self.keys@.len() - i,
        {
            if text::same(self.keys[i].as_str(), k) {
                proof {
                    self.lemma_at(i as int);
                }
                return Some(&self.vals[i]);
            }
            i = i + 1;
        }
        None
    }

    /// Whether `k` is one of the keys.
    pub fn contains(&self, k: &str) -> (r: bool)
        requires
            self.wf(),
        ensures
            r == self@.dom().contains(k@),
    {
        match self.get(k) {
            Some(_) => true,
            None => false,
        }
    }

    /// Gives `k` the value `v`, in place of the one it had.
    pub fn insert(&mut self, k: String, v: V)
        requires
            old(self).wf(),
        ensures
            final(self).wf(),
            final(self)@ == old(self)@.insert(k@, v),
    {
        let ghost before_keys = self.keys@;
        let ghost before_vals = self.vals@;
        let ghost was = *self;
        let ghost names = self.names();
        let n: usize = self.keys.len();
        let mut i: usize = 0;
        while i < n && before(self.keys[i].as_str(), k.as_str())
            invariant
                *self == was,
                was.wf(),
                n == self.keys@.len(),
                i <= n,
                names == was.names(),
                forall|j: int| 0 <= j < i ==> lex_less(#[trigger] names[j], k@),
            decreases n - i,
        {
            i = i + 1;
        }
        if i < n && text::same(self.keys[i].as_str(), k.as_str()) {
            self.vals.set(i, v);
            proof {
                assert(self.names() =~= names);
                assert forall|q: Seq<char>| true implies self.has(q) == was.has(q) by {};
                assert forall|q: Seq<char>| #[trigger] was.has(q) implies self@[q]
                    == was@.insert(k@, v)[q] by {
                    let p = was.pos(q);
                    was.lemma_at(p);
                    self.lemma_at(p);
                    if p != i {
                        if q == k@ {
                            lemma_ascending_distinct(names, p, i as int);
                        }
                    }
                }
                assert(was.has(k@)) by {
                    assert(was.keys@[i as int]@ == k@);
                }
                assert(self@ =~= was@.insert(k@, v));
            }
        } else {
            proof {
                assert forall|j: int| i <= j < n implies lex_less(k@, #[trigger] names[j]) by {
                    lemma_less_total(names[i as int], k@);
                    if j > i {
                        lemma_less_transitive(k@, names[i as int], names[j]);
                    }
                }
            }
            let ghost key = k@;
            self.keys.insert(i, k);
            self.vals.insert(i, v);
            proof {
                let now = self.names();
                assert(now =~= names.insert(i as int, key));
                assert forall|a: int, b: int| 0 <= a < b < now.len() implies lex_less(
                    #[trigger] now[a],
                    #[trigger] now[b],
                ) by {
                    let a0 = if a < i {
                        a
                    } else {
                        a - 1
                    };
                    let b0 = if b < i {
                        b
                    } else {
                        b - 1
                    };
                    if a != i {
                        assert(now[a] == names[a0]);
                    }
                    if b != i {
                        assert(now[b] == names[b0]);
                    }
                }
                assert(self.wf());
                assert forall|q: Seq<char>| #[trigger] self.has(q) == (was.has(q) || q == key) by {
                    if was.has(q) {
                        let p = was.pos(q);
                        if p < i {
                            assert(self.keys@[p]@ == q);
                        } else {
                            assert(self.keys@[p + 1]@ == q);
                        }
                    }
                    assert(self.keys@[i as int]@ == key);
                    if self.has(q) && q != key {
                        let p = self.pos(q);
                        assert(p != i);
                        if p < i {
                            assert(was.keys@[p]@ == q);
                        } else {
                            assert(was.keys@[p - 1]@ == q);
                        }
                    }
                }
                assert forall|q: Seq<char>| #[trigger] self.has(q) implies self@[q] == was@.insert(
                    key,
                    v,
                )[q] by {
                    let p = self.pos(q);
                    self.lemma_at(p);
                    if p == i {
                    } else {
                        if p < i {
                            was.lemma_at(p);
                        } else {
                            was.lemma_at(p - 1);
                        }
                        if q == key {
                            self.lemma_at(i as int);
                        }
                    }
                }
                assert(self@ =~= was@.insert(key, v));
            }
        }
    }

    /// Takes `k` out of the map; says whether it was there.
    pub fn remove(&mut self, k: &str) -> (r: bool)
        requires
            old(self).wf(),
        ensures
            final(self).wf(),
            final(self)@ == old(self)@.remove(k@),
            r == old(self)@.dom().contains(k@),
    {
        let ghost was = *self;
        let ghost names = self.names();
        let n: usize = self.keys.len();
        let mut i: usize = 0;
        while i < n
            invariant
                *self == was,
                was == *old(self),
                was.wf(),
                names == was.names(),
                n == self.keys@.len(),
                i <= n,
                forall|j: int| 0 <= j < i ==> #[trigger] was.keys@[j]@ != k@,
            decreases n - i,
        {
            if text::same(self.keys[i].as_str(), k) {
                let _k: String = self.keys.remove(i);
                let _v: V = self.vals.remove(i);
                proof {
                    was.lemma_at(i as int);
                    let now = self.names();
                    assert(now =~= names.remove(i as int));
                    assert forall|a: int, b: int| 0 <= a < b < now.len() implies lex_less(
                        #[trigger] now[a],
                        #[trigger] now[b],
                    ) by {
                        assert(now[a] == names[if a < i {
                            a
                        } else {
                            a + 1
                        }]);
                        assert(now[b] == names[if b < i {
                            b
                        } else {
                            b + 1
                        }]);
                    }
                    assert(self.wf());
                    assert forall|q: Seq<char>| #[trigger]
                        self.has(q) == (was.has(q) && q != k@) by {
                        if self.has(q) {
                            let p = self.pos(q);
                            let p0 = if p < i {
                                p
                            } else {
                                p + 1
                            };
                            assert(was.keys@[p0]@ == q);
                            if q == k@ {
                                lemma_ascending_distinct(names, p0, i as int);
                            }
                        }
                        if was.has(q) && q != k@ {
                            let p = was.pos(q);
                            assert(p != i);
                            assert(self.keys@[if p < i {
                                p
                            } else {
                                p - 1
                            }]@ == q);
                        }
                    }
                    assert forall|q: Seq<char>| #[trigger] self.has(q) implies self@[q]
                        == was@[q] by {
                        let p = self.pos(q);
                        self.lemma_at(p);
                        was.lemma_at(
                            if p < i {
                                p
                            } else {
                                p + 1
                            },
                        );
                    }
                    assert(self@ =~= was@.remove(k@));
                }
                return true;
            }
            i = i + 1;
        }
        proof {
            assert(!was.has(k@));
            assert(self@ =~= was@.remove(k@));
        }
        false
    }

    /// The map of the given entries; of two with the same key the later wins.
    pub fn from_entries(entries: Vec<(String, V)>) -> (d: Self)
        ensures
            d.wf(),
            d@ == entries_map(entries@),
    {
        let ghost all = entries@;
        let mut rest: Vec<(String, V)> = entries;
        let mut rev: Vec<(String, V)> = Vec::new();
        while rest.len() > 0
            invariant
                rest@.len() + rev@.len() == all.len(),
                rest@ == all.take(rest@.len() as int),
                forall|j: int|
                    0 <= j < rev@.len() ==> #[trigger] rev@[j] == all[all.len() - 1 - j],
            decreases rest@.len(),
        {
            match rest.pop() {
                Some(e) => {
                    rev.push(e);
                },
                None => {},
            }
        }
        let mut d: Dict<V> = Dict::new();
        assert(all.take(0).len() == 0);
        assert(d@ =~= entries_map(all.take(0)));
        while rev.len() > 0
            invariant
                d.wf(),
                rev@.len() <= all.len(),
                d@ == entries_map(all.take(all.len() - rev@.len())),
                forall|j: int|
                    0 <= j < rev@.len() ==> #[trigger] rev@[j] == all[all.len() - 1 - j],
            decreases rev@.len(),
        {
            let ghost done = all.len() - rev@.len();
            match rev.pop() {
                Some(e) => {
                    assert(e == all[done]);
                    assert(all.take(done + 1).drop_last() =~= all.take(done));
                    d.insert(e.0, e.1);
                },
                None => {},
            }
        }
        assert(all.take(all.len() as int) =~= all);
        d
    }
}

/// The map of a list of entries; of two with the same key the later wins.
pub open spec fn entries_map<V>(entries: Seq<(String, V)>) -> Map<Seq<char>, V>
    decreases entries.len(),
{
    if entries.len() == 0 {
        Map::empty()
    } else {
        entries_map(entries.drop_last()).insert(entries.last().0@, entries.last().1)
    }
}

/// An ascending list with `q` in its place, unless `q` is there already.
pub open spec fn with_text(u: Seq<Seq<char>>, q: Seq<char>) -> Seq<Seq<char>>
    decreases u.len(),
{
    if u.len() == 0 {
        seq![q]
    } else if lex_less(u[0], q) {
        seq![u[0]] + with_text(u.drop_first(), q)
    } else if u[0] == q {
        u
    } else {
        seq![q] + u
    }
}

/// The first `n` texts without repetition, in ascending order.
pub open spec fn distinct(s: Seq<Seq<char>>, n: nat) -> Seq<Seq<char>>
    decreases n,
{
    if n == 0 || n > s.len() {
        Seq::empty()
    } else {
        with_text(distinct(s, (n - 1) as nat), s[n - 1])
    }
}

proof fn lemma_with_text(u: Seq<Seq<char>>, q: Seq<char>, i: int)
    requires
        0 <= i <= u.len(),
        forall|j: int| 0 <= j < i ==> lex_less(#[trigger] u[j], q),
        i < u.len() ==> !lex_less(u[i], q),
    ensures
        with_text(u, q) == (if i < u.len() && u[i] == q {
            u
        } else {
            u.insert(i, q)
        }),
    decreases i,
{
    if i == 0 {
        if u.len() == 0 {
            assert(u.insert(0, q) =~= seq![q]);
        } else {
            assert(u.insert(0, q) =~= seq![q] + u);
        }
    } else {
        let rest = u.drop_first();
        assert forall|j: int| 0 <= j < i - 1 implies lex_less(#[trigger] rest[j], q) by {
            assert(rest[j] == u[j + 1]);
        }
        lemma_with_text(rest, q, i - 1);
        assert(seq![u[0]] + rest =~= u);
        assert(seq![u[0]] + rest.insert(i - 1, q) =~= u.insert(i, q));
    }
}

/// A list of distinct texts is ascending and holds exactly the given texts.
pub proof fn law_distinct_is_sorted_set(s: Seq<Seq<char>>, n: nat)
    requires
        n <= s.len(),
    ensures
        ascending(distinct(s, n)),
        forall|q: Seq<char>|
            distinct(s, n).contains(q) <==> exists|i: int| 0 <= i < n && #[trigger] s[i] == q,
    decreases n,
{
    if n > 0 {
        law_distinct_is_sorted_set(s, (n - 1) as nat);
        let u = distinct(s, (n - 1) as nat);
        let w = distinct(s, n);
        lemma_with_text_sorted(u, s[n - 1]);
        assert forall|q: Seq<char>|
            w.contains(q) <==> exists|i: int| 0 <= i < n && #[trigger] s[i] == q by {
            if u.contains(q) {
                let i = choose|i: int| 0 <= i < n - 1 && #[trigger] s[i] == q;
                assert(s[i] == q);
            }
            if exists|i: int| 0 <= i < n && #[trigger] s[i] == q {
                let i = choose|i: int| 0 <= i < n && #[trigger] s[i] == q;
                if i < n - 1 {
                    assert(u.contains(q));
                }
            }
        }
    }
}

proof fn lemma_with_text_sorted(u: Seq<Seq<char>>, q: Seq<char>)
    requires
        ascending(u),
    ensures
        ascending(with_text(u, q)),
        forall|x: Seq<char>| with_text(u, q).contains(x) <==> (u.contains(x) || x == q),
{
    let i = lemma_place(u, q, 0);
    lemma_with_text(u, q, i);
    let w = with_text(u, q);
    if i < u.len() && u[i] == q {
        assert(u.contains(q));
    } else {
        assert forall|j: int| i <= j < u.len() implies lex_less(q, #[trigger] u[j]) by {
            lemma_less_total(u[i], q);
            if j > i {
                lemma_less_transitive(q, u[i], u[j]);
            }
        }
        assert(w =~= u.insert(i, q));
        assert forall|a: int, b: int| 0 <= a < b < w.len() implies lex_less(
            #[trigger] w[a],
            #[trigger] w[b],
        ) by {
            if a != i {
                assert(w[a] == u[if a < i {
                    a
                } else {
                    a - 1
                }]);
            }
            if b != i {
                assert(w[b] == u[if b < i {
                    b
                } else {
                    b - 1
                }]);
            }
        }
        assert forall|x: Seq<char>| w.contains(x) <==> (u.contains(x) || x == q) by {
            if u.contains(x) {
                let p = u.index_of(x);
                assert(w[if p < i {
                    p
                } else {
                    p + 1
                }] == x);
            }
            assert(w[i] == q);
            if w.contains(x) && x != q {
                let p = w.index_of(x);
                assert(u[if p < i {
                    p
                } else {
                    p - 1
                }] == x);
            }
        }
    }
}

proof fn lemma_place(u: Seq<Seq<char>>, q: Seq<char>, from: int) -> (i: int)
    requires
        0 <= from <= u.len(),
        forall|j: int| 0 <= j < from ==> lex_less(#[trigger] u[j], q),
    ensures
        from <= i <= u.len(),
        forall|j: int| 0 <= j < i ==> lex_less(#[trigger] u[j], q),
        i < u.len() ==> !lex_less(u[i], q),
    decreases u.len() - from,
{
    if from < u.len() && lex_less(u[from], q) {
        lemma_place(u, q, from + 1)
    } else {
        from
    }
}

/// Adds a text to an ascending list, unless it is there already.
pub fn insert_text(list: &mut Vec<String>, s: &str)
    ensures
        text::texts(final(list)@) == with_text(text::texts(old(list)@), s@),
{
    let ghost was = text::texts(list@);
    let n: usize = list.len();
    let mut i: usize = 0;
    while i < n && before(list[i].as_str(), s)
        invariant
            was == text::texts(list@),
            n == list@.len(),
            i <= n,
            forall|j: int| 0 <= j < i ==> lex_less(#[trigger] was[j], s@),
        decreases n - i,
    {
        i = i + 1;
    }
    proof {
        lemma_with_text(was, s@, i as int);
    }
    if i < n && text::same(list[i].as_str(), s) {
        return ;
    }
    list.insert(i, s.to_string());
    assert(text::texts(list@) =~= was.insert(i as int, s@));
}

/// The given texts without repetition, in ascending order.
pub fn distinct_texts(list: &Vec<String>) -> (r: Vec<String>)
    ensures
        text::texts(r@) == distinct(text::texts(list@), list@.len()),
{
    let ghost all = text::texts(list@);
    let mut r: Vec<String> = Vec::new();
    let mut i: usize = 0;
    assert(text::texts(r@) =~= Seq::empty());
    while i < list.len()
        invariant
            all == text::texts(list@),
            i <= list@.len(),
            text::texts(r@) == distinct(all, i as nat),
        decreases list@.len() - i,
    {
        insert_text(&mut r, list[i].as_str());
        i = i + 1;
    }
    r
}

} // verus!
