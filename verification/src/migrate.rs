//! Copying the rows of another database: which columns are taken, how vectors
//! are laid out, and when rows are written. Vectors are the bit patterns of
//! their numbers and are copied as they are.

use crate::text;
use vstd::prelude::*;

verus! {

broadcast use vstd::string::group_string_axioms;

// ---------------------------------------------------------------------------
// Columns
// ---------------------------------------------------------------------------

/// The place of the first column of a name, from `i` on.
pub open spec fn column_at(names: Seq<Seq<char>>, name: Seq<char>, i: int) -> Option<int>
    decreases names.len() - i,
{
    if i < 0 || i >= names.len() {
        None
    } else if names[i] == name {
        Some(i)
    } else {
        column_at(names, name, i + 1)
    }
}

/// Where the first `n` columns of the target are found in the source, or why
/// they are not.
pub open spec fn columns_taken(target: Seq<Seq<char>>, source: Seq<Seq<char>>, n: nat) -> Result<
    Seq<int>,
    Seq<char>,
>
    decreases n,
{
    if n == 0 {
        Ok(Seq::empty())
    } else {
        match columns_taken(target, source, (n - 1) as nat) {
            Err(e) => Err(e),
            Ok(before) => match column_at(source, target[n - 1], 0) {
                Some(i) => Ok(before.push(i)),
                None => Err("src missing column "@ + target[n - 1]),
            },
        }
    }
}

fn find_column(names: &Vec<String>, name: &str) -> (r: Option<usize>)
    ensures
        (match r {
            Some(i) => column_at(text::texts(names@), name@, 0) == Some(i as int) && i
                < names@.len(),
            None => column_at(text::texts(names@), name@, 0) is None,
        }),
{
    let ghost ns = text::texts(names@);
    let mut i: usize = 0;
    while i < names.len()
        invariant
            ns == text::texts(names@),
            i <= names@.len(),
            column_at(ns, name@, 0) == column_at(ns, name@, i as int),
        decreases names@.len() - i,
    {
        assert(ns[i as int] == names@[i as int]@);
        if text::same(names[i].as_str(), name) {
            return Some(i);
        }
        i = i + 1;
    }
    None
}

proof fn lemma_missing(target: Seq<Seq<char>>, source: Seq<Seq<char>>, i: nat, n: nat)
    requires
        i <= n <= target.len(),
        columns_taken(target, source, i) is Err,
    ensures
        columns_taken(target, source, n) == columns_taken(target, source, i),
    decreases n,
{
    if i < n {
        lemma_missing(target, source, i, (n - 1) as nat);
    }
}

/// Places as integers.
pub open spec fn places(v: Seq<usize>) -> Seq<int> {
    Seq::new(v.len(), |i: int| v[i] as int)
}

/// Finds each column of the target in the source.
pub fn pick_columns(target: &Vec<String>, source: &Vec<String>) -> (r: Result<Vec<usize>, String>)
    ensures
        (match r {
            Ok(v) => columns_taken(text::texts(target@), text::texts(source@), target@.len())
                == Ok::<Seq<int>, Seq<char>>(places(v@)),
            Err(e) => columns_taken(text::texts(target@), text::texts(source@), target@.len())
                == Err::<Seq<int>, Seq<char>>(e@),
        }),
{
    let ghost ts = text::texts(target@);
    let ghost ss = text::texts(source@);
    let mut out: Vec<usize> = Vec::new();
    assert(places(out@) =~= Seq::empty());
    let mut i: usize = 0;
    while i < target.len()
        invariant
            ts == text::texts(target@),
            ss == text::texts(source@),
            i <= target@.len(),
            columns_taken(ts, ss, i as nat) == Ok::<Seq<int>, Seq<char>>(places(out@)),
        decreases target@.len() - i,
    {
        assert(ts[i as int] == target@[i as int]@);
        match find_column(source, target[i].as_str()) {
            Some(k) => {
                let ghost was = places(out@);
                out.push(k);
                assert(places(out@) =~= was.push(k as int));
            },
            None => {
                let e: String = text::cat2("src missing column ", target[i].as_str());
                proof {
                    assert(columns_taken(ts, ss, (i + 1) as nat) == Err::<Seq<int>, Seq<char>>(e@));
                    lemma_missing(ts, ss, (i + 1) as nat, target@.len());
                }
                return Err(e);
            },
        }
        i = i + 1;
    }
    Ok(out)
}

/// Each column of the target is taken from the first column of the source that
/// has its name.
pub proof fn law_columns_keep_their_names(target: Seq<Seq<char>>, source: Seq<Seq<char>>, n: nat)
    requires
        n <= target.len(),
        columns_taken(target, source, n) is Ok,
    ensures
        columns_taken(target, source, n)->Ok_0.len() == n,
        forall|i: int|
            0 <= i < n ==> {
                let k = #[trigger] columns_taken(target, source, n)->Ok_0[i];
                0 <= k < source.len() && source[k] == target[i]
            },
    decreases n,
{
    if n > 0 {
        law_columns_keep_their_names(target, source, (n - 1) as nat);
        lemma_column(source, target[n - 1], 0);
    }
}

proof fn lemma_column(names: Seq<Seq<char>>, name: Seq<char>, i: int)
    requires
        0 <= i,
    ensures
        column_at(names, name, i) matches Some(k) ==> i <= k < names.len() && names[k] == name,
    decreases names.len() - i,
{
    if i < names.len() && names[i] != name {
        lemma_column(names, name, i + 1);
    }
}

/// What is done with a column.
#[derive(Debug, Clone, Copy, PartialEq, Eq, Structural)]
pub enum Remap {
    /// It is taken as it is.
    Keep,
    /// Its rows are laid out anew: both hold vectors of one length.
    Rebuild,
    /// It cannot be taken.
    Refuse,
}

/// What is done with a column, given whether the types are the same, and the
/// length of the vectors in the source and the target, where they hold
/// vectors.
pub fn remap(same_type: bool, source: Option<i32>, target: Option<i32>) -> (r: Remap)
    ensures
        r == (if same_type {
            Remap::Keep
        } else if source is Some && source == target {
            Remap::Rebuild
        } else {
            Remap::Refuse
        }),
{
    if same_type {
        return Remap::Keep;
    }
    match (source, target) {
        (Some(a), Some(b)) => if a == b {
            Remap::Rebuild
        } else {
            Remap::Refuse
        },
        _ => Remap::Refuse,
    }
}

// ---------------------------------------------------------------------------
// Vectors
// ---------------------------------------------------------------------------

/// The vector of one row: `len` numbers from its place on, if the row has one.
pub open spec fn vector_at(
    values: Seq<u32>,
    present: Seq<bool>,
    offset: nat,
    len: nat,
    row: int,
) -> Option<Seq<u32>> {
    if present[row] {
        Some(values.subrange((offset + row) * len, (offset + row) * len + len))
    } else {
        None
    }
}

/// Lays out the vectors of a column, of which `present` says which rows have
/// one. The first row stands `offset` vectors into the values.
pub fn rebuild(values: &Vec<u32>, present: &Vec<bool>, offset: usize, len: usize) -> (r: Vec<
    Option<Vec<u32>>,
>)
    requires
        (offset + present@.len()) * len <= values@.len(),
    ensures
        r@.len() == present@.len(),
        forall|i: int|
            0 <= i < r@.len() ==> (match #[trigger] r@[i] {
                Some(v) => vector_at(values@, present@, offset as nat, len as nat, i) == Some(v@),
                None => vector_at(values@, present@, offset as nat, len as nat, i) is None,
            }),
{
    let mut out: Vec<Option<Vec<u32>>> = Vec::new();
    let mut i: usize = 0;
    let n: usize = present.len();
    let total: usize = values.len();
    proof {
        assert(offset * len <= (offset + n) * len) by (nonlinear_arith)
            requires
                0 <= offset,
                0 <= n,
                0 <= len,
        ;
    }
    let mut at: usize = offset * len;
    while i < n
        invariant
            n == present@.len(),
            total == values@.len(),
            i <= n,
            at == (offset + i) * len,
            (offset + n) * len <= values@.len(),
            out@.len() == i,
            forall|k: int|
                0 <= k < i ==> (match #[trigger] out@[k] {
                    Some(v) => vector_at(values@, present@, offset as nat, len as nat, k) == Some(
                        v@,
                    ),
                    None => vector_at(values@, present@, offset as nat, len as nat, k) is None,
                }),
        decreases n - i,
    {
        proof {
            assert((offset + i) * len + len == (offset + i + 1) * len) by (nonlinear_arith);
            assert((offset + i + 1) * len <= (offset + n) * len) by (nonlinear_arith)
                requires
                    i < n,
                    0 <= len,
            ;
        }
        let next: usize = at + len;
        if present[i] {
            let mut v: Vec<u32> = Vec::new();
            let mut j: usize = at;
            while j < next
                invariant
                    at <= j <= next,
                    next <= values@.len(),
                    v@ == values@.subrange(at as int, j as int),
                decreases next - j,
            {
                v.push(values[j]);
                assert(v@ =~= values@.subrange(at as int, j + 1));
                j = j + 1;
            }
            out.push(Some(v));
        } else {
            out.push(None);
        }
        at = next;
        i = i + 1;
    }
    out
}

// ---------------------------------------------------------------------------
// Writing
// ---------------------------------------------------------------------------

/// Rows are written once this many are waiting.
pub const FLUSH_ROWS: usize = 1024;

/// How many rows wait, and how many have been written.
pub struct Progress {
    pub waiting: usize,
    pub copied: usize,
}

impl Progress {
    /// Rows that were read so far.
    pub open spec fn read(&self) -> nat {
        (self.waiting + self.copied) as nat
    }

    /// Before anything was read.
    pub fn start() -> (r: Self)
        ensures
            r.waiting == 0,
            r.copied == 0,
    {
        Progress { waiting: 0, copied: 0 }
    }

    /// Notes that rows were read, and says whether the waiting ones are to be
    /// written now.
    pub fn add(&mut self, rows: usize) -> (r: bool)
        requires
            old(self).read() + rows <= usize::MAX,
        ensures
            final(self).waiting == old(self).waiting + rows,
            final(self).copied == old(self).copied,
            r == (final(self).waiting >= FLUSH_ROWS),
    {
        self.waiting = self.waiting + rows;
        self.waiting >= FLUSH_ROWS
    }

    /// Notes that the waiting rows were written.
    pub fn flushed(&mut self)
        requires
            old(self).read() <= usize::MAX,
        ensures
            final(self).waiting == 0,
            final(self).copied == old(self).copied + old(self).waiting,
            final(self).read() == old(self).read(),
    {
        self.copied = self.copied + self.waiting;
        self.waiting = 0;
    }
}

} // verus!
