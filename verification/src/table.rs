//! A small keyed table, kept as a list of rows in which no key occurs twice.

use vstd::prelude::*;

verus! {

/// A key of a table: two keys are the same row's exactly when their views are equal.
pub trait Key: View {
    /// Whether two keys have the same view.
    fn same(&self, other: &Self) -> (same: bool)
        ensures
            same == (self@ == other@),
    ;
}

impl Key for String {
    fn same(&self, other: &Self) -> (same: bool) {
        *self == *other
    }
}

/// Rows of a key and a value, at most one row for each key.
#[derive(Debug)]
pub struct Table<K, V> {
    rows: Vec<(K, V)>,
}

/// Whether no two rows have keys of the same view.
pub open spec fn keys_distinct<K: View, V>(rows: Seq<(K, V)>) -> bool {
    forall|i: int, j: int|
        #![trigger rows[i], rows[j]]
        0 <= i < rows.len() && 0 <= j < rows.len() && rows[i].0@ == rows[j].0@ ==> i == j
}

/// Whether row `i` exists and has the key `k`.
pub open spec fn row_has<K: View, V>(rows: Seq<(K, V)>, i: int, k: K::V) -> bool {
    0 <= i < rows.len() && rows[i].0@ == k
}

/// The mapping that distinct rows stand for.
pub open spec fn rows_map<K: View, V>(rows: Seq<(K, V)>) -> Map<K::V, V> {
    Map::new(
        |k: K::V| exists|i: int| row_has(rows, i, k),
        |k: K::V| rows[choose|i: int| row_has(rows, i, k)].1,
    )
}

/// A row's key is in the mapping, with that row's value.
pub proof fn lemma_row_in_map<K: View, V>(rows: Seq<(K, V)>, i: int)
    requires
        keys_distinct(rows),
        0 <= i < rows.len(),
    ensures
        rows_map(rows).contains_key(rows[i].0@),
        rows_map(rows)[rows[i].0@] == rows[i].1,
{
    let k = rows[i].0@;
    assert(row_has(rows, i, k));
    let j = choose|j: int| row_has(rows, j, k);
    assert(row_has(rows, j, k));
    assert(rows[i].0@ == rows[j].0@);
}

/// A key of the mapping has a row.
pub proof fn lemma_map_has_row<K: View, V>(rows: Seq<(K, V)>, k: K::V) -> (i: int)
    requires
        rows_map(rows).contains_key(k),
    ensures
        row_has(rows, i, k),
{
    choose|i: int| row_has(rows, i, k)
}

/// The mapping has one key for each row.
pub proof fn lemma_map_len<K: View, V>(rows: Seq<(K, V)>)
    requires
        keys_distinct(rows),
    ensures
        rows_map(rows).dom().finite(),
        rows_map(rows).len() == rows.len(),
    decreases rows.len(),
{
    let m = rows_map(rows);
    if rows.len() == 0 {
        assert(m.dom() =~= Set::empty());
    } else {
        let less = rows.drop_last();
        let k = rows.last().0@;
        assert(keys_distinct(less)) by {
            assert forall|i: int, j: int|
                0 <= i < less.len() && 0 <= j < less.len() && (#[trigger] less[i]).0@ == (
                #[trigger] less[j]).0@ implies i == j by {
                assert(less[i] == rows[i]);
                assert(less[j] == rows[j]);
            }
        }
        lemma_map_len(less);
        assert(!rows_map(less).dom().contains(k)) by {
            if rows_map(less).contains_key(k) {
                let i = lemma_map_has_row(less, k);
                assert(less[i] == rows[i]);
                assert(rows[i].0@ == rows[rows.len() - 1].0@);
            }
        }
        assert(m.dom() =~= rows_map(less).dom().insert(k)) by {
            assert forall|x: K::V| #[trigger] m.dom().contains(x) implies rows_map(
                less,
            ).dom().insert(k).contains(x) by {
                let i = lemma_map_has_row(rows, x);
                if i < less.len() {
                    assert(less[i] == rows[i]);
                    assert(row_has(less, i, x));
                }
            }
            assert forall|x: K::V| #[trigger]
                rows_map(less).dom().insert(k).contains(x) implies m.dom().contains(x) by {
                if x == k {
                    assert(row_has(rows, rows.len() - 1, x));
                } else {
                    let i = lemma_map_has_row(less, x);
                    assert(less[i] == rows[i]);
                    assert(row_has(rows, i, x));
                }
            }
        }
    }
}

/// A row with a new key adds that key to the mapping.
pub proof fn lemma_push<K: View, V>(rows: Seq<(K, V)>, k: K, v: V)
    requires
        keys_distinct(rows),
        !rows_map(rows).contains_key(k@),
    ensures
        keys_distinct(rows.push((k, v))),
        rows_map(rows.push((k, v))) == rows_map(rows).insert(k@, v),
{
    let next = rows.push((k, v));
    assert forall|i: int, j: int|
        0 <= i < next.len() && 0 <= j < next.len() && (#[trigger] next[i]).0@ == (
        #[trigger] next[j]).0@ implies i == j by {
        assert(i < rows.len() ==> next[i] == rows[i]);
        assert(j < rows.len() ==> next[j] == rows[j]);
        if i < rows.len() && j == rows.len() {
            assert(row_has(rows, i, k@));
        }
        if j < rows.len() && i == rows.len() {
            assert(row_has(rows, j, k@));
        }
    }
    assert forall|x: K::V|
        rows_map(next).contains_key(x) == rows_map(rows).insert(k@, v).contains_key(x) by {
        if rows_map(next).contains_key(x) {
            let i = lemma_map_has_row(next, x);
            if i < rows.len() {
                assert(next[i] == rows[i]);
                assert(row_has(rows, i, x));
            }
        }
        if rows_map(rows).insert(k@, v).contains_key(x) {
            if x == k@ {
                assert(row_has(next, rows.len() as int, x));
            } else {
                let i = lemma_map_has_row(rows, x);
                assert(next[i] == rows[i]);
                assert(row_has(next, i, x));
            }
        }
    }
    assert forall|x: K::V| rows_map(next).contains_key(x) implies rows_map(next)[x] == rows_map(
        rows,
    ).insert(k@, v)[x] by {
        let i = lemma_map_has_row(next, x);
        lemma_row_in_map(next, i);
        if i < rows.len() {
            assert(next[i] == rows[i]);
            assert(row_has(rows, i, x));
            lemma_row_in_map(rows, i);
            assert(x != k@);
        }
    }
    assert(rows_map(next) =~= rows_map(rows).insert(k@, v));
}

proof fn lemma_update<K: View, V>(rows: Seq<(K, V)>, n: int, k: K, v: V)
    requires
        keys_distinct(rows),
        0 <= n < rows.len(),
        rows[n].0@ == k@,
    ensures
        keys_distinct(rows.update(n, (k, v))),
        rows_map(rows.update(n, (k, v))) == rows_map(rows).insert(k@, v),
{
    let next = rows.update(n, (k, v));
    assert forall|i: int| 0 <= i < next.len() implies (#[trigger] next[i]).0@ == rows[i].0@ by {}
    assert forall|i: int, j: int|
        0 <= i < next.len() && 0 <= j < next.len() && (#[trigger] next[i]).0@ == (
        #[trigger] next[j]).0@ implies i == j by {
        assert(rows[i].0@ == rows[j].0@);
    }
    assert forall|x: K::V|
        rows_map(next).contains_key(x) == rows_map(rows).insert(k@, v).contains_key(x) by {
        if rows_map(next).contains_key(x) {
            let i = lemma_map_has_row(next, x);
            assert(next[i].0@ == rows[i].0@);
            assert(row_has(rows, i, x));
        }
        if rows_map(rows).insert(k@, v).contains_key(x) {
            if x == k@ {
                assert(row_has(next, n, x));
            } else {
                let i = lemma_map_has_row(rows, x);
                assert(next[i].0@ == rows[i].0@);
                assert(row_has(next, i, x));
            }
        }
    }
    assert forall|x: K::V| rows_map(next).contains_key(x) implies rows_map(next)[x] == rows_map(
        rows,
    ).insert(k@, v)[x] by {
        let i = lemma_map_has_row(next, x);
        lemma_row_in_map(next, i);
        lemma_row_in_map(rows, i);
        if i != n {
            assert(next[i] == rows[i]);
            assert(rows[i].0@ == rows[n].0@ ==> i == n);
        }
    }
    assert(rows_map(next) =~= rows_map(rows).insert(k@, v));
}

proof fn lemma_remove<K: View, V>(rows: Seq<(K, V)>, n: int)
    requires
        keys_distinct(rows),
        0 <= n < rows.len(),
    ensures
        keys_distinct(rows.remove(n)),
        rows_map(rows.remove(n)) == rows_map(rows).remove(rows[n].0@),
{
    let next = rows.remove(n);
    let k = rows[n].0@;
    assert forall|i: int, j: int|
        0 <= i < next.len() && 0 <= j < next.len() && (#[trigger] next[i]).0@ == (
        #[trigger] next[j]).0@ implies i == j by {
        let p = if i < n {
            i
        } else {
            i + 1
        };
        let q = if j < n {
            j
        } else {
            j + 1
        };
        assert(next[i] == rows[p]);
        assert(next[j] == rows[q]);
    }
    assert forall|x: K::V|
        rows_map(next).contains_key(x) == rows_map(rows).remove(k).contains_key(x) by {
        if rows_map(next).contains_key(x) {
            let i = lemma_map_has_row(next, x);
            let p = if i < n {
                i
            } else {
                i + 1
            };
            assert(next[i] == rows[p]);
            assert(row_has(rows, p, x));
            assert(rows[p].0@ == rows[n].0@ ==> p == n);
        }
        if rows_map(rows).remove(k).contains_key(x) {
            let i = lemma_map_has_row(rows, x);
            let p = if i < n {
                i
            } else {
                i - 1
            };
            assert(next[p] == rows[i]);
            assert(row_has(next, p, x));
        }
    }
    assert forall|x: K::V| rows_map(next).contains_key(x) implies rows_map(next)[x] == rows_map(
        rows,
    ).remove(k)[x] by {
        let i = lemma_map_has_row(next, x);
        lemma_row_in_map(next, i);
        let p = if i < n {
            i
        } else {
            i + 1
        };
        assert(next[i] == rows[p]);
        lemma_row_in_map(rows, p);
    }
    assert(rows_map(next) =~= rows_map(rows).remove(k));
}

impl<K: Key, V> View for Table<K, V> {
    type V = Map<K::V, V>;

    closed spec fn view(&self) -> Map<K::V, V> {
        rows_map(self.rows@)
    }
}

impl<K: Key, V> Table<K, V> {
    /// The rows, in the order in which their keys were first inserted.
    pub closed spec fn rows(&self) -> Seq<(K, V)> {
        self.rows@
    }

    /// No key occurs twice.
    pub open spec fn wf(&self) -> bool {
        keys_distinct(self.rows())
    }

    /// The view is the mapping that the rows stand for.
    pub proof fn lemma_view(&self)
        ensures
            self@ == rows_map(self.rows()),
    {
    }

    /// A table without rows.
    pub fn new() -> (table: Self)
        ensures
            table.wf(),
            table@ == Map::<K::V, V>::empty(),
            table.rows() == Seq::<(K, V)>::empty(),
    {
        let table = Table { rows: Vec::new() };
        assert(table@ =~= Map::<K::V, V>::empty());
        table
    }

    /// The number of rows.
    pub fn len(&self) -> (n: usize)
        requires
            self.wf(),
        ensures
            self@.dom().finite(),
            n == self@.len(),
            n == self.rows().len(),
    {
        proof {
            lemma_map_len(self.rows@);
        }
        self.rows.len()
    }

    /// The row at position `i`.
    pub fn row(&self, i: usize) -> (row: &(K, V))
        requires
            i < self.rows().len(),
        ensures
            *row == self.rows()[i as int],
    {
        &self.rows[i]
    }

    /// The position of the row with this key, or the number of rows if there is none.
    fn find(&self, k: &K) -> (i: usize)
        requires
            self.wf(),
        ensures
            self@.contains_key(k@) <==> i < self.rows@.len(),
            i <= self.rows@.len(),
            i < self.rows@.len() ==> self.rows@[i as int].0@ == k@,
    {
        let n: usize = self.rows.len();
        let mut i: usize = 0;
        while i < n
            invariant
                self.wf(),
                n == self.rows@.len(),
                i <= n,
                forall|j: int| 0 <= j < i ==> (#[trigger] self.rows@[j]).0@ != k@,
            decreases n - i,
        {
            if self.rows[i].0.same(k) {
                assert(row_has(self.rows@, i as int, k@));
                return i;
            }
            i += 1;
        }
        assert(!self@.contains_key(k@)) by {
            if self@.contains_key(k@) {
                let j = lemma_map_has_row(self.rows@, k@);
            }
        }
        n
    }

    /// The value of this key.
    pub fn get(&self, k: &K) -> (found: Option<&V>)
        requires
            self.wf(),
        ensures
            match found {
                Some(v) => self@.contains_key(k@) && *v == self@[k@],
                None => !self@.contains_key(k@),
            },
    {
        let i: usize = self.find(k);
        if i < self.rows.len() {
            proof {
                lemma_row_in_map(self.rows@, i as int);
            }
            Some(&self.rows[i].1)
        } else {
            None
        }
    }

    /// Gives this key this value, whether or not it had one.
    pub fn insert(&mut self, k: K, v: V)
        requires
            old(self).wf(),
        ensures
            final(self).wf(),
            final(self)@ == old(self)@.insert(k@, v),
    {
        let i: usize = self.find(&k);
        if i < self.rows.len() {
            proof {
                lemma_update(self.rows@, i as int, k, v);
            }
            self.rows.set(i, (k, v));
        } else {
            proof {
                lemma_push(self.rows@, k, v);
            }
            self.rows.push((k, v));
        }
    }

    /// Takes out the row at position `i`.
    pub fn remove_row(&mut self, i: usize)
        requires
            old(self).wf(),
            i < old(self).rows().len(),
        ensures
            final(self).wf(),
            final(self).rows() == old(self).rows().remove(i as int),
            final(self)@ == old(self)@.remove(old(self).rows()[i as int].0@),
    {
        proof {
            lemma_remove(self.rows@, i as int);
        }
        let _ = self.rows.remove(i);
    }

    /// Takes out the row of this key; tells whether there was one.
    pub fn remove(&mut self, k: &K) -> (removed: bool)
        requires
            old(self).wf(),
        ensures
            final(self).wf(),
            final(self)@ == old(self)@.remove(k@),
            removed == old(self)@.contains_key(k@),
    {
        let i: usize = self.find(k);
        if i < self.rows.len() {
            self.remove_row(i);
            true
        } else {
            assert(self@ =~= self@.remove(k@));
            false
        }
    }

    /// Takes out every row.
    pub fn clear(&mut self)
        ensures
            final(self).wf(),
            final(self)@ == Map::<K::V, V>::empty(),
    {
        self.rows.clear();
        assert(self@ =~= Map::<K::V, V>::empty());
    }
}

} // verus!
