//! A table of records keyed by a text identifier, as a database table with
//! a primary key holds them, and the ordered listings that are read from it.

use vstd::prelude::*;

verus! {

/// A record that can be stored in a `Table`: it has a text key, an order in
/// which listings show it, and can be copied.
pub trait Row: View + Sized {
    /// The primary key of a record.
    spec fn key_of(v: Self::V) -> Seq<char>;

    /// Whether a listing may show `a` before `b`; a total preorder.
    spec fn listed_before(a: Self::V, b: Self::V) -> bool;

    proof fn lemma_listed_before_total(a: Self::V, b: Self::V)
        ensures
            Self::listed_before(a, b) || Self::listed_before(b, a),
    ;

    proof fn lemma_listed_before_transitive(a: Self::V, b: Self::V, c: Self::V)
        requires
            Self::listed_before(a, b),
            Self::listed_before(b, c),
        ensures
            Self::listed_before(a, c),
    ;

    fn key(&self) -> (k: &String)
        ensures
            k@ == Self::key_of(self@),
    ;

    fn goes_before(&self, other: &Self) -> (r: bool)
        ensures
            r == Self::listed_before(self@, other@),
    ;

    fn duplicate(&self) -> (r: Self)
        ensures
            r@ == self@,
    ;
}

/// The views of a sequence of records.
pub open spec fn views<T: View>(s: Seq<T>) -> Seq<T::V> {
    s.map_values(|r: T| r@)
}

/// No two records of `s` share a key.
pub open spec fn keys_distinct<T: Row>(s: Seq<T::V>) -> bool {
    forall|i: int, j: int|
        0 <= i < s.len() && 0 <= j < s.len() && i != j ==> T::key_of(#[trigger] s[i]) != T::key_of(
            #[trigger] s[j],
        )
}

/// Some record of `s` has key `k`.
pub open spec fn has_key<T: Row>(s: Seq<T::V>, k: Seq<char>) -> bool {
    exists|i: int| 0 <= i < s.len() && T::key_of(#[trigger] s[i]) == k
}

/// `s` is in listing order.
pub open spec fn in_listing_order<T: Row>(s: Seq<T::V>) -> bool {
    forall|i: int, j: int| 0 <= i < j < s.len() ==> T::listed_before(#[trigger] s[i], #[trigger] s[j])
}

/// `shown` is what a listing of at most `limit` records of `all` shows:
/// as many records as `all` has, up to `limit`, each of them a record of
/// `all` and none twice, in listing order, and none of the records left out
/// comes before a record shown; when `all` has no more than `limit` records,
/// every one of them is shown. Only the order among records that tie is
/// left open.
pub open spec fn is_listing<T: Row>(all: Seq<T::V>, shown: Seq<T::V>, limit: nat) -> bool {
    &&& shown.len() == if all.len() <= limit { all.len() } else { limit }
    &&& in_listing_order::<T>(shown)
    &&& keys_distinct::<T>(shown)
    &&& forall|i: int| 0 <= i < shown.len() ==> all.contains(#[trigger] shown[i])
    &&& forall|x: T::V|
        #![trigger all.contains(x), shown.contains(x)]
        all.contains(x) && !shown.contains(x) ==> forall|i: int|
            0 <= i < shown.len() ==> T::listed_before(#[trigger] shown[i], x)
    &&& all.len() <= limit ==> forall|x: T::V| #[trigger] all.contains(x) ==> shown.contains(x)
}

/// The records of a table, in the order they were stored. No two share a
/// key.
pub struct Table<T: Row> {
    rows: Vec<T>,
}

impl<T: Row> View for Table<T> {
    type V = Seq<T::V>;

    closed spec fn view(&self) -> Seq<T::V> {
        views(self.rows@)
    }
}

/// Removes the record at `i` of `pool` and hands it out.
fn take_at<T: Row>(pool: &mut Vec<T>, i: usize) -> (r: T)
    requires
        i < old(pool).len(),
    ensures
        r@ == views(old(pool)@)[i as int],
        views(final(pool)@) == views(old(pool)@).remove(i as int),
{
    let r = pool.remove(i);
    assert(views(pool@) =~= views(old(pool)@).remove(i as int));
    r
}

/// Appends `r` to `out`.
fn put_last<T: Row>(out: &mut Vec<T>, r: T)
    ensures
        views(final(out)@) == views(old(out)@).push(r@),
{
    out.push(r);
    assert(views(out@) =~= views(old(out)@).push(r@));
}

/// The index of a record of `pool` that may be listed before every other.
fn first_listed<T: Row>(pool: &Vec<T>) -> (b: usize)
    requires
        pool.len() > 0,
    ensures
        b < pool.len(),
        forall|j: int|
            0 <= j < pool.len() ==> T::listed_before(
                views(pool@)[b as int],
                #[trigger] views(pool@)[j],
            ),
{
    let ghost pv = views(pool@);
    let mut b: usize = 0;
    let mut i: usize = 1;
    proof {
        T::lemma_listed_before_total(pv[0], pv[0]);
    }
    while i < pool.len()
        invariant
            pv == views(pool@),
            b < i <= pool.len(),
            forall|j: int| 0 <= j < i ==> T::listed_before(pv[b as int], #[trigger] pv[j]),
        decreases pool.len() - i,
    {
        if !pool[b].goes_before(&pool[i]) {
            proof {
                T::lemma_listed_before_total(pv[b as int], pv[i as int]);
                T::lemma_listed_before_total(pv[i as int], pv[i as int]);
                assert forall|j: int| 0 <= j < i + 1 implies T::listed_before(
                    pv[i as int],
                    #[trigger] pv[j],
                ) by {
                    if j < i {
                        T::lemma_listed_before_transitive(pv[i as int], pv[b as int], pv[j]);
                    }
                }
            }
            b = i;
        }
        i = i + 1;
    }
    b
}

/// Moves the first `limit` records of `pool` in listing order out of it,
/// in that order.
fn select_listing<T: Row>(pool: Vec<T>, limit: usize) -> (shown: Vec<T>)
    requires
        keys_distinct::<T>(views(pool@)),
    ensures
        is_listing::<T>(views(pool@), views(shown@), limit as nat),
{
    let ghost all = views(pool@);
    let n = pool.len();
    let want = if n <= limit {
        n
    } else {
        limit
    };
    let mut pool = pool;
    let mut out: Vec<T> = Vec::new();
    assert(views(out@) =~= Seq::<T::V>::empty());
    while out.len() < want
        invariant
            n == all.len(),
            want <= n,
            want == if n <= limit { n } else { limit },
            out.len() + pool.len() == n,
            out.len() <= want,
            keys_distinct::<T>(views(out@)),
            keys_distinct::<T>(views(pool@)),
            forall|k: int, j: int|
                0 <= k < out.len() && 0 <= j < pool.len() ==> T::key_of(#[trigger] views(out@)[k])
                    != T::key_of(#[trigger] views(pool@)[j]),
            forall|k: int| 0 <= k < out.len() ==> all.contains(#[trigger] views(out@)[k]),
            forall|j: int| 0 <= j < pool.len() ==> all.contains(#[trigger] views(pool@)[j]),
            forall|x: T::V|
                all.contains(x) ==> #[trigger] views(out@).contains(x) || views(pool@).contains(x),
            in_listing_order::<T>(views(out@)),
            forall|k: int, j: int|
                0 <= k < out.len() && 0 <= j < pool.len() ==> T::listed_before(
                    #[trigger] views(out@)[k],
                    #[trigger] views(pool@)[j],
                ),
        decreases want - out.len(),
    {
        let ghost ov = views(out@);
        let ghost pv = views(pool@);
        let b = first_listed(&pool);
        let r = take_at(&mut pool, b);
        put_last(&mut out, r);
        proof {
            let ov2 = views(out@);
            let pv2 = views(pool@);
            assert(ov2 == ov.push(pv[b as int]));
            assert(pv2 == pv.remove(b as int));
            assert forall|j: int| 0 <= j < pv2.len() implies #[trigger] pv2[j] == pv[if j < b {
                j
            } else {
                j + 1
            }] by {}
            assert forall|k: int, j: int|
                0 <= k < ov2.len() && 0 <= j < pv2.len() implies T::key_of(#[trigger] ov2[k])
                != T::key_of(#[trigger] pv2[j]) by {
                let jj = if j < b {
                    j
                } else {
                    j + 1
                };
                assert(pv2[j] == pv[jj]);
                if k < ov.len() {
                    assert(ov2[k] == ov[k]);
                } else {
                    assert(ov2[k] == pv[b as int]);
                }
            }
            assert forall|i: int, j: int|
                0 <= i < ov2.len() && 0 <= j < ov2.len() && i != j implies T::key_of(
                #[trigger] ov2[i],
            ) != T::key_of(#[trigger] ov2[j]) by {
                if i < ov.len() && j < ov.len() {
                } else if i < ov.len() {
                    assert(ov2[j] == pv[b as int]);
                    assert(ov2[i] == ov[i]);
                } else if j < ov.len() {
                    assert(ov2[i] == pv[b as int]);
                    assert(ov2[j] == ov[j]);
                }
            }
            assert forall|i: int, j: int|
                0 <= i < pv2.len() && 0 <= j < pv2.len() && i != j implies T::key_of(
                #[trigger] pv2[i],
            ) != T::key_of(#[trigger] pv2[j]) by {
                let ii = if i < b {
                    i
                } else {
                    i + 1
                };
                let jj = if j < b {
                    j
                } else {
                    j + 1
                };
                assert(pv2[i] == pv[ii]);
                assert(pv2[j] == pv[jj]);
            }
            assert forall|k: int| 0 <= k < ov2.len() implies all.contains(#[trigger] ov2[k]) by {
                if k < ov.len() {
                    assert(ov2[k] == ov[k]);
                } else {
                    assert(ov2[k] == pv[b as int]);
                }
            }
            assert forall|j: int| 0 <= j < pv2.len() implies all.contains(#[trigger] pv2[j]) by {
                let jj = if j < b {
                    j
                } else {
                    j + 1
                };
                assert(pv2[j] == pv[jj]);
            }
            assert forall|x: T::V| all.contains(x) implies #[trigger] ov2.contains(x)
                || pv2.contains(x) by {
                if ov.contains(x) {
                    let k = choose|k: int| 0 <= k < ov.len() && ov[k] == x;
                    assert(ov2[k] == x);
                } else {
                    assert(pv.contains(x));
                    let j = choose|j: int| 0 <= j < pv.len() && pv[j] == x;
                    if j == b {
                        assert(ov2[ov.len() as int] == x);
                    } else if j < b {
                        assert(pv2[j] == x);
                    } else {
                        assert(pv2[j - 1] == x);
                    }
                }
            }
            assert forall|i: int, j: int| 0 <= i < j < ov2.len() implies T::listed_before(
                #[trigger] ov2[i],
                #[trigger] ov2[j],
            ) by {
                if j < ov.len() {
                    assert(ov2[i] == ov[i]);
                    assert(ov2[j] == ov[j]);
                } else {
                    assert(ov2[i] == ov[i]);
                    assert(ov2[j] == pv[b as int]);
                }
            }
            assert forall|k: int, j: int|
                0 <= k < ov2.len() && 0 <= j < pv2.len() implies T::listed_before(
                #[trigger] ov2[k],
                #[trigger] pv2[j],
            ) by {
                let jj = if j < b {
                    j
                } else {
                    j + 1
                };
                assert(pv2[j] == pv[jj]);
                if k < ov.len() {
                    assert(ov2[k] == ov[k]);
                } else {
                    assert(ov2[k] == pv[b as int]);
                }
            }
        }
    }
    proof {
        let ov = views(out@);
        let pv = views(pool@);
        assert forall|x: T::V|
            #![trigger all.contains(x), ov.contains(x)]
            all.contains(x) && !ov.contains(x) implies forall|i: int|
            0 <= i < ov.len() ==> T::listed_before(#[trigger] ov[i], x) by {
            assert(pv.contains(x));
            let j = choose|j: int| 0 <= j < pv.len() && pv[j] == x;
            assert forall|i: int| 0 <= i < ov.len() implies T::listed_before(
                #[trigger] ov[i],
                x,
            ) by {
                assert(T::listed_before(ov[i], pv[j]));
            }
        }
        if n <= limit {
            assert forall|x: T::V| #[trigger] all.contains(x) implies ov.contains(x) by {
                if pv.contains(x) {
                    let j = choose|j: int| 0 <= j < pv.len() && pv[j] == x;
                }
            }
        }
    }
    out
}


/// Keeping only some records of a sequence whose keys are distinct keeps
/// them distinct.
pub(crate) proof fn lemma_filter_keys_distinct<T: Row>(s: Seq<T::V>, pred: spec_fn(T::V) -> bool)
    requires
        keys_distinct::<T>(s),
    ensures
        keys_distinct::<T>(s.filter(pred)),
    decreases s.len(),
{
    if s.len() > 0 {
        let init = s.drop_last();
        let last = s.last();
        assert(keys_distinct::<T>(init));
        lemma_filter_keys_distinct::<T>(init, pred);
        let f = init.filter(pred);
        assert(s =~= init.push(last));
        init.lemma_filter_push(last, pred);
        if pred(last) {
            let g = f.push(last);
            assert forall|i: int, j: int|
                0 <= i < g.len() && 0 <= j < g.len() && i != j implies T::key_of(#[trigger] g[i])
                != T::key_of(#[trigger] g[j]) by {
                if i == f.len() || j == f.len() {
                    let m = if i == f.len() {
                        j
                    } else {
                        i
                    };
                    assert(g[m] == f[m]);
                    assert(f.contains(f[m]));
                    init.lemma_filter_contains_rev(pred, f[m]);
                    let k = choose|k: int| 0 <= k < init.len() && init[k] == f[m];
                    assert(s[k] == f[m]);
                    assert(s[s.len() - 1] == last);
                } else {
                    assert(g[i] == f[i]);
                    assert(g[j] == f[j]);
                }
            }
        }
    } else {
        reveal(Seq::filter);
    }
}

/// The records of `rows` whose key is not `key`, in their order.
fn rows_without_key<T: Row>(rows: &Vec<T>, key: &String) -> (kept: Vec<T>)
    ensures
        views(kept@) == views(rows@).filter(|v: T::V| T::key_of(v) != key@),
{
    let ghost pred = |v: T::V| T::key_of(v) != key@;
    let ghost all = views(rows@);
    let mut kept: Vec<T> = Vec::new();
    let mut i: usize = 0;
    assert(all.take(0) =~= Seq::<T::V>::empty());
    proof {
        reveal(Seq::filter);
    }
    assert(views(kept@) =~= Seq::<T::V>::empty());
    while i < rows.len()
        invariant
            i <= rows.len(),
            all == views(rows@),
            pred == (|v: T::V| T::key_of(v) != key@),
            views(kept@) == all.take(i as int).filter(pred),
        decreases rows.len() - i,
    {
        proof {
            assert(all.take(i + 1) =~= all.take(i as int).push(all[i as int]));
            all.take(i as int).lemma_filter_push(all[i as int], pred);
        }
        if *rows[i].key() != *key {
            let r = rows[i].duplicate();
            put_last(&mut kept, r);
        }
        i = i + 1;
    }
    assert(all.take(rows.len() as int) =~= all);
    kept
}

impl<T: Row> Table<T> {
    /// No two records of a table share a key.
    #[verifier::type_invariant]
    spec fn keys_unique(self) -> bool {
        keys_distinct::<T>(views(self.rows@))
    }

    /// An empty table.
    pub fn new() -> (t: Self)
        ensures
            t@ == Seq::<T::V>::empty(),
    {
        let t = Table { rows: Vec::new() };
        assert(t@ =~= Seq::<T::V>::empty());
        t
    }

    /// The number of records.
    pub fn len(&self) -> (n: usize)
        ensures
            n == self@.len(),
    {
        self.rows.len()
    }

    /// The records, in the order they were stored.
    pub fn rows(&self) -> (r: &Vec<T>)
        ensures
            views(r@) == self@,
            keys_distinct::<T>(self@),
    {
        proof {
            use_type_invariant(self);
        }
        &self.rows
    }

    /// Whether a record has key `key`.
    pub fn contains_key(&self, key: &String) -> (r: bool)
        ensures
            r == has_key::<T>(self@, key@),
    {
        let ghost v = self@;
        let mut i: usize = 0;
        while i < self.rows.len()
            invariant
                i <= self.rows.len(),
                v == views(self.rows@),
                forall|j: int| 0 <= j < i ==> T::key_of(#[trigger] v[j]) != key@,
            decreases self.rows.len() - i,
        {
            if *self.rows[i].key() == *key {
                assert(T::key_of(v[i as int]) == key@);
                return true;
            }
            i = i + 1;
        }
        false
    }

    /// Stores `row` unless a record with its key is stored already, as an
    /// `INSERT` into a table with a primary key does; tells whether it was
    /// stored.
    pub fn insert(&mut self, row: T) -> (inserted: bool)
        ensures
            inserted == !has_key::<T>(old(self)@, T::key_of(row@)),
            inserted ==> final(self)@ == old(self)@.push(row@),
            !inserted ==> final(self)@ == old(self)@,
            keys_distinct::<T>(final(self)@),
    {
        proof {
            use_type_invariant(&*self);
        }
        if self.contains_key(row.key()) {
            false
        } else {
            let ghost old_v = self@;
            let ghost rv = row@;
            let mut rows = Vec::new();
            std::mem::swap(&mut rows, &mut self.rows);
            put_last(&mut rows, row);
            proof {
                let nv = views(rows@);
                assert(nv == old_v.push(rv));
                assert forall|i: int, j: int|
                    0 <= i < nv.len() && 0 <= j < nv.len() && i != j implies T::key_of(
                    #[trigger] nv[i],
                ) != T::key_of(#[trigger] nv[j]) by {
                    if i == old_v.len() {
                        assert(nv[j] == old_v[j]);
                    } else if j == old_v.len() {
                        assert(nv[i] == old_v[i]);
                    } else {
                        assert(nv[i] == old_v[i]);
                        assert(nv[j] == old_v[j]);
                    }
                }
            }
            self.rows = rows;
            true
        }
    }

    /// Removes the record with key `key`, if there is one.
    pub fn remove_key(&mut self, key: &String)
        ensures
            final(self)@ == old(self)@.filter(|v: T::V| T::key_of(v) != key@),
            keys_distinct::<T>(final(self)@),
    {
        proof {
            use_type_invariant(&*self);
        }
        let kept = rows_without_key(&self.rows, key);
        proof {
            lemma_filter_keys_distinct::<T>(self@, |v: T::V| T::key_of(v) != key@);
        }
        self.rows = kept;
    }

    /// Stores `row` in place of any record with its key, as an
    /// `INSERT OR REPLACE` does: the old record is removed and `row` added.
    pub fn upsert(&mut self, row: T)
        ensures
            final(self)@ == old(self)@.filter(|v: T::V| T::key_of(v) != T::key_of(row@)).push(
                row@,
            ),
            keys_distinct::<T>(final(self)@),
    {
        let key = row.key().clone();
        self.remove_key(&key);
        let inserted = self.insert(row);
        proof {
            let f = old(self)@.filter(|v: T::V| T::key_of(v) != key@);
            broadcast use vstd::seq_lib::group_filter_ensures;

            if !inserted {
                let i = choose|i: int| 0 <= i < f.len() && T::key_of(#[trigger] f[i]) == key@;
                assert((|v: T::V| T::key_of(v) != key@)(f[i]));
            }
        }
    }

    /// Removes every record.
    pub fn clear(&mut self)
        ensures
            final(self)@ == Seq::<T::V>::empty(),
    {
        self.rows = Vec::new();
        assert(self@ =~= Seq::<T::V>::empty());
    }

    /// The first `limit` records in listing order.
    pub fn listing(&self, limit: usize) -> (shown: Vec<T>)
        ensures
            is_listing::<T>(self@, views(shown@), limit as nat),
    {
        proof {
            use_type_invariant(self);
        }
        let mut copy: Vec<T> = Vec::new();
        let mut i: usize = 0;
        assert(views(copy@) =~= views(self.rows@).take(0));
        while i < self.rows.len()
            invariant
                i <= self.rows.len(),
                views(copy@) == views(self.rows@).take(i as int),
            decreases self.rows.len() - i,
        {
            let r = self.rows[i].duplicate();
            put_last(&mut copy, r);
            assert(views(self.rows@).take(i + 1) =~= views(self.rows@).take(i as int).push(r@));
            i = i + 1;
        }
        assert(views(self.rows@).take(self.rows.len() as int) =~= views(self.rows@));
        select_listing(copy, limit)
    }

    /// Keeps only the first `limit` records in listing order, stored in
    /// that order, and removes the others.
    pub fn keep_listing(&mut self, limit: usize)
        ensures
            is_listing::<T>(old(self)@, final(self)@, limit as nat),
            keys_distinct::<T>(final(self)@),
    {
        proof {
            use_type_invariant(&*self);
        }
        let mut rows = Vec::new();
        std::mem::swap(&mut rows, &mut self.rows);
        let kept = select_listing(rows, limit);
        self.rows = kept;
    }

    /// Replaces the records with `rows`, whose keys are distinct.
    pub(crate) fn replace_rows(&mut self, rows: Vec<T>)
        requires
            keys_distinct::<T>(views(rows@)),
        ensures
            final(self)@ == views(rows@),
    {
        self.rows = rows;
    }
}

} // verus!
