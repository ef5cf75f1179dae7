//! Lists of feed entries that are kept ordered by date and hold at most one
//! entry per identity key (an item's guid).

use vstd::prelude::*;

verus! {

/// A feed entry: something with an identity key and a publication date by
/// which entries are ordered.
pub trait Entry: Sized {
    /// The identity of the entry (the item's guid).
    spec fn key(self) -> Seq<char>;

    /// `self` is dated no later than `other`.
    spec fn date_le(self, other: Self) -> bool;

    proof fn lemma_date_le_total(a: Self, b: Self)
        ensures
            a.date_le(b) || b.date_le(a),
    ;

    proof fn lemma_date_le_transitive(a: Self, b: Self, c: Self)
        requires
            a.date_le(b),
            b.date_le(c),
        ensures
            a.date_le(c),
    ;

    fn key_ref(&self) -> (k: &String)
        ensures
            k@ == self.key(),
    ;

    fn dated_no_later(&self, other: &Self) -> (r: bool)
        ensures
            r == self.date_le(*other),
    ;

    fn duplicate(&self) -> (r: Self)
        ensures
            r == *self,
    ;
}

/// Entries appear in date order.
pub open spec fn sorted_by_date<T: Entry>(s: Seq<T>) -> bool {
    forall|i: int, j: int| 0 <= i < j < s.len() ==> (#[trigger] s[i]).date_le(#[trigger] s[j])
}

/// No two entries share a key.
pub open spec fn unique_keys<T: Entry>(s: Seq<T>) -> bool {
    forall|i: int, j: int| 0 <= i < j < s.len() ==> (#[trigger] s[i]).key() != (#[trigger] s[j]).key()
}

/// `s` lists exactly the entries of `m`, one per key, each under its own key.
pub open spec fn lists_exactly<T: Entry>(s: Seq<T>, m: Map<Seq<char>, T>) -> bool {
    &&& unique_keys(s)
    &&& forall|i: int|
        0 <= i < s.len() ==> m.contains_key((#[trigger] s[i]).key()) && m[s[i].key()] == s[i]
    &&& forall|k: Seq<char>|
        #[trigger] m.contains_key(k) ==> exists|i: int| 0 <= i < s.len() && (#[trigger] s[i]).key() == k
}

/// The entries of `s` by key, where a later entry replaces an earlier one
/// with the same key.
pub open spec fn last_wins<T: Entry>(s: Seq<T>) -> Map<Seq<char>, T>
    decreases s.len(),
{
    if s.len() == 0 {
        Map::empty()
    } else {
        last_wins(s.drop_last()).insert(s.last().key(), s.last())
    }
}

/// Unfolds `last_wins` on a prefix one entry longer.
pub proof fn lemma_last_wins_step<T: Entry>(s: Seq<T>, i: int)
    requires
        0 <= i < s.len(),
    ensures
        last_wins(s.take(i + 1)) == last_wins(s.take(i)).insert(s[i].key(), s[i]),
{
    assert(s.take(i + 1).drop_last() =~= s.take(i));
}

/// Removing an entry from a list drops its key from what the list holds.
pub proof fn lemma_lists_remove<T: Entry>(s: Seq<T>, m: Map<Seq<char>, T>, k: int)
    requires
        lists_exactly(s, m),
        0 <= k < s.len(),
    ensures
        lists_exactly(s.remove(k), m.remove(s[k].key())),
{
    let t = s.remove(k);
    let g = s[k].key();
    let m2 = m.remove(g);
    s.remove_ensures(k);
    assert forall|i: int, j: int| 0 <= i < j < t.len() implies (#[trigger] t[i]).key() != (
    #[trigger] t[j]).key() by {
        let a = if i < k { i } else { i + 1 };
        let b = if j < k { j } else { j + 1 };
        assert(t[i] == s[a] && t[j] == s[b] && a < b);
    }
    assert forall|i: int| 0 <= i < t.len() implies m2.contains_key((#[trigger] t[i]).key())
        && m2[t[i].key()] == t[i] by {
        let a = if i < k { i } else { i + 1 };
        assert(t[i] == s[a]);
        if a < k {
            assert(s[a].key() != s[k].key());
        } else {
            assert(s[k].key() != s[a].key());
        }
    }
    assert forall|key: Seq<char>| #[trigger] m2.contains_key(key) implies exists|i: int|
        0 <= i < t.len() && (#[trigger] t[i]).key() == key by {
        assert(m.contains_key(key));
        let j = choose|j: int| 0 <= j < s.len() && (#[trigger] s[j]).key() == key;
        assert(j != k);
        if j < k {
            assert(t[j] == s[j]);
        } else {
            assert(t[j - 1] == s[j]);
        }
    }
}

/// Inserting an entry under a new key adds that key to what the list holds.
pub proof fn lemma_lists_insert<T: Entry>(s: Seq<T>, m: Map<Seq<char>, T>, p: int, x: T)
    requires
        lists_exactly(s, m),
        !m.contains_key(x.key()),
        0 <= p <= s.len(),
    ensures
        lists_exactly(s.insert(p, x), m.insert(x.key(), x)),
{
    let t = s.insert(p, x);
    let m2 = m.insert(x.key(), x);
    s.insert_ensures(p, x);
    assert forall|i: int| 0 <= i < s.len() implies (#[trigger] s[i]).key() != x.key() by {
        assert(m.contains_key(s[i].key()));
    }
    assert forall|i: int, j: int| 0 <= i < j < t.len() implies (#[trigger] t[i]).key() != (
    #[trigger] t[j]).key() by {
        if i < p {
            assert(t[i] == s[i]);
            if j < p {
                assert(t[j] == s[j]);
            } else if j > p {
                assert(t[j] == s[j - 1]);
            }
        } else if i == p {
            assert(t[j] == s[j - 1]);
        } else {
            assert(t[i] == s[i - 1] && t[j] == s[j - 1]);
        }
    }
    assert forall|i: int| 0 <= i < t.len() implies m2.contains_key((#[trigger] t[i]).key())
        && m2[t[i].key()] == t[i] by {
        if i < p {
            assert(t[i] == s[i]);
        } else if i > p {
            assert(t[i] == s[i - 1]);
        }
    }
    assert forall|key: Seq<char>| #[trigger] m2.contains_key(key) implies exists|i: int|
        0 <= i < t.len() && (#[trigger] t[i]).key() == key by {
        if key == x.key() {
            assert(t[p].key() == key);
        } else {
            assert(m.contains_key(key));
            let j = choose|j: int| 0 <= j < s.len() && (#[trigger] s[j]).key() == key;
            if j < p {
                assert(t[j] == s[j]);
            } else {
                assert(t[j + 1] == s[j]);
            }
        }
    }
}

/// Removing an entry keeps a list in date order.
pub proof fn lemma_sorted_remove<T: Entry>(s: Seq<T>, k: int)
    requires
        sorted_by_date(s),
        0 <= k < s.len(),
    ensures
        sorted_by_date(s.remove(k)),
{
    let t = s.remove(k);
    s.remove_ensures(k);
    assert forall|i: int, j: int| 0 <= i < j < t.len() implies (#[trigger] t[i]).date_le(
        #[trigger] t[j],
    ) by {
        let a = if i < k { i } else { i + 1 };
        let b = if j < k { j } else { j + 1 };
        assert(t[i] == s[a] && t[j] == s[b] && a < b);
    }
}

/// The position of the entry with key `k`, if the list holds one.
pub fn find_key<T: Entry>(v: &Vec<T>, k: &String) -> (r: Option<usize>)
    ensures
        match r {
            Some(i) => i < v@.len() && v@[i as int].key() == k@,
            None => forall|i: int| 0 <= i < v@.len() ==> (#[trigger] v@[i]).key() != k@,
        },
{
    let mut i: usize = 0;
    while i < v.len()
        invariant
            i <= v@.len(),
            forall|j: int| 0 <= j < i ==> (#[trigger] v@[j]).key() != k@,
        decreases v@.len() - i,
    {
        if *v[i].key_ref() == *k {
            return Some(i);
        }
        i = i + 1;
    }
    None
}

/// Inserts `x` after every entry dated no later than it, and before the
/// rest; returns the position it took.
pub fn insert_by_date<T: Entry>(v: &mut Vec<T>, x: T) -> (p: usize)
    requires
        sorted_by_date(old(v)@),
    ensures
        p <= old(v)@.len(),
        final(v)@ == old(v)@.insert(p as int, x),
        sorted_by_date(final(v)@),
{
    let ghost s = v@;
    let mut p: usize = 0;
    while p < v.len() && v[p].dated_no_later(&x)
        invariant
            v@ == s,
            p <= s.len(),
            forall|k: int| 0 <= k < p ==> (#[trigger] s[k]).date_le(x),
        decreases s.len() - p,
    {
        p = p + 1;
    }
    proof {
        if p < s.len() {
            T::lemma_date_le_total(s[p as int], x);
        }
    }
    v.insert(p, x);
    proof {
        let t = v@;
        s.insert_ensures(p as int, x);
        assert forall|i: int, j: int| 0 <= i < j < t.len() implies (#[trigger] t[i]).date_le(
            #[trigger] t[j],
        ) by {
            if j < p {
                assert(t[i] == s[i] && t[j] == s[j]);
            } else if j == p {
                assert(t[i] == s[i]);
            } else if i < p {
                assert(t[i] == s[i] && t[j] == s[j - 1]);
            } else if i == p {
                assert(t[j] == s[j - 1]);
                if j - 1 > p {
                    T::lemma_date_le_transitive(x, s[p as int], s[j - 1]);
                }
            } else {
                assert(t[i] == s[i - 1] && t[j] == s[j - 1]);
            }
        }
    }
    p
}

/// Puts `x` into a date-ordered list with unique keys, in place of the entry
/// with the same key if there is one.
fn upsert_by_date<T: Entry>(v: &mut Vec<T>, x: T, Ghost(m): Ghost<Map<Seq<char>, T>>)
    requires
        sorted_by_date(old(v)@),
        lists_exactly(old(v)@, m),
    ensures
        sorted_by_date(final(v)@),
        lists_exactly(final(v)@, m.insert(x.key(), x)),
{
    let ghost g = x.key();
    match find_key(v, x.key_ref()) {
        Some(k) => {
            proof {
                lemma_lists_remove(v@, m, k as int);
                lemma_sorted_remove(v@, k as int);
            }
            v.remove(k);
            let ghost m2 = m.remove(g);
            let ghost removed = v@;
            proof {
                assert(!m2.contains_key(g));
            }
            let p = insert_by_date(v, x);
            proof {
                lemma_lists_insert(removed, m2, p as int, x);
                assert(m2.insert(g, x) =~= m.insert(g, x));
            }
        },
        None => {
            proof {
                if m.contains_key(g) {
                    let j = choose|j: int| 0 <= j < v@.len() && (#[trigger] v@[j]).key() == g;
                    assert(v@[j].key() != g);
                }
            }
            let ghost before = v@;
            let p = insert_by_date(v, x);
            proof {
                lemma_lists_insert(before, m, p as int, x);
            }
        },
    }
}

/// The entries of `items` in date order, one per key, where a later entry
/// replaces an earlier one with the same key.
pub fn latest_by_key<T: Entry>(items: &Vec<T>) -> (out: Vec<T>)
    ensures
        sorted_by_date(out@),
        lists_exactly(out@, last_wins(items@)),
{
    let mut out: Vec<T> = Vec::new();
    let mut i: usize = 0;
    proof {
        assert(items@.take(0) =~= Seq::<T>::empty());
        assert(lists_exactly(out@, last_wins(items@.take(0))));
    }
    while i < items.len()
        invariant
            i <= items@.len(),
            sorted_by_date(out@),
            lists_exactly(out@, last_wins(items@.take(i as int))),
        decreases items@.len() - i,
    {
        let x = items[i].duplicate();
        proof {
            lemma_last_wins_step(items@, i as int);
        }
        upsert_by_date(&mut out, x, Ghost(last_wins(items@.take(i as int))));
        i = i + 1;
    }
    proof {
        assert(items@.take(items@.len() as int) =~= items@);
    }
    out
}

/// A list with one entry per key is its own `last_wins`: deduplicating an
/// already deduplicated list changes nothing.
pub proof fn lemma_last_wins_of_listing<T: Entry>(s: Seq<T>, m: Map<Seq<char>, T>)
    requires
        lists_exactly(s, m),
    ensures
        last_wins(s) == m,
    decreases s.len(),
{
    if s.len() == 0 {
        assert forall|k: Seq<char>| !m.contains_key(k) by {
            if m.contains_key(k) {
                let i = choose|i: int| 0 <= i < s.len() && (#[trigger] s[i]).key() == k;
            }
        }
        assert(m =~= Map::empty());
    } else {
        let n = s.len() - 1;
        let x = s[n];
        lemma_lists_remove(s, m, n);
        assert(s.remove(n) =~= s.drop_last());
        lemma_last_wins_of_listing(s.drop_last(), m.remove(x.key()));
        assert(m.remove(x.key()).insert(x.key(), x) =~= m);
    }
}

/// What `last_wins` holds: exactly the keys of the list, each with the last
/// entry that has it.
pub proof fn lemma_last_wins_contents<T: Entry>(s: Seq<T>)
    ensures
        forall|k: Seq<char>|
            #[trigger] last_wins(s).contains_key(k) <==> exists|i: int|
                0 <= i < s.len() && (#[trigger] s[i]).key() == k,
        forall|i: int|
            0 <= i < s.len() && (forall|j: int| i < j < s.len() ==> (#[trigger] s[j]).key() != s[i].key())
                ==> last_wins(s)[(#[trigger] s[i]).key()] == s[i],
    decreases s.len(),
{
    if s.len() > 0 {
        let t = s.drop_last();
        let n = s.len() - 1;
        lemma_last_wins_contents(t);
        assert forall|k: Seq<char>| #[trigger] last_wins(s).contains_key(k) <==> exists|i: int|
            0 <= i < s.len() && (#[trigger] s[i]).key() == k by {
            assert(last_wins(s) == last_wins(t).insert(s[n].key(), s[n]));
            if k == s[n].key() {
                assert(s[n].key() == k);
            }
            if last_wins(s).contains_key(k) && k != s[n].key() {
                assert(last_wins(t).contains_key(k));
                let i = choose|i: int| 0 <= i < t.len() && (#[trigger] t[i]).key() == k;
                assert(s[i] == t[i]);
            }
            if exists|i: int| 0 <= i < s.len() && (#[trigger] s[i]).key() == k {
                let i = choose|i: int| 0 <= i < s.len() && (#[trigger] s[i]).key() == k;
                if i < n {
                    assert(t[i] == s[i]);
                }
            }
        }
        assert forall|i: int|
            0 <= i < s.len() && (forall|j: int| i < j < s.len() ==> (#[trigger] s[j]).key() != s[i].key())
            implies last_wins(s)[(#[trigger] s[i]).key()] == s[i] by {
            if i < n {
                assert(s[n].key() != s[i].key());
                assert(t[i] == s[i]);
                assert forall|j: int| i < j < t.len() implies (#[trigger] t[j]).key() != t[i].key() by {
                    assert(t[j] == s[j]);
                }
            }
        }
    }
}

/// Every entry that `last_wins` holds is one of the list's entries.
pub proof fn lemma_last_wins_value<T: Entry>(s: Seq<T>, k: Seq<char>)
    requires
        last_wins(s).contains_key(k),
    ensures
        exists|i: int| 0 <= i < s.len() && last_wins(s)[k] == #[trigger] s[i],
    decreases s.len(),
{
    let t = s.drop_last();
    let n = s.len() - 1;
    if s.len() > 0 {
        if k == s[n].key() {
            assert(last_wins(s)[k] == s[n]);
        } else {
            lemma_last_wins_value(t, k);
            let i = choose|i: int| 0 <= i < t.len() && last_wins(t)[k] == #[trigger] t[i];
            assert(s[i] == t[i]);
        }
    }
}

} // verus!
