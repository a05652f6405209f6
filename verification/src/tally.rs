//! A table of occurrence counts per text key, kept in ascending key order.

use vstd::prelude::*;
use crate::text::{
    lemma_text_lt_irreflexive, lemma_text_lt_total, lemma_text_lt_transitive, text_equal, text_less,
    text_lt,
};

verus! {

/// One key with the number of times it was counted.
#[derive(Debug)]
pub struct CountEntry {
    pub key: String,
    pub count: u64,
}

/// Occurrence counts per key. The entries are held in strictly ascending
/// key order, so no key occurs twice, and every entry has a count of at
/// least one.
#[derive(Debug)]
pub struct CountTable {
    entries: Vec<CountEntry>,
}

/// The keys of `s` are in strictly ascending order.
pub open spec fn pairs_ascending(s: Seq<(Seq<char>, nat)>) -> bool {
    forall|i: int, j: int|
        #![trigger s[i], s[j]]
        0 <= i < j < s.len() ==> text_lt(s[i].0, s[j].0)
}

/// The count that `s` holds for `key`: zero where no pair has that key.
pub open spec fn pair_count(s: Seq<(Seq<char>, nat)>, key: Seq<char>) -> nat
    decreases s.len(),
{
    if s.len() == 0 {
        0
    } else if s.last().0 == key {
        s.last().1
    } else {
        pair_count(s.drop_last(), key)
    }
}

/// A key that no pair holds has count zero.
pub proof fn lemma_pair_count_absent(s: Seq<(Seq<char>, nat)>, key: Seq<char>)
    requires
        forall|i: int| 0 <= i < s.len() ==> (#[trigger] s[i]).0 != key,
    ensures
        pair_count(s, key) == 0,
    decreases s.len(),
{
    if s.len() > 0 {
        assert(s.last() == s[s.len() - 1]);
        let t = s.drop_last();
        assert forall|i: int| 0 <= i < t.len() implies (#[trigger] t[i]).0 != key by {
            assert(t[i] == s[i]);
        }
        lemma_pair_count_absent(t, key);
    }
}

/// In an ascending sequence the count of the key at index `i` is the count
/// of that pair.
pub proof fn lemma_pair_count_at(s: Seq<(Seq<char>, nat)>, i: int)
    requires
        pairs_ascending(s),
        0 <= i < s.len(),
    ensures
        pair_count(s, s[i].0) == s[i].1,
    decreases s.len(),
{
    let last = s.len() - 1;
    assert(s.last() == s[last]);
    if i < last {
        assert(text_lt(s[i].0, s[last].0));
        lemma_text_lt_irreflexive(s[i].0);
        let t = s.drop_last();
        assert forall|a: int, b: int|
            #![trigger t[a], t[b]]
            0 <= a < b < t.len() implies text_lt(t[a].0, t[b].0) by {
            assert(t[a] == s[a] && t[b] == s[b]);
        }
        assert(t[i] == s[i]);
        lemma_pair_count_at(t, i);
    }
}

/// A key with a positive count is the key of some pair.
pub proof fn lemma_pair_count_present(s: Seq<(Seq<char>, nat)>, key: Seq<char>)
    requires
        pair_count(s, key) > 0,
    ensures
        exists|i: int| 0 <= i < s.len() && (#[trigger] s[i]).0 == key,
{
    if forall|i: int| 0 <= i < s.len() ==> (#[trigger] s[i]).0 != key {
        lemma_pair_count_absent(s, key);
    }
}

/// Two ascending sequences of pairs with counts of at least one that hold
/// the same count for every key are the same sequence.
pub proof fn lemma_pairs_determined(a: Seq<(Seq<char>, nat)>, b: Seq<(Seq<char>, nat)>)
    requires
        pairs_ascending(a),
        pairs_ascending(b),
        forall|i: int| 0 <= i < a.len() ==> (#[trigger] a[i]).1 >= 1,
        forall|i: int| 0 <= i < b.len() ==> (#[trigger] b[i]).1 >= 1,
        forall|k: Seq<char>| #[trigger] pair_count(a, k) == pair_count(b, k),
    ensures
        a == b,
    decreases a.len(),
{
    if a.len() == 0 || b.len() == 0 {
        if a.len() > 0 {
            lemma_pair_count_at(a, 0);
            assert(pair_count(a, a[0].0) == pair_count(b, a[0].0));
        }
        if b.len() > 0 {
            lemma_pair_count_at(b, 0);
            assert(pair_count(a, b[0].0) == pair_count(b, b[0].0));
        }
        assert(a =~= b);
    } else {
        let la = a[a.len() - 1];
        let lb = b[b.len() - 1];
        lemma_pair_count_at(a, a.len() - 1);
        lemma_pair_count_at(b, b.len() - 1);
        assert(pair_count(a, la.0) == pair_count(b, la.0));
        assert(pair_count(a, lb.0) == pair_count(b, lb.0));
        lemma_pair_count_present(b, la.0);
        lemma_pair_count_present(a, lb.0);
        let j = choose|j: int| 0 <= j < b.len() && (#[trigger] b[j]).0 == la.0;
        let i = choose|i: int| 0 <= i < a.len() && (#[trigger] a[i]).0 == lb.0;
        if j < b.len() - 1 {
            assert(text_lt(b[j].0, b[b.len() - 1].0));
        }
        if i < a.len() - 1 {
            assert(text_lt(a[i].0, a[a.len() - 1].0));
        }
        if la.0 != lb.0 {
            lemma_text_lt_transitive(la.0, lb.0, la.0);
            lemma_text_lt_irreflexive(la.0);
        }
        let fa = a.drop_last();
        let fb = b.drop_last();
        assert forall|x: int, y: int|
            #![trigger fa[x], fa[y]]
            0 <= x < y < fa.len() implies text_lt(fa[x].0, fa[y].0) by {
            assert(fa[x] == a[x] && fa[y] == a[y]);
        }
        assert forall|x: int, y: int|
            #![trigger fb[x], fb[y]]
            0 <= x < y < fb.len() implies text_lt(fb[x].0, fb[y].0) by {
            assert(fb[x] == b[x] && fb[y] == b[y]);
        }
        assert forall|x: int| 0 <= x < fa.len() implies (#[trigger] fa[x]).1 >= 1 && fa[x].0
            != la.0 by {
            assert(fa[x] == a[x]);
            assert(text_lt(a[x].0, a[a.len() - 1].0));
            lemma_text_lt_irreflexive(la.0);
        }
        assert forall|x: int| 0 <= x < fb.len() implies (#[trigger] fb[x]).1 >= 1 && fb[x].0
            != lb.0 by {
            assert(fb[x] == b[x]);
            assert(text_lt(b[x].0, b[b.len() - 1].0));
            lemma_text_lt_irreflexive(lb.0);
        }
        lemma_pair_count_absent(fa, la.0);
        lemma_pair_count_absent(fb, lb.0);
        assert forall|k: Seq<char>| #[trigger] pair_count(fa, k) == pair_count(fb, k) by {
            assert(pair_count(a, k) == pair_count(b, k));
        }
        lemma_pairs_determined(fa, fb);
        assert(a =~= fa.push(la));
        assert(b =~= fb.push(lb));
    }
}

/// How many times `key` occurs in `names`.
pub open spec fn occurrences(names: Seq<Seq<char>>, key: Seq<char>) -> nat
    decreases names.len(),
{
    if names.len() == 0 {
        0
    } else {
        occurrences(names.drop_last(), key) + if names.last() == key {
            1nat
        } else {
            0nat
        }
    }
}

/// No key occurs more often than there are names.
pub proof fn lemma_occurrences_bound(names: Seq<Seq<char>>, key: Seq<char>)
    ensures
        occurrences(names, key) <= names.len(),
    decreases names.len(),
{
    if names.len() > 0 {
        lemma_occurrences_bound(names.drop_last(), key);
    }
}

/// A key occurs in `names` a positive number of times exactly when it is
/// one of the names.
pub proof fn lemma_occurrences_positive(names: Seq<Seq<char>>, key: Seq<char>)
    ensures
        occurrences(names, key) > 0 <==> names.contains(key),
    decreases names.len(),
{
    if names.len() > 0 {
        let front = names.drop_last();
        lemma_occurrences_positive(front, key);
        if names.contains(key) {
            let i = choose|i: int| 0 <= i < names.len() && names[i] == key;
            if i < names.len() - 1 {
                assert(front[i] == key);
            }
        }
        if front.contains(key) {
            let i = choose|i: int| 0 <= i < front.len() && front[i] == key;
            assert(names[i] == key);
        }
        if names.last() == key {
            assert(names[names.len() - 1] == key);
        }
    }
}

impl View for CountTable {
    type V = Seq<(Seq<char>, nat)>;

    /// The entries as pairs of key and count, in the order they are held.
    closed spec fn view(&self) -> Seq<(Seq<char>, nat)> {
        Seq::new(self.entries@.len(), |i: int| (self.entries@[i].key@, self.entries@[i].count as nat))
    }
}

impl CountTable {
    /// The invariant of the table: ascending keys, counts of at least one
    /// that fit the machine integer that holds them.
    pub open spec fn wf(&self) -> bool {
        &&& pairs_ascending(self@)
        &&& forall|i: int| 0 <= i < self@.len() ==> 1 <= (#[trigger] self@[i]).1 <= u64::MAX
    }

    /// The count held for `key`, zero where the table has no such key.
    pub open spec fn count_of(&self, key: Seq<char>) -> nat {
        pair_count(self@, key)
    }

    /// The table holds for every key the number of times it occurs in
    /// `names`.
    pub open spec fn tallies(&self, names: Seq<Seq<char>>) -> bool {
        forall|k: Seq<char>| #[trigger] self.count_of(k) == occurrences(names, k)
    }

    /// An empty table.
    pub fn new() -> (out: Self)
        ensures
            out.wf(),
            out@ == Seq::<(Seq<char>, nat)>::empty(),
    {
        let out = CountTable { entries: Vec::new() };
        assert(out@ =~= Seq::<(Seq<char>, nat)>::empty());
        out
    }

    /// The number of distinct keys.
    pub fn len(&self) -> (n: usize)
        ensures
            n == self@.len(),
    {
        self.entries.len()
    }

    /// The entry at position `i` in ascending key order.
    pub fn entry(&self, i: usize) -> (e: &CountEntry)
        requires
            i < self@.len(),
        ensures
            e.key@ == self@[i as int].0,
            e.count == self@[i as int].1,
    {
        &self.entries[i]
    }

    /// The position of the first entry whose key is not before `key`.
    fn lower_bound(&self, key: &str) -> (at: usize)
        requires
            self.wf(),
        ensures
            at <= self@.len(),
            forall|j: int| 0 <= j < at ==> text_lt((#[trigger] self@[j]).0, key@),
            forall|j: int| at <= j < self@.len() ==> !text_lt((#[trigger] self@[j]).0, key@),
    {
        let mut lo: usize = 0;
        let mut hi: usize = self.entries.len();
        while lo < hi
            invariant
                self.wf(),
                lo <= hi <= self@.len(),
                self@.len() == self.entries@.len(),
                forall|j: int| 0 <= j < lo ==> text_lt((#[trigger] self@[j]).0, key@),
                forall|j: int| hi <= j < self@.len() ==> !text_lt((#[trigger] self@[j]).0, key@),
            decreases hi - lo,
        {
            let mid: usize = lo + (hi - lo) / 2;
            let before = text_less(self.entries[mid].key.as_str(), key);
            assert(self@[mid as int].0 == self.entries@[mid as int].key@);
            if before {
                assert forall|j: int| 0 <= j < mid + 1 implies text_lt((#[trigger] self@[j]).0, key@) by {
                    if j < mid {
                        assert(text_lt(self@[j].0, self@[mid as int].0));
                        lemma_text_lt_transitive(self@[j].0, self@[mid as int].0, key@);
                    }
                }
                lo = mid + 1;
            } else {
                assert forall|j: int| mid <= j < self@.len() implies !text_lt((#[trigger] self@[j]).0, key@) by {
                    if j > mid && text_lt(self@[j].0, key@) {
                        assert(text_lt(self@[mid as int].0, self@[j].0));
                        lemma_text_lt_transitive(self@[mid as int].0, self@[j].0, key@);
                    }
                }
                hi = mid;
            }
        }
        lo
    }

    /// The count held for `key`, zero where the table has no such key.
    pub fn get(&self, key: &str) -> (c: u64)
        requires
            self.wf(),
        ensures
            c == self.count_of(key@),
    {
        let at = self.lower_bound(key);
        if at < self.entries.len() && text_equal(self.entries[at].key.as_str(), key) {
            proof {
                lemma_pair_count_at(self@, at as int);
            }
            self.entries[at].count
        } else {
            proof {
                self.lemma_absent_at(key@, at as int);
            }
            0
        }
    }

    /// Where the entry at the lower bound of `key` has another key, no entry
    /// has that key.
    proof fn lemma_absent_at(&self, key: Seq<char>, at: int)
        requires
            self.wf(),
            0 <= at <= self@.len(),
            forall|j: int| 0 <= j < at ==> text_lt((#[trigger] self@[j]).0, key),
            forall|j: int| at <= j < self@.len() ==> !text_lt((#[trigger] self@[j]).0, key),
            at < self@.len() ==> self@[at].0 != key,
        ensures
            forall|j: int| 0 <= j < self@.len() ==> (#[trigger] self@[j]).0 != key,
            forall|j: int| at <= j < self@.len() ==> text_lt(key, (#[trigger] self@[j]).0),
            self.count_of(key) == 0,
    {
        assert forall|j: int| at <= j < self@.len() implies text_lt(key, (#[trigger] self@[j]).0) by {
            lemma_text_lt_total(key, self@[at].0);
            if j > at {
                assert(text_lt(self@[at].0, self@[j].0));
                lemma_text_lt_transitive(key, self@[at].0, self@[j].0);
            }
        }
        assert forall|j: int| 0 <= j < self@.len() implies (#[trigger] self@[j]).0 != key by {
            lemma_text_lt_irreflexive(key);
        }
        lemma_pair_count_absent(self@, key);
    }

    /// Counts one more occurrence of `key`.
    pub fn increment(&mut self, key: &str)
        requires
            old(self).wf(),
            old(self).count_of(key@) < u64::MAX,
        ensures
            final(self).wf(),
            forall|k: Seq<char>|
                #![trigger final(self).count_of(k)]
                final(self).count_of(k) == old(self).count_of(k) + if k == key@ { 1nat } else { 0nat },
    {
        let at = self.lower_bound(key);
        let ghost before = self@;
        if at < self.entries.len() && text_equal(self.entries[at].key.as_str(), key) {
            proof {
                lemma_pair_count_at(before, at as int);
            }
            let raised = self.entries[at].count + 1;
            self.entries[at].count = raised;
            proof {
                let after = self@;
                assert(after.len() == before.len());
                assert forall|j: int| 0 <= j < after.len() implies #[trigger] after[j] == (
                    before[j].0,
                    if j == at { (before[j].1 + 1) as nat } else { before[j].1 },
                ) by {}
                assert forall|i: int, j: int|
                    #![trigger after[i], after[j]]
                    0 <= i < j < after.len() implies text_lt(after[i].0, after[j].0) by {
                    assert(text_lt(before[i].0, before[j].0));
                }
                assert forall|k: Seq<char>|
                    #![trigger pair_count(after, k)]
                    pair_count(after, k) == pair_count(before, k) + if k == key@ { 1nat } else { 0nat } by {
                    lemma_count_after_raise(before, after, at as int, k);
                }
            }
        } else {
            proof {
                self.lemma_absent_at(key@, at as int);
            }
            let fresh = CountEntry { key: key.to_owned(), count: 1 };
            self.entries.insert(at, fresh);
            proof {
                let after = self@;
                assert(after =~= before.insert(at as int, (key@, 1nat)));
                assert forall|i: int, j: int|
                    #![trigger after[i], after[j]]
                    0 <= i < j < after.len() implies text_lt(after[i].0, after[j].0) by {
                    if i < at && j > at {
                        assert(text_lt(before[i].0, before[j - 1].0));
                    } else if i < at && j < at {
                        assert(text_lt(before[i].0, before[j].0));
                    } else if i > at {
                        assert(text_lt(before[i - 1].0, before[j - 1].0));
                    } else if i == at {
                        assert(text_lt(key@, before[j - 1].0));
                    } else {
                        assert(text_lt(before[i].0, key@));
                    }
                }
                assert forall|k: Seq<char>|
                    #![trigger pair_count(after, k)]
                    pair_count(after, k) == pair_count(before, k) + if k == key@ { 1nat } else { 0nat } by {
                    lemma_count_after_insert(before, after, at as int, key@, k);
                }
            }
        }
    }
}

/// The counts after the pair at `at` was raised by one.
proof fn lemma_count_after_raise(
    before: Seq<(Seq<char>, nat)>,
    after: Seq<(Seq<char>, nat)>,
    at: int,
    k: Seq<char>,
)
    requires
        pairs_ascending(before),
        pairs_ascending(after),
        0 <= at < before.len(),
        after.len() == before.len(),
        forall|j: int| 0 <= j < after.len() ==> #[trigger] after[j] == (
            before[j].0,
            if j == at { (before[j].1 + 1) as nat } else { before[j].1 },
        ),
    ensures
        pair_count(after, k) == pair_count(before, k) + if k == before[at].0 { 1nat } else { 0nat },
{
    if exists|j: int| 0 <= j < before.len() && (#[trigger] before[j]).0 == k {
        let j = choose|j: int| 0 <= j < before.len() && (#[trigger] before[j]).0 == k;
        lemma_pair_count_at(before, j);
        lemma_pair_count_at(after, j);
        assert(after[j].0 == before[j].0);
        if j != at {
            if k == before[at].0 {
                if j < at {
                    assert(text_lt(before[j].0, before[at].0));
                } else {
                    assert(text_lt(before[at].0, before[j].0));
                }
                lemma_text_lt_irreflexive(k);
            }
        }
    } else {
        assert forall|j: int| 0 <= j < after.len() implies (#[trigger] after[j]).0 != k by {
            assert(after[j].0 == before[j].0);
        }
        lemma_pair_count_absent(before, k);
        lemma_pair_count_absent(after, k);
    }
}

/// The counts after a pair with a new key and count one was inserted.
proof fn lemma_count_after_insert(
    before: Seq<(Seq<char>, nat)>,
    after: Seq<(Seq<char>, nat)>,
    at: int,
    key: Seq<char>,
    k: Seq<char>,
)
    requires
        pairs_ascending(before),
        pairs_ascending(after),
        0 <= at <= before.len(),
        after == before.insert(at, (key, 1nat)),
        forall|j: int| 0 <= j < before.len() ==> (#[trigger] before[j]).0 != key,
    ensures
        pair_count(after, k) == pair_count(before, k) + if k == key { 1nat } else { 0nat },
{
    if k == key {
        lemma_pair_count_absent(before, k);
        lemma_pair_count_at(after, at);
    } else if exists|j: int| 0 <= j < before.len() && (#[trigger] before[j]).0 == k {
        let j = choose|j: int| 0 <= j < before.len() && (#[trigger] before[j]).0 == k;
        lemma_pair_count_at(before, j);
        if j < at {
            assert(after[j] == before[j]);
            lemma_pair_count_at(after, j);
        } else {
            assert(after[j + 1] == before[j]);
            lemma_pair_count_at(after, j + 1);
        }
    } else {
        assert forall|j: int| 0 <= j < after.len() implies (#[trigger] after[j]).0 != k by {
            if j < at {
                assert(after[j] == before[j]);
            } else if j > at {
                assert(after[j] == before[j - 1]);
            }
        }
        lemma_pair_count_absent(before, k);
        lemma_pair_count_absent(after, k);
    }
}

} // verus!
