//! Totals keyed by (cluster, partition, state).
use vstd::prelude::*;

verus! {

/// The labels of one published value: cluster, partition and state.
pub type GroupKey = (Seq<char>, Seq<char>, Seq<char>);

/// The total at `k`, where an absent key counts as zero.
pub open spec fn total_at(m: Map<GroupKey, int>, k: GroupKey) -> int {
    if m.contains_key(k) {
        m[k]
    } else {
        0
    }
}

/// `m` with `amount` added to the total at `k`.
pub open spec fn add_to(m: Map<GroupKey, int>, k: GroupKey, amount: int) -> Map<GroupKey, int> {
    m.insert(k, total_at(m, k) + amount)
}

/// The totals that folding `s` in order gives, where `f` says what each item
/// adds and where (`None`: nothing).
pub open spec fn tally<A>(s: Seq<A>, f: spec_fn(A) -> Option<(GroupKey, int)>) -> Map<
    GroupKey,
    int,
>
    decreases s.len(),
{
    if s.len() == 0 {
        Map::empty()
    } else {
        tally_step(tally(s.drop_last(), f), f(s.last()))
    }
}

/// `m` after one item that adds `c`.
pub open spec fn tally_step(m: Map<GroupKey, int>, c: Option<(GroupKey, int)>) -> Map<GroupKey, int> {
    match c {
        Some(c) => add_to(m, c.0, c.1),
        None => m,
    }
}

/// The sum of two tables, key by key: a key present in either is present.
pub open spec fn sum_tables(a: Map<GroupKey, int>, b: Map<GroupKey, int>) -> Map<GroupKey, int> {
    Map::new(
        |k: GroupKey| a.contains_key(k) || b.contains_key(k),
        |k: GroupKey| total_at(a, k) + total_at(b, k),
    )
}

proof fn lemma_step_sum_left(a: Map<GroupKey, int>, b: Map<GroupKey, int>, c: Option<(GroupKey, int)>)
    ensures
        tally_step(sum_tables(a, b), c) == sum_tables(tally_step(a, c), b),
{
    assert(tally_step(sum_tables(a, b), c) =~= sum_tables(tally_step(a, c), b));
}

proof fn lemma_step_sum_right(a: Map<GroupKey, int>, b: Map<GroupKey, int>, c: Option<(GroupKey, int)>)
    ensures
        tally_step(sum_tables(a, b), c) == sum_tables(a, tally_step(b, c)),
{
    assert(tally_step(sum_tables(a, b), c) =~= sum_tables(a, tally_step(b, c)));
}

/// Folding `a` then `b` gives the key-by-key sum of folding each alone.
pub proof fn lemma_tally_append<A>(a: Seq<A>, b: Seq<A>, f: spec_fn(A) -> Option<(GroupKey, int)>)
    ensures
        tally(a + b, f) == sum_tables(tally(a, f), tally(b, f)),
    decreases b.len(),
{
    if b.len() == 0 {
        assert(a + b =~= a);
        assert(tally(a, f) =~= sum_tables(tally(a, f), Map::empty()));
    } else {
        assert((a + b).drop_last() =~= a + b.drop_last());
        assert((a + b).last() == b.last());
        lemma_tally_append(a, b.drop_last(), f);
        lemma_step_sum_right(tally(a, f), tally(b.drop_last(), f), f(b.last()));
    }
}

/// Folding two orderings of the same items gives the same totals.
pub proof fn lemma_tally_permutation<A>(
    a: Seq<A>,
    b: Seq<A>,
    f: spec_fn(A) -> Option<(GroupKey, int)>,
)
    requires
        a.to_multiset() == b.to_multiset(),
    ensures
        tally(a, f) == tally(b, f),
    decreases a.len(),
{
    broadcast use vstd::seq_lib::group_to_multiset_ensures;
    broadcast use vstd::multiset::group_multiset_axioms;

    if a.len() == 0 {
        assert(a.to_multiset().len() == 0);
        assert(b.to_multiset().len() == b.len());
        assert(b =~= a);
    } else {
        let x = a.last();
        let a1 = a.drop_last();
        assert(a1.push(x) =~= a);
        assert(a.to_multiset().count(x) > 0) by {
            assert(a.contains(x)) by {
                assert(a[a.len() - 1] == x);
            }
        }
        assert(b.contains(x));
        let j = choose|j: int| 0 <= j < b.len() && b[j] == x;
        let b1 = b.remove(j);
        assert(a1.to_multiset() =~= b1.to_multiset()) by {
            assert(a.to_multiset() =~= a1.to_multiset().insert(x));
        }
        lemma_tally_permutation(a1, b1, f);
        let pre = b.take(j);
        let post = b.skip(j + 1);
        assert(b1 =~= pre + post);
        assert(b =~= pre.push(x) + post);
        assert(pre.push(x).drop_last() =~= pre);
        lemma_tally_append(pre, post, f);
        lemma_tally_append(pre.push(x), post, f);
        lemma_step_sum_left(tally(pre, f), tally(post, f), f(x));
    }
}

/// Where every item adds at least `lo`, itself not negative, every total is
/// at least `lo`.
pub proof fn lemma_tally_at_least<A>(s: Seq<A>, f: spec_fn(A) -> Option<(GroupKey, int)>, lo: int)
    requires
        0 <= lo,
        forall|x: A| #[trigger] f(x) matches Some(c) ==> c.1 >= lo,
    ensures
        forall|k: GroupKey| #[trigger] tally(s, f).contains_key(k) ==> tally(s, f)[k] >= lo,
    decreases s.len(),
{
    if s.len() > 0 {
        lemma_tally_at_least(s.drop_last(), f, lo);
        let m = tally(s.drop_last(), f);
        assert(tally(s, f) == tally_step(m, f(s.last())));
        match f(s.last()) {
            Some(c) => {
                assert(c.1 >= lo);
                assert forall|k: GroupKey| #[trigger] tally(s, f).contains_key(k) implies tally(
                    s,
                    f,
                )[k] >= 0 by {
                    if k == c.0 {
                        assert(total_at(m, k) >= 0);
                        assert(tally(s, f)[k] == total_at(m, k) + c.1);
                    } else {
                        assert(tally(s, f)[k] == m[k]);
                    }
                }
            },
            None => {},
        }
    }
}

/// One row of a table: its three labels and its total.
#[derive(Debug, Clone)]
pub struct CountEntry {
    pub cluster: String,
    pub partition: String,
    pub state: String,
    pub total: i128,
}

impl CountEntry {
    pub open spec fn key(&self) -> GroupKey {
        (self.cluster@, self.partition@, self.state@)
    }
}

/// A table of totals, one row per key that has been added to.
pub struct CountTable {
    entries: Vec<CountEntry>,
    model: Ghost<Map<GroupKey, int>>,
}

impl View for CountTable {
    type V = Map<GroupKey, int>;

    closed spec fn view(&self) -> Map<GroupKey, int> {
        self.model@
    }
}

impl CountTable {
    /// Each key has one row, each row's total is the key's total, and each
    /// key of the table has a row.
    pub closed spec fn wf(&self) -> bool {
        &&& forall|i: int, j: int|
            0 <= i < j < self.entries@.len() ==> #[trigger] self.entries@[i].key()
                != #[trigger] self.entries@[j].key()
        &&& forall|i: int|
            0 <= i < self.entries@.len() ==> self.model@.contains_key(
                #[trigger] self.entries@[i].key(),
            ) && self.model@[self.entries@[i].key()] == self.entries@[i].total
        &&& forall|k: GroupKey|
            #[trigger] self.model@.contains_key(k) ==> exists|i: int|
                0 <= i < self.entries@.len() && #[trigger] self.entries@[i].key() == k
    }

    pub fn new() -> (r: CountTable)
        ensures
            r.wf(),
            r@ == Map::<GroupKey, int>::empty(),
    {
        CountTable { entries: Vec::new(), model: Ghost(Map::empty()) }
    }

    /// The row of `(cluster, partition, state)`, if there is one.
    fn find(&self, cluster: &String, partition: &String, state: &String) -> (r: Option<usize>)
        requires
            self.wf(),
        ensures
            match r {
                Some(i) => i < self.entries@.len() && self.entries@[i as int].key() == (
                    cluster@,
                    partition@,
                    state@,
                ),
                None => !self@.contains_key((cluster@, partition@, state@)),
            },
    {
        let mut i: usize = 0;
        while i < self.entries.len()
            invariant
                self.wf(),
                i <= self.entries@.len(),
                forall|j: int|
                    0 <= j < i ==> #[trigger] self.entries@[j].key() != (
                        cluster@,
                        partition@,
                        state@,
                    ),
            decreases self.entries.len() - i,
        {
            let e = &self.entries[i];
            if e.cluster == *cluster && e.partition == *partition && e.state == *state {
                return Some(i);
            }
            i = i + 1;
        }
        None
    }

    /// Adds `amount` to the total of `(cluster, partition, state)`.
    pub fn add(&mut self, cluster: &String, partition: &String, state: &String, amount: i128)
        requires
            old(self).wf(),
            i128::MIN <= total_at(old(self)@, (cluster@, partition@, state@)) + amount
                <= i128::MAX,
        ensures
            final(self).wf(),
            final(self)@ == add_to(old(self)@, (cluster@, partition@, state@), amount as int),
    {
        let ghost k = (cluster@, partition@, state@);
        match self.find(cluster, partition, state) {
            Some(i) => {
                let total = self.entries[i].total + amount;
                let e = CountEntry {
                    cluster: self.entries[i].cluster.clone(),
                    partition: self.entries[i].partition.clone(),
                    state: self.entries[i].state.clone(),
                    total,
                };
                self.entries.set(i, e);
                self.model = Ghost(add_to(self.model@, k, amount as int));
            },
            None => {
                let e = CountEntry {
                    cluster: cluster.clone(),
                    partition: partition.clone(),
                    state: state.clone(),
                    total: amount,
                };
                self.entries.push(e);
                self.model = Ghost(add_to(self.model@, k, amount as int));
            },
        }
        proof {
            assert forall|k2: GroupKey| #[trigger] self.model@.contains_key(k2) implies exists|
                i: int,
            |
                0 <= i < self.entries@.len() && #[trigger] self.entries@[i].key() == k2 by {
                if k2 != k {
                    let i = choose|i: int|
                        0 <= i < old(self).entries@.len() && #[trigger] old(
                            self,
                        ).entries@[i].key() == k2;
                    assert(self.entries@[i].key() == k2);
                } else {
                    let i: int = if old(self)@.contains_key(k) {
                        choose|i: int|
                            0 <= i < old(self).entries@.len() && #[trigger] old(
                                self,
                            ).entries@[i].key() == k
                    } else {
                        old(self).entries@.len() as int
                    };
                    assert(self.entries@[i].key() == k2);
                }
            }
        }
    }

    /// The total of `(cluster, partition, state)`; zero where the table has
    /// no row for it.
    pub fn get(&self, cluster: &String, partition: &String, state: &String) -> (r: i128)
        requires
            self.wf(),
        ensures
            r == total_at(self@, (cluster@, partition@, state@)),
    {
        match self.find(cluster, partition, state) {
            Some(i) => self.entries[i].total,
            None => 0,
        }
    }

    /// The rows of the table: one for each key, with its total.
    pub fn entries(&self) -> (r: &Vec<CountEntry>)
        requires
            self.wf(),
        ensures
            forall|i: int, j: int|
                0 <= i < j < r@.len() ==> #[trigger] r@[i].key() != #[trigger] r@[j].key(),
            forall|i: int|
                0 <= i < r@.len() ==> self@.contains_key(#[trigger] r@[i].key()) && self@[r@[i].key()]
                    == r@[i].total,
            forall|k: GroupKey| #[trigger]
                self@.contains_key(k) ==> exists|i: int| 0 <= i < r@.len() && #[trigger] r@[i].key() == k,
    {
        &self.entries
    }
}

} // verus!
