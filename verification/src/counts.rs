use vstd::prelude::*;

verus! {

/// The count a table holds for a path; absent entries count as zero, never
/// as an error.
pub open spec fn count_of(m: Map<Seq<char>, u32>, k: Seq<char>) -> u32 {
    if m.contains_key(k) {
        m[k]
    } else {
        0
    }
}

/// Addition of occurrence counts, saturating at the largest representable
/// count instead of overflowing.
pub open spec fn sat_add_u32(a: u32, b: u32) -> u32 {
    if a + b > u32::MAX {
        u32::MAX
    } else {
        (a + b) as u32
    }
}

/// The pointwise, saturating sum of two count tables: defined for every path
/// either table holds, treating absence as zero.
pub open spec fn merged_counts(a: Map<Seq<char>, u32>, b: Map<Seq<char>, u32>) -> Map<
    Seq<char>,
    u32,
> {
    Map::new(
        |k: Seq<char>| a.contains_key(k) || b.contains_key(k),
        |k: Seq<char>| sat_add_u32(count_of(a, k), count_of(b, k)),
    )
}

/// Table from a resolved path to how many commits touched it, with each key
/// held at most once.
pub struct ChangeCounts {
    entries: Vec<(String, u32)>,
}

/// Each key occurs at most once in the entry list.
pub(crate) open spec fn count_keys_unique(s: Seq<(String, u32)>) -> bool {
    forall|i: int, j: int| 0 <= i < j < s.len() ==> (#[trigger] s[i]).0@ != (#[trigger] s[j]).0@
}

/// The mapping an entry list denotes; a later entry for a key overrides an
/// earlier one, which with unique keys never happens.
pub(crate) open spec fn counts_view_of(s: Seq<(String, u32)>) -> Map<Seq<char>, u32>
    decreases s.len(),
{
    if s.len() == 0 {
        Map::empty()
    } else {
        counts_view_of(s.drop_last()).insert(s.last().0@, s.last().1)
    }
}

impl View for ChangeCounts {
    type V = Map<Seq<char>, u32>;

    closed spec fn view(&self) -> Map<Seq<char>, u32> {
        counts_view_of(self.entries@)
    }
}

pub(crate) proof fn lemma_counts_view_contains(s: Seq<(String, u32)>, k: Seq<char>)
    ensures
        counts_view_of(s).contains_key(k) <==> (exists|i: int|
            0 <= i < s.len() && (#[trigger] s[i]).0@ == k),
    decreases s.len(),
{
    if s.len() == 0 {
    } else {
        let sd = s.drop_last();
        lemma_counts_view_contains(sd, k);
        assert(forall|i: int| 0 <= i < sd.len() ==> #[trigger] sd[i] == s[i]);
        assert(s.last() == s[s.len() - 1]);
        if k == s.last().0@ {
            assert(s[s.len() - 1].0@ == k);
        } else {
            if exists|i: int| 0 <= i < s.len() && (#[trigger] s[i]).0@ == k {
                let i = choose|i: int| 0 <= i < s.len() && (#[trigger] s[i]).0@ == k;
                assert(i < sd.len() && sd[i].0@ == k);
            }
        }
    }
}

pub(crate) proof fn lemma_counts_view_index(s: Seq<(String, u32)>, i: int)
    requires
        count_keys_unique(s),
        0 <= i < s.len(),
    ensures
        counts_view_of(s).contains_key(s[i].0@),
        counts_view_of(s)[s[i].0@] == s[i].1,
    decreases s.len(),
{
    let sd = s.drop_last();
    assert(forall|m: int| 0 <= m < sd.len() ==> #[trigger] sd[m] == s[m]);
    assert(s.last() == s[s.len() - 1]);
    if i == s.len() - 1 {
    } else {
        assert(count_keys_unique(sd));
        lemma_counts_view_index(sd, i);
        assert(s[i].0@ != s.last().0@);
    }
}

pub(crate) proof fn lemma_counts_view_len(s: Seq<(String, u32)>)
    requires
        count_keys_unique(s),
    ensures
        counts_view_of(s).dom().finite(),
        counts_view_of(s).dom().len() == s.len(),
    decreases s.len(),
{
    if s.len() == 0 {
        assert(counts_view_of(s).dom() =~= Set::<Seq<char>>::empty());
    } else {
        let sd = s.drop_last();
        assert(forall|m: int| 0 <= m < sd.len() ==> #[trigger] sd[m] == s[m]);
        assert(count_keys_unique(sd));
        lemma_counts_view_len(sd);
        lemma_counts_view_contains(sd, s.last().0@);
        assert(s.last() == s[s.len() - 1]);
        assert(!counts_view_of(sd).contains_key(s.last().0@));
        assert(counts_view_of(s).dom() =~= counts_view_of(sd).dom().insert(s.last().0@));
    }
}

pub(crate) proof fn lemma_counts_view_update(s: Seq<(String, u32)>, i: int, q: (String, u32))
    requires
        count_keys_unique(s),
        0 <= i < s.len(),
        q.0@ == s[i].0@,
    ensures
        count_keys_unique(s.update(i, q)),
        counts_view_of(s.update(i, q)) == counts_view_of(s).insert(q.0@, q.1),
    decreases s.len(),
{
    let su = s.update(i, q);
    assert(forall|m: int| 0 <= m < s.len() && m != i ==> #[trigger] su[m] == s[m]);
    assert(su[i] == q);
    assert(count_keys_unique(su));
    let sd = s.drop_last();
    assert(forall|m: int| 0 <= m < sd.len() ==> #[trigger] sd[m] == s[m]);
    assert(count_keys_unique(sd));
    assert(s.last() == s[s.len() - 1]);
    if i == s.len() - 1 {
        assert(su.drop_last() =~= sd);
        assert(su.last() == q);
        assert(counts_view_of(su) == counts_view_of(sd).insert(q.0@, q.1));
        assert(counts_view_of(s).insert(q.0@, q.1) =~= counts_view_of(sd).insert(q.0@, q.1));
    } else {
        assert(su.drop_last() =~= sd.update(i, q));
        assert(su.last() == s.last());
        lemma_counts_view_update(sd, i, q);
        assert(counts_view_of(su) == counts_view_of(sd).insert(q.0@, q.1).insert(
            s.last().0@,
            s.last().1,
        ));
        assert(s[i].0@ != s.last().0@);
        assert(counts_view_of(sd).insert(q.0@, q.1).insert(s.last().0@, s.last().1)
            =~= counts_view_of(sd).insert(s.last().0@, s.last().1).insert(q.0@, q.1));
    }
}

impl ChangeCounts {
    /// Keys are pairwise distinct, so the entry list and the mapping it
    /// denotes are the same size.
    pub closed spec fn wf(self) -> bool {
        count_keys_unique(self.entries@)
    }

    /// An empty count table.
    pub fn new() -> (r: ChangeCounts)
        ensures
            r@ == Map::<Seq<char>, u32>::empty(),
            r.wf(),
    {
        ChangeCounts { entries: Vec::new() }
    }

    fn find_index(&self, key: &String) -> (r: Option<usize>)
        ensures
            match r {
                Some(i) => i < self.entries@.len() && self.entries@[i as int].0@ == key@,
                None => forall|j: int|
                    0 <= j < self.entries@.len() ==> (#[trigger] self.entries@[j]).0@ != key@,
            },
    {
        let mut j: usize = 0;
        while j < self.entries.len()
            invariant
                0 <= j <= self.entries@.len(),
                forall|m: int| 0 <= m < j ==> (#[trigger] self.entries@[m]).0@ != key@,
            decreases self.entries@.len() - j,
        {
            if self.entries[j].0 == *key {
                return Some(j);
            }
            j = j + 1;
        }
        None
    }

    /// The count recorded for a path, zero when the path is absent.
    pub fn get_count(&self, key: &String) -> (r: u32)
        requires
            self.wf(),
        ensures
            r == count_of(self@, key@),
    {
        match self.find_index(key) {
            Some(i) => {
                proof {
                    lemma_counts_view_index(self.entries@, i as int);
                }
                self.entries[i].1
            },
            None => {
                proof {
                    lemma_counts_view_contains(self.entries@, key@);
                }
                0
            },
        }
    }

    /// How many distinct paths the table holds.
    pub fn len(&self) -> (r: usize)
        requires
            self.wf(),
        ensures
            r == self@.dom().len(),
    {
        proof {
            lemma_counts_view_len(self.entries@);
        }
        self.entries.len()
    }

    /// Adds `v` to the count of `key`, saturating instead of overflowing.
    pub fn add(&mut self, key: String, v: u32)
        requires
            old(self).wf(),
        ensures
            final(self)@ == old(self)@.insert(
                key@,
                sat_add_u32(count_of(old(self)@, key@), v),
            ),
            final(self).wf(),
    {
        match self.find_index(&key) {
            Some(i) => {
                let cur = self.entries[i].1;
                let newv = if v > u32::MAX - cur {
                    u32::MAX
                } else {
                    cur + v
                };
                proof {
                    lemma_counts_view_index(self.entries@, i as int);
                    lemma_counts_view_update(self.entries@, i as int, (key, newv));
                }
                self.entries.set(i, (key, newv));
            },
            None => {
                proof {
                    lemma_counts_view_contains(self.entries@, key@);
                    let s = self.entries@;
                    let q = (key, v);
                    assert(s.push(q).drop_last() =~= s);
                    assert(s.push(q).last() == q);
                    assert(forall|m: int| 0 <= m < s.len() ==> #[trigger] s.push(q)[m] == s[m]);
                    assert(count_keys_unique(s.push(q)));
                }
                self.entries.push((key, v));
            },
        }
    }

    /// Counts one more occurrence for `key`.
    pub fn bump(&mut self, key: String)
        requires
            old(self).wf(),
        ensures
            final(self)@ == old(self)@.insert(
                key@,
                sat_add_u32(count_of(old(self)@, key@), 1),
            ),
            final(self).wf(),
    {
        self.add(key, 1);
    }

    fn duplicate(&self) -> (r: ChangeCounts)
        ensures
            r.entries@ == self.entries@,
    {
        let mut out: Vec<(String, u32)> = Vec::new();
        let mut i: usize = 0;
        while i < self.entries.len()
            invariant
                0 <= i <= self.entries@.len(),
                out@ == self.entries@.take(i as int),
            decreases self.entries@.len() - i,
        {
            out.push((self.entries[i].0.clone(), self.entries[i].1));
            proof {
                assert(self.entries@.take(i + 1) =~= self.entries@.take(i as int).push(
                    self.entries@[i as int],
                ));
            }
            i = i + 1;
        }
        proof {
            assert(self.entries@.take(self.entries@.len() as int) =~= self.entries@);
        }
        ChangeCounts { entries: out }
    }

    /// The table's entries as a list of path and count, one per path the
    /// table holds, with pairwise distinct paths.
    pub fn to_entries(&self) -> (r: Vec<(String, u32)>)
        requires
            self.wf(),
        ensures
            r@.len() == self@.dom().len(),
            forall|i: int|
                0 <= i < r@.len() ==> self@.contains_key((#[trigger] r@[i]).0@) && self@[r@[i].0@]
                    == r@[i].1,
            forall|i: int, j: int| 0 <= i < j < r@.len() ==> (#[trigger] r@[i]).0@ != (
            #[trigger] r@[j]).0@,
    {
        let out = self.duplicate();
        proof {
            lemma_counts_view_len(self.entries@);
            assert forall|i: int| 0 <= i < self.entries@.len() implies self@.contains_key(
                (#[trigger] self.entries@[i]).0@,
            ) && self@[self.entries@[i].0@] == self.entries@[i].1 by {
                lemma_counts_view_index(self.entries@, i);
            }
        }
        out.entries
    }

    /// Combines two count tables into one whose entry for each path is the
    /// saturating sum of that path's entries; an absent entry counts as
    /// zero. The operation is commutative and associative, so partial
    /// tables may be merged in any grouping and order.
    pub fn merge_counts(&self, other: &ChangeCounts) -> (r: ChangeCounts)
        requires
            self.wf(),
            other.wf(),
        ensures
            r@ == merged_counts(self@, other@),
            r.wf(),
    {
        let mut r = self.duplicate();
        proof {
            assert(other.entries@.take(0) =~= Seq::<(String, u32)>::empty());
            assert(r@ =~= merged_counts(self@, counts_view_of(other.entries@.take(0))));
        }
        let mut i: usize = 0;
        while i < other.entries.len()
            invariant
                0 <= i <= other.entries@.len(),
                self.wf(),
                other.wf(),
                r.wf(),
                r@ == merged_counts(self@, counts_view_of(other.entries@.take(i as int))),
            decreases other.entries@.len() - i,
        {
            let key = other.entries[i].0.clone();
            let v = other.entries[i].1;
            proof {
                let pre = other.entries@.take(i as int);
                assert(forall|m: int| 0 <= m < i ==> #[trigger] pre[m] == other.entries@[m]);
                lemma_counts_view_contains(pre, key@);
                assert(!counts_view_of(pre).contains_key(key@));
                assert(count_of(merged_counts(self@, counts_view_of(pre)), key@) == count_of(
                    self@,
                    key@,
                ));
            }
            r.add(key, v);
            proof {
                let pre = other.entries@.take(i as int);
                let preview = counts_view_of(pre);
                assert(other.entries@.take(i + 1).drop_last() =~= pre);
                assert(other.entries@.take(i + 1).last() == other.entries@[i as int]);
                assert(counts_view_of(other.entries@.take(i + 1)) == preview.insert(key@, v));
                assert(merged_counts(self@, preview.insert(key@, v)) =~= merged_counts(
                    self@,
                    preview,
                ).insert(key@, sat_add_u32(count_of(self@, key@), v)));
            }
            i = i + 1;
        }
        proof {
            assert(other.entries@.take(other.entries@.len() as int) =~= other.entries@);
        }
        r
    }
}

/// Merging is commutative: combining two partial tables in either order
/// yields the same table.
pub proof fn lemma_merge_commutative(a: Map<Seq<char>, u32>, b: Map<Seq<char>, u32>)
    ensures
        merged_counts(a, b) == merged_counts(b, a),
{
    assert(merged_counts(a, b) =~= merged_counts(b, a));
}

/// Merging is associative: partial tables may be combined in any grouping.
pub proof fn lemma_merge_associative(
    a: Map<Seq<char>, u32>,
    b: Map<Seq<char>, u32>,
    c: Map<Seq<char>, u32>,
)
    ensures
        merged_counts(merged_counts(a, b), c) == merged_counts(a, merged_counts(b, c)),
{
    assert(merged_counts(merged_counts(a, b), c) =~= merged_counts(a, merged_counts(b, c)));
}

/// The empty table is a unit of merging: absent entries act as zero.
pub proof fn lemma_merge_empty(t: Map<Seq<char>, u32>)
    ensures
        merged_counts(Map::empty(), t) == t,
{
    assert(merged_counts(Map::empty(), t) =~= t);
}

/// The order in which a reduction consumes independently produced partial
/// tables does not change the final table: folding `t1` before `t2` into an
/// accumulator equals folding `t2` before `t1`.
pub proof fn lemma_merge_order_independent(
    acc: Map<Seq<char>, u32>,
    t1: Map<Seq<char>, u32>,
    t2: Map<Seq<char>, u32>,
)
    ensures
        merged_counts(merged_counts(acc, t1), t2) == merged_counts(merged_counts(acc, t2), t1),
{
    lemma_merge_associative(acc, t1, t2);
    lemma_merge_commutative(t1, t2);
    lemma_merge_associative(acc, t2, t1);
}

} // verus!
