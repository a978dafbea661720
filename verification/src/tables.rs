use vstd::prelude::*;

verus! {

/// Follows rename entries from `p` for at most `fuel` steps: while the
/// current path is a key of the table, step to the path it maps to.
pub open spec fn chase(m: Map<Seq<char>, Seq<char>>, p: Seq<char>, fuel: nat) -> Seq<char>
    decreases fuel,
{
    if fuel == 0 {
        p
    } else if m.contains_key(p) {
        chase(m, m[p], (fuel - 1) as nat)
    } else {
        p
    }
}

/// The terminal path of the rename chain starting at `p`: as many steps as
/// the table has entries always suffice to leave an acyclic table, so on an
/// acyclic table this is the path that is no longer a key.
pub open spec fn resolve_path(m: Map<Seq<char>, Seq<char>>, p: Seq<char>) -> Seq<char> {
    chase(m, p, m.dom().len())
}

/// A path that is not a key resolves to itself, whatever the fuel.
pub proof fn lemma_chase_not_key(m: Map<Seq<char>, Seq<char>>, p: Seq<char>, fuel: nat)
    requires
        !m.contains_key(p),
    ensures
        chase(m, p, fuel) == p,
{
}

/// A witness that a rename table has no cycles: a rank for each key, below
/// the table's size, that strictly decreases along every rename step. A
/// table built by a newest-first walk admits one - each insertion maps a
/// path discovered later to an already-resolved current name - while a
/// table with a cycle admits none.
pub open spec fn chain_ranked(m: Map<Seq<char>, Seq<char>>, rank: Map<Seq<char>, nat>) -> bool {
    forall|p: Seq<char>|
        #[trigger] m.contains_key(p) ==> {
            &&& rank.contains_key(p)
            &&& rank[p] < m.dom().len()
            &&& (m.contains_key(m[p]) ==> rank[m[p]] < rank[p])
        }
}

/// On an acyclic table, enough fuel always reaches a terminal path: one
/// that is no longer a key.
pub proof fn lemma_chase_reaches_terminal(
    m: Map<Seq<char>, Seq<char>>,
    rank: Map<Seq<char>, nat>,
    p: Seq<char>,
    fuel: nat,
)
    requires
        chain_ranked(m, rank),
        m.contains_key(p) ==> fuel > rank[p],
    ensures
        !m.contains_key(chase(m, p, fuel)),
    decreases fuel,
{
    if m.contains_key(p) {
        lemma_chase_reaches_terminal(m, rank, m[p], (fuel - 1) as nat);
    }
}

/// Following the table from any path terminates on an acyclic table, and
/// lands on a path that is no longer a key: the newest known name, not an
/// intermediate one.
pub proof fn lemma_resolve_reaches_terminal(
    m: Map<Seq<char>, Seq<char>>,
    rank: Map<Seq<char>, nat>,
    p: Seq<char>,
)
    requires
        chain_ranked(m, rank),
    ensures
        !m.contains_key(resolve_path(m, p)),
{
    if m.contains_key(p) {
        lemma_chase_reaches_terminal(m, rank, p, m.dom().len());
    }
}

/// Association list from a historical path to the most recently known path
/// of the same logical file, with each key held at most once.
pub struct RenameTable {
    entries: Vec<(String, String)>,
}

/// Each key occurs at most once in the entry list.
pub(crate) open spec fn rename_keys_unique(s: Seq<(String, String)>) -> bool {
    forall|i: int, j: int| 0 <= i < j < s.len() ==> (#[trigger] s[i]).0@ != (#[trigger] s[j]).0@
}

/// The mapping an entry list denotes; a later entry for a key overrides an
/// earlier one, which with unique keys never happens.
pub(crate) open spec fn rename_view_of(s: Seq<(String, String)>) -> Map<Seq<char>, Seq<char>>
    decreases s.len(),
{
    if s.len() == 0 {
        Map::empty()
    } else {
        rename_view_of(s.drop_last()).insert(s.last().0@, s.last().1@)
    }
}

impl View for RenameTable {
    type V = Map<Seq<char>, Seq<char>>;

    closed spec fn view(&self) -> Map<Seq<char>, Seq<char>> {
        rename_view_of(self.entries@)
    }
}

pub(crate) proof fn lemma_rename_view_contains(s: Seq<(String, String)>, k: Seq<char>)
    ensures
        rename_view_of(s).contains_key(k) <==> (exists|i: int|
            0 <= i < s.len() && (#[trigger] s[i]).0@ == k),
    decreases s.len(),
{
    if s.len() == 0 {
    } else {
        let sd = s.drop_last();
        lemma_rename_view_contains(sd, k);
        assert(forall|i: int| 0 <= i < sd.len() ==> #[trigger] sd[i] == s[i]);
        assert(s.last() == s[s.len() - 1]);
        if k == s.last().0@ {
            assert(s[s.len() - 1].0@ == k);
        } else {
            if exists|i: int| 0 <= i < s.len() && (#[trigger] s[i]).0@ == k {
                let i = choose|i: int| 0 <= i < s.len() && (#[trigger] s[i]).0@ == k;
                assert(i < sd.len() && sd[i].0@ == k);
            }
        }
    }
}

pub(crate) proof fn lemma_rename_view_index(s: Seq<(String, String)>, i: int)
    requires
        rename_keys_unique(s),
        0 <= i < s.len(),
    ensures
        rename_view_of(s).contains_key(s[i].0@),
        rename_view_of(s)[s[i].0@] == s[i].1@,
    decreases s.len(),
{
    let sd = s.drop_last();
    assert(forall|m: int| 0 <= m < sd.len() ==> #[trigger] sd[m] == s[m]);
    assert(s.last() == s[s.len() - 1]);
    if i == s.len() - 1 {
    } else {
        assert(rename_keys_unique(sd));
        lemma_rename_view_index(sd, i);
        assert(s[i].0@ != s.last().0@);
    }
}

pub(crate) proof fn lemma_rename_view_len(s: Seq<(String, String)>)
    requires
        rename_keys_unique(s),
    ensures
        rename_view_of(s).dom().finite(),
        rename_view_of(s).dom().len() == s.len(),
    decreases s.len(),
{
    if s.len() == 0 {
        assert(rename_view_of(s).dom() =~= Set::<Seq<char>>::empty());
    } else {
        let sd = s.drop_last();
        assert(forall|m: int| 0 <= m < sd.len() ==> #[trigger] sd[m] == s[m]);
        assert(rename_keys_unique(sd));
        lemma_rename_view_len(sd);
        lemma_rename_view_contains(sd, s.last().0@);
        assert(s.last() == s[s.len() - 1]);
        assert(!rename_view_of(sd).contains_key(s.last().0@));
        assert(rename_view_of(s).dom() =~= rename_view_of(sd).dom().insert(s.last().0@));
    }
}

pub(crate) proof fn lemma_rename_view_update(s: Seq<(String, String)>, i: int, q: (String, String))
    requires
        rename_keys_unique(s),
        0 <= i < s.len(),
        q.0@ == s[i].0@,
    ensures
        rename_keys_unique(s.update(i, q)),
        rename_view_of(s.update(i, q)) == rename_view_of(s).insert(q.0@, q.1@),
    decreases s.len(),
{
    let su = s.update(i, q);
    assert(forall|m: int| 0 <= m < s.len() && m != i ==> #[trigger] su[m] == s[m]);
    assert(su[i] == q);
    assert(rename_keys_unique(su));
    let sd = s.drop_last();
    assert(forall|m: int| 0 <= m < sd.len() ==> #[trigger] sd[m] == s[m]);
    assert(rename_keys_unique(sd));
    assert(s.last() == s[s.len() - 1]);
    if i == s.len() - 1 {
        assert(su.drop_last() =~= sd);
        assert(su.last() == q);
        assert(rename_view_of(su) == rename_view_of(sd).insert(q.0@, q.1@));
        assert(rename_view_of(s).insert(q.0@, q.1@) =~= rename_view_of(sd).insert(q.0@, q.1@));
    } else {
        assert(su.drop_last() =~= sd.update(i, q));
        assert(su.last() == s.last());
        lemma_rename_view_update(sd, i, q);
        assert(rename_view_of(su) == rename_view_of(sd).insert(q.0@, q.1@).insert(
            s.last().0@,
            s.last().1@,
        ));
        assert(s[i].0@ != s.last().0@);
        assert(rename_view_of(sd).insert(q.0@, q.1@).insert(s.last().0@, s.last().1@)
            =~= rename_view_of(sd).insert(s.last().0@, s.last().1@).insert(q.0@, q.1@));
    }
}

impl RenameTable {
    /// Keys are pairwise distinct, so the entry list and the mapping it
    /// denotes are the same size.
    pub closed spec fn wf(self) -> bool {
        rename_keys_unique(self.entries@)
    }

    /// An empty rename table.
    pub fn new() -> (r: RenameTable)
        ensures
            r@ == Map::<Seq<char>, Seq<char>>::empty(),
            r.wf(),
    {
        RenameTable { entries: Vec::new() }
    }

    fn find_index(&self, key: &String) -> (r: Option<usize>)
        ensures
            match r {
                Some(i) => i < self.entries@.len() && self.entries@[i as int].0@ == key@,
                None => forall|j: int|
                    0 <= j < self.entries@.len() ==> (#[trigger] self.entries@[j]).0@ != key@,
            },
    {
        let mut j: usize = 0;
        while j < self.entries.len()
            invariant
                0 <= j <= self.entries@.len(),
                forall|m: int| 0 <= m < j ==> (#[trigger] self.entries@[m]).0@ != key@,
            decreases self.entries@.len() - j,
        {
            if self.entries[j].0 == *key {
                return Some(j);
            }
            j = j + 1;
        }
        None
    }

    /// Looks a single path up, without following chains.
    pub fn get(&self, key: &String) -> (r: Option<String>)
        requires
            self.wf(),
        ensures
            match r {
                Some(v) => self@.contains_key(key@) && v@ == self@[key@],
                None => !self@.contains_key(key@),
            },
    {
        match self.find_index(key) {
            Some(i) => {
                proof {
                    lemma_rename_view_index(self.entries@, i as int);
                }
                Some(self.entries[i].1.clone())
            },
            None => {
                proof {
                    lemma_rename_view_contains(self.entries@, key@);
                }
                None
            },
        }
    }

    /// Records that `old_path` is now known as `new_path`, overwriting any
    /// earlier entry for `old_path`.
    pub fn insert(&mut self, old_path: String, new_path: String)
        requires
            old(self).wf(),
        ensures
            final(self)@ == old(self)@.insert(old_path@, new_path@),
            final(self).wf(),
    {
        match self.find_index(&old_path) {
            Some(i) => {
                proof {
                    lemma_rename_view_update(
                        self.entries@,
                        i as int,
                        (old_path, new_path),
                    );
                }
                self.entries.set(i, (old_path, new_path));
            },
            None => {
                proof {
                    let s = self.entries@;
                    let q = (old_path, new_path);
                    assert(s.push(q).drop_last() =~= s);
                    assert(s.push(q).last() == q);
                    assert(forall|m: int| 0 <= m < s.len() ==> #[trigger] s.push(q)[m] == s[m]);
                    assert(rename_keys_unique(s.push(q)));
                }
                self.entries.push((old_path, new_path));
            },
        }
    }

    /// Follows the rename chain from `p` until a path that is no longer a
    /// key, stepping at most once per entry of the table: on an acyclic
    /// table that is the terminal, most recently known name of `p`.
    pub fn resolve(&self, p: &String) -> (r: String)
        requires
            self.wf(),
        ensures
            r@ == resolve_path(self@, p@),
    {
        proof {
            lemma_rename_view_len(self.entries@);
        }
        let n = self.entries.len();
        let mut cur: String = p.clone();
        let mut steps: usize = 0;
        let mut done = false;
        while !done && steps < n
            invariant
                self.wf(),
                0 <= steps <= n,
                n == self.entries@.len(),
                self@.dom().len() == n as nat,
                chase(self@, p@, n as nat) == chase(self@, cur@, (n - steps) as nat),
                done ==> !self@.contains_key(cur@),
            decreases n - steps + (if done {
                0int
            } else {
                1int
            }),
        {
            match self.get(&cur) {
                Some(next) => {
                    cur = next;
                    steps = steps + 1;
                },
                None => {
                    done = true;
                },
            }
        }
        proof {
            if done {
                lemma_chase_not_key(self@, cur@, (n - steps) as nat);
            }
        }
        cur
    }
}

} // verus!
