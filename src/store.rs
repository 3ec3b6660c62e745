//! The key-value store seen by the adapter: its contents as a map from key to
//! value, the two write commands, and an in-memory implementation.
use vstd::prelude::*;

verus! {

pub open spec fn pairs_view(p: Seq<(String, String)>) -> Seq<(Seq<char>, Seq<char>)> {
    p.map_values(|e: (String, String)| (e.0@, e.1@))
}

/// The contents after writing `pairs` in order over `m`: a later pair with
/// the same key replaces an earlier one.
pub open spec fn set_all(m: Map<Seq<char>, Seq<char>>, pairs: Seq<(Seq<char>, Seq<char>)>) -> Map<
    Seq<char>,
    Seq<char>,
>
    decreases pairs.len(),
{
    if pairs.len() == 0 {
        m
    } else {
        set_all(m, pairs.drop_last()).insert(pairs.last().0, pairs.last().1)
    }
}

/// A store that the adapter writes nodes into.
pub trait KeyValueStore {
    /// What the store holds.
    spec fn contents(&self) -> Map<Seq<char>, Seq<char>>;

    /// Whether a connection to the store can be had.
    spec fn reachable(&self) -> bool;

    /// Whether every write command succeeds.
    spec fn accepts_writes(&self) -> bool;

    /// Hands out a ready connection, reusing an open one; `false` when the
    /// store cannot be reached.
    fn acquire(&mut self) -> (r: bool)
        ensures
            r == old(self).reachable(),
            final(self).contents() == old(self).contents(),
            final(self).reachable() == old(self).reachable(),
            final(self).accepts_writes() == old(self).accepts_writes(),
    ;

    /// Unconditionally sets `key` to `value`.
    fn set(&mut self, key: String, value: String) -> (r: Result<(), String>)
        ensures
            old(self).accepts_writes() ==> r is Ok,
            r is Ok ==> final(self).contents() == old(self).contents().insert(key@, value@),
            final(self).reachable() == old(self).reachable(),
            final(self).accepts_writes() == old(self).accepts_writes(),
    ;

    /// Sets every pair in one command.
    fn set_many(&mut self, pairs: Vec<(String, String)>) -> (r: Result<(), String>)
        ensures
            old(self).accepts_writes() ==> r is Ok,
            r is Ok ==> final(self).contents() == set_all(old(self).contents(), pairs_view(pairs@)),
            final(self).reachable() == old(self).reachable(),
            final(self).accepts_writes() == old(self).accepts_writes(),
    ;
}

/// A key-value store held in memory, as a log of writes in which the last
/// write of a key wins. Every write succeeds.
pub struct MemoryStore {
    entries: Vec<(String, String)>,
    online: bool,
}

pub open spec fn log_map(s: Seq<(String, String)>) -> Map<Seq<char>, Seq<char>>
    decreases s.len(),
{
    if s.len() == 0 {
        Map::empty()
    } else {
        log_map(s.drop_last()).insert(s.last().0@, s.last().1@)
    }
}

proof fn lemma_log_tail(s: Seq<(String, String)>, j: int, k: Seq<char>)
    requires
        0 <= j <= s.len(),
        forall|i: int| j <= i < s.len() ==> (#[trigger] s[i]).0@ != k,
    ensures
        log_map(s).contains_key(k) == log_map(s.take(j)).contains_key(k),
        log_map(s).contains_key(k) ==> log_map(s)[k] == log_map(s.take(j))[k],
    decreases s.len(),
{
    if s.len() == j {
        assert(s.take(j) =~= s);
    } else {
        let t = s.drop_last();
        assert(t.take(j) =~= s.take(j));
        lemma_log_tail(t, j, k);
    }
}

impl MemoryStore {
    /// An empty store; `online` says whether it can be reached.
    pub fn new(online: bool) -> (r: MemoryStore)
        ensures
            r.contents() == Map::<Seq<char>, Seq<char>>::empty(),
            r.reachable() == online,
            r.accepts_writes(),
    {
        MemoryStore { entries: Vec::new(), online }
    }

    /// The value stored under `key`.
    pub fn get(&self, key: &String) -> (r: Option<String>)
        ensures
            r is Some <==> self.contents().contains_key(key@),
            r matches Some(v) ==> v@ == self.contents()[key@],
    {
        let mut i: usize = self.entries.len();
        while i > 0
            invariant
                i <= self.entries@.len(),
                forall|j: int| i <= j < self.entries@.len() ==> (#[trigger] self.entries@[j]).0@ != key@,
            decreases i,
        {
            let e = &self.entries[i - 1];
            if e.0.eq(key) {
                proof {
                    lemma_log_tail(self.entries@, i as int, key@);
                    let t = self.entries@.take(i as int);
                    assert(t.drop_last() =~= self.entries@.take(i - 1));
                }
                return Some(e.1.clone());
            }
            i = i - 1;
        }
        proof {
            lemma_log_tail(self.entries@, 0, key@);
        }
        None
    }
}

impl KeyValueStore for MemoryStore {
    closed spec fn contents(&self) -> Map<Seq<char>, Seq<char>> {
        log_map(self.entries@)
    }

    closed spec fn reachable(&self) -> bool {
        self.online
    }

    closed spec fn accepts_writes(&self) -> bool {
        true
    }

    fn acquire(&mut self) -> (r: bool) {
        self.online
    }

    fn set(&mut self, key: String, value: String) -> (r: Result<(), String>) {
        let ghost before = self.entries@;
        self.entries.push((key, value));
        assert(self.entries@.drop_last() =~= before);
        Ok(())
    }

    fn set_many(&mut self, pairs: Vec<(String, String)>) -> (r: Result<(), String>) {
        let ghost start = log_map(self.entries@);
        let ghost all = pairs_view(pairs@);
        let ghost online = self.online;
        let mut i: usize = 0;
        while i < pairs.len()
            invariant
                i <= pairs@.len(),
                all == pairs_view(pairs@),
                self.online == online,
                log_map(self.entries@) == set_all(start, all.take(i as int)),
            decreases pairs@.len() - i,
        {
            let ghost before = self.entries@;
            let k = pairs[i].0.clone();
            let v = pairs[i].1.clone();
            self.entries.push((k, v));
            assert(self.entries@.drop_last() =~= before);
            assert(all.take(i + 1).drop_last() =~= all.take(i as int));
            i = i + 1;
        }
        assert(all.take(i as int) =~= all);
        Ok(())
    }
}

} // verus!
