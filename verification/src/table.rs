//! The correlation table: a mapping from correlation id to the operation
//! kind that was sent under that id.
//!
//! An id exists in the table from the moment its request's bytes are
//! appended to the outbound buffer until a matching response is parsed
//! or the connection terminates; ids are never reused while present.
//! Entries are removed exactly once, by dispatch or by teardown.

use vstd::prelude::*;

use crate::request::OpCode;

verus! {

/// One entry holds the id at position `i`.
pub open spec fn key_at(s: Seq<(i32, OpCode)>, k: i32, i: int) -> bool {
    0 <= i < s.len() && s[i].0 == k
}

/// The id occurs somewhere among the entries.
pub open spec fn key_in(s: Seq<(i32, OpCode)>, k: i32) -> bool {
    exists|i: int| key_at(s, k, i)
}

/// No two entries share an id.
pub open spec fn keys_distinct(s: Seq<(i32, OpCode)>) -> bool {
    forall|i: int, j: int|
        0 <= i < s.len() && 0 <= j < s.len() && i != j ==> (#[trigger] s[i]).0 != (
        #[trigger] s[j]).0
}

/// The mapping the entries denote.
pub open spec fn map_of(s: Seq<(i32, OpCode)>) -> Map<i32, OpCode>
    decreases s.len(),
{
    if s.len() == 0 {
        Map::empty()
    } else {
        map_of(s.drop_last()).insert(s.last().0, s.last().1)
    }
}

/// An id is in the mapping exactly when some entry holds it.
pub proof fn lemma_map_of_keys(s: Seq<(i32, OpCode)>)
    ensures
        forall|k: i32| #[trigger] map_of(s).contains_key(k) <==> key_in(s, k),
    decreases s.len(),
{
    if s.len() > 0 {
        let d = s.drop_last();
        lemma_map_of_keys(d);
        assert forall|k: i32| #[trigger] map_of(s).contains_key(k) implies key_in(s, k) by {
            if k == s.last().0 {
                assert(key_at(s, k, s.len() - 1));
            } else {
                assert(map_of(d).contains_key(k));
                let i = choose|i: int| key_at(d, k, i);
                assert(d[i] == s[i]);
                assert(key_at(s, k, i));
            }
        }
        assert forall|k: i32| key_in(s, k) implies #[trigger] map_of(s).contains_key(k) by {
            let i = choose|i: int| key_at(s, k, i);
            if i == s.len() - 1 {
                assert(k == s.last().0);
            } else {
                assert(d[i] == s[i]);
                assert(key_at(d, k, i));
                assert(map_of(d).contains_key(k));
            }
        }
    }
}

/// With distinct ids, the mapping sends each entry's id to its opcode.
pub proof fn lemma_map_of_get(s: Seq<(i32, OpCode)>, i: int)
    requires
        keys_distinct(s),
        0 <= i < s.len(),
    ensures
        map_of(s).contains_key(s[i].0),
        map_of(s)[s[i].0] == s[i].1,
    decreases s.len(),
{
    if i == s.len() - 1 {
    } else {
        assert(keys_distinct(s.drop_last()));
        lemma_map_of_get(s.drop_last(), i);
        assert(s[i].0 != s.last().0);
    }
}

/// Appending an entry with a fresh id inserts it into the mapping.
pub proof fn lemma_map_of_push(s: Seq<(i32, OpCode)>, k: i32, v: OpCode)
    ensures
        map_of(s.push((k, v))) == map_of(s).insert(k, v),
{
    let t = s.push((k, v));
    assert(t.drop_last() =~= s);
    assert(t.last() == (k, v));
}

/// Removing the entry at `j` removes exactly its id from the mapping.
pub proof fn lemma_map_of_remove(s: Seq<(i32, OpCode)>, j: int)
    requires
        keys_distinct(s),
        0 <= j < s.len(),
    ensures
        map_of(s.remove(j)) == map_of(s).remove(s[j].0),
    decreases s.len(),
{
    let k = s[j].0;
    if j == s.len() - 1 {
        assert(s.remove(j) =~= s.drop_last());
        lemma_map_of_keys(s.drop_last());
        assert(!key_in(s.drop_last(), k)) by {
            if key_in(s.drop_last(), k) {
                let i = choose|i: int| key_at(s.drop_last(), k, i);
                assert(s[i].0 == s[j].0 && i != j);
            }
        }
        assert(map_of(s.drop_last()).insert(k, s.last().1).remove(k) =~= map_of(s.drop_last()));
    } else {
        let d = s.drop_last();
        assert(keys_distinct(d));
        lemma_map_of_remove(d, j);
        assert(s.remove(j).drop_last() =~= d.remove(j));
        assert(s.remove(j).last() == s.last());
        assert(s.last().0 != k);
        assert(map_of(d).remove(k).insert(s.last().0, s.last().1) =~= map_of(d).insert(
            s.last().0,
            s.last().1,
        ).remove(k));
    }
}

/// The correlation table. The packetizer is its only owner; no lock is
/// needed because a single task drives all access.
pub struct CorrelationTable {
    entries: Vec<(i32, OpCode)>,
}

impl View for CorrelationTable {
    type V = Map<i32, OpCode>;

    closed spec fn view(&self) -> Map<i32, OpCode> {
        map_of(self.entries@)
    }
}

impl CorrelationTable {
    pub closed spec fn wf(&self) -> bool {
        keys_distinct(self.entries@)
    }

    pub fn new() -> (r: CorrelationTable)
        ensures
            r.wf(),
            r@ == Map::<i32, OpCode>::empty(),
    {
        CorrelationTable { entries: Vec::new() }
    }

    /// Whether no request is outstanding.
    pub fn is_empty(&self) -> (r: bool)
        requires
            self.wf(),
        ensures
            r == (self@ == Map::<i32, OpCode>::empty()),
    {
        proof {
            lemma_map_of_keys(self.entries@);
            if self.entries@.len() > 0 {
                assert(key_at(self.entries@, self.entries@[0].0, 0));
                assert(self@.contains_key(self.entries@[0].0));
            } else {
                assert(self@ =~= Map::<i32, OpCode>::empty());
            }
        }
        self.entries.len() == 0
    }

    /// Whether `xid` is outstanding.
    pub fn contains(&self, xid: i32) -> (r: bool)
        requires
            self.wf(),
        ensures
            r == self@.contains_key(xid),
    {
        let n = self.entries.len();
        let mut i: usize = 0;
        while i < n
            invariant
                n == self.entries@.len(),
                i <= n,
                forall|j: int| 0 <= j < i ==> (#[trigger] self.entries@[j]).0 != xid,
            decreases n - i,
        {
            if self.entries[i].0 == xid {
                proof {
                    lemma_map_of_keys(self.entries@);
                    assert(key_at(self.entries@, xid, i as int));
                }
                return true;
            }
            i = i + 1;
        }
        proof {
            lemma_map_of_keys(self.entries@);
            assert(!key_in(self.entries@, xid)) by {
                if key_in(self.entries@, xid) {
                    let j = choose|j: int| key_at(self.entries@, xid, j);
                }
            }
        }
        false
    }

    /// The operation kind recorded for `xid`, if it is outstanding.
    pub fn get(&self, xid: i32) -> (r: Option<OpCode>)
        requires
            self.wf(),
        ensures
            match r {
                Some(op) => self@.contains_key(xid) && op == self@[xid],
                None => !self@.contains_key(xid),
            },
    {
        let n = self.entries.len();
        let mut i: usize = 0;
        while i < n
            invariant
                n == self.entries@.len(),
                i <= n,
                self.wf(),
                forall|j: int| 0 <= j < i ==> (#[trigger] self.entries@[j]).0 != xid,
            decreases n - i,
        {
            if self.entries[i].0 == xid {
                proof {
                    lemma_map_of_get(self.entries@, i as int);
                }
                return Some(self.entries[i].1);
            }
            i = i + 1;
        }
        proof {
            lemma_map_of_keys(self.entries@);
            assert(!key_in(self.entries@, xid)) by {
                if key_in(self.entries@, xid) {
                    let j = choose|j: int| key_at(self.entries@, xid, j);
                }
            }
        }
        None
    }

    /// Record an operation under a fresh id. Ids are never reused while
    /// outstanding, so the id must not be present.
    pub fn insert(&mut self, xid: i32, op: OpCode)
        requires
            old(self).wf(),
            !old(self)@.contains_key(xid),
        ensures
            final(self).wf(),
            final(self)@ == old(self)@.insert(xid, op),
    {
        proof {
            lemma_map_of_keys(self.entries@);
            assert(!key_in(self.entries@, xid));
        }
        self.entries.push((xid, op));
        proof {
            let s = old(self).entries@;
            assert forall|i: int, j: int|
                0 <= i < self.entries@.len() && 0 <= j < self.entries@.len() && i != j implies (
            #[trigger] self.entries@[i]).0 != (#[trigger] self.entries@[j]).0 by {
                if i < s.len() && j < s.len() {
                } else if i == s.len() {
                    assert(!key_at(s, xid, j));
                } else {
                    assert(!key_at(s, xid, i));
                }
            }
            lemma_map_of_push(s, xid, op);
        }
    }

    /// Take the entry for `xid` out of the table: the one removal its
    /// lifetime allows. Absence means the id was never issued or was
    /// already answered.
    pub fn remove(&mut self, xid: i32) -> (r: Option<OpCode>)
        requires
            old(self).wf(),
        ensures
            final(self).wf(),
            match r {
                Some(op) => old(self)@.contains_key(xid) && op == old(self)@[xid] && final(self)@
                    == old(self)@.remove(xid),
                None => !old(self)@.contains_key(xid) && *final(self) == *old(self),
            },
    {
        let n = self.entries.len();
        let mut i: usize = 0;
        while i < n
            invariant
                n == self.entries@.len(),
                i <= n,
                self.wf(),
                *self == *old(self),
                forall|j: int| 0 <= j < i ==> (#[trigger] self.entries@[j]).0 != xid,
            decreases n - i,
        {
            if self.entries[i].0 == xid {
                proof {
                    lemma_map_of_get(self.entries@, i as int);
                    lemma_map_of_remove(self.entries@, i as int);
                }
                let e = self.entries.remove(i);
                proof {
                    let s = old(self).entries@;
                    assert forall|a: int, b: int|
                        0 <= a < self.entries@.len() && 0 <= b < self.entries@.len() && a
                            != b implies (#[trigger] self.entries@[a]).0 != (
                    #[trigger] self.entries@[b]).0 by {
                        let a0 = if a < i { a } else { a + 1 };
                        let b0 = if b < i { b } else { b + 1 };
                        assert(self.entries@[a] == s[a0] && self.entries@[b] == s[b0]);
                    }
                }
                return Some(e.1);
            }
            i = i + 1;
        }
        proof {
            lemma_map_of_keys(self.entries@);
            assert(!key_in(self.entries@, xid)) by {
                if key_in(self.entries@, xid) {
                    let j = choose|j: int| key_at(self.entries@, xid, j);
                }
            }
        }
        None
    }
}

} // verus!
