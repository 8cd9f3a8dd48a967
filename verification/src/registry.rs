use vstd::prelude::*;

use crate::bytes::bytes_eq;

verus! {

/// The set of entries, read as a map from identity to handle.  A later entry
/// for the same identity shadows an earlier one, though a well-formed
/// registry never holds two entries for one identity.
spec fn map_of(s: Seq<(Vec<u8>, u64)>) -> Map<Seq<u8>, u64>
    decreases s.len(),
{
    if s.len() == 0 {
        Map::empty()
    } else {
        map_of(s.drop_last()).insert(s.last().0@, s.last().1)
    }
}

/// No identity occurs in two entries.
spec fn distinct_keys(s: Seq<(Vec<u8>, u64)>) -> bool {
    forall|i: int, j: int| 0 <= i < j < s.len() ==> s[i].0@ != s[j].0@
}

proof fn lemma_map_of_contains(s: Seq<(Vec<u8>, u64)>, k: Seq<u8>)
    ensures
        map_of(s).contains_key(k) <==> exists|i: int| 0 <= i < s.len() && s[i].0@ == k,
    decreases s.len(),
{
    if s.len() > 0 {
        lemma_map_of_contains(s.drop_last(), k);
        if s.last().0@ == k {
            assert(s[s.len() - 1].0@ == k);
        } else if map_of(s).contains_key(k) {
            let i = choose|i: int| 0 <= i < s.drop_last().len() && s.drop_last()[i].0@ == k;
            assert(s[i].0@ == k);
        } else if exists|i: int| 0 <= i < s.len() && s[i].0@ == k {
            let i = choose|i: int| 0 <= i < s.len() && s[i].0@ == k;
            assert(s.drop_last()[i].0@ == k);
        }
    }
}

proof fn lemma_map_of_get(s: Seq<(Vec<u8>, u64)>, i: int)
    requires
        distinct_keys(s),
        0 <= i < s.len(),
    ensures
        map_of(s).contains_key(s[i].0@),
        map_of(s)[s[i].0@] == s[i].1,
    decreases s.len(),
{
    if i == s.len() - 1 {
        assert(s.last() == s[i]);
    } else {
        assert(distinct_keys(s.drop_last())) by {
            assert(forall|x: int, y: int|
                0 <= x < y < s.drop_last().len() ==> s.drop_last()[x].0@ == s[x].0@
                    && s.drop_last()[y].0@ == s[y].0@);
        }
        lemma_map_of_get(s.drop_last(), i);
        assert(s.drop_last()[i] == s[i]);
        assert(s.last().0@ != s[i].0@);
    }
}

proof fn lemma_map_of_absent_remove(s: Seq<(Vec<u8>, u64)>, k: Seq<u8>)
    requires
        forall|i: int| 0 <= i < s.len() ==> s[i].0@ != k,
    ensures
        map_of(s).remove(k) =~= map_of(s),
{
    lemma_map_of_contains(s, k);
}

proof fn lemma_map_of_remove_entry(s: Seq<(Vec<u8>, u64)>, i: int)
    requires
        distinct_keys(s),
        0 <= i < s.len(),
    ensures
        map_of(s.remove(i)) =~= map_of(s).remove(s[i].0@),
    decreases s.len(),
{
    let k = s[i].0@;
    if i == s.len() - 1 {
        assert(s.remove(i) =~= s.drop_last());
        assert(forall|j: int| 0 <= j < s.drop_last().len() ==> s.drop_last()[j].0@ != k);
        lemma_map_of_absent_remove(s.drop_last(), k);
    } else {
        assert(distinct_keys(s.drop_last())) by {
            assert(forall|x: int, y: int|
                0 <= x < y < s.drop_last().len() ==> s.drop_last()[x].0@ == s[x].0@
                    && s.drop_last()[y].0@ == s[y].0@);
        }
        assert(s.drop_last()[i] == s[i]);
        lemma_map_of_remove_entry(s.drop_last(), i);
        assert(s.remove(i).drop_last() =~= s.drop_last().remove(i));
        assert(s.remove(i).last() == s.last());
        assert(s.last().0@ != k);
        assert(map_of(s.remove(i)) =~= map_of(s.drop_last().remove(i)).insert(
            s.last().0@,
            s.last().1,
        ));
    }
}

/// The connection registry: the single source of truth for which identities
/// are online.  It maps each identity (the UTF-8 bytes of the verified
/// principal string) to the numeric handle of that identity's live outbound
/// connection.
pub struct ConnectionRegistry {
    entries: Vec<(Vec<u8>, u64)>,
}

impl View for ConnectionRegistry {
    type V = Map<Seq<u8>, u64>;

    closed spec fn view(&self) -> Map<Seq<u8>, u64> {
        map_of(self.entries@)
    }
}

impl ConnectionRegistry {
    /// Well-formed: at most one live entry per identity.
    pub closed spec fn wf(&self) -> bool {
        distinct_keys(self.entries@)
    }

    /// An empty registry: nobody is online.
    pub fn new() -> (r: ConnectionRegistry)
        ensures
            r.wf(),
            r@ =~= Map::<Seq<u8>, u64>::empty(),
    {
        ConnectionRegistry { entries: Vec::new() }
    }

    /// Finds the position of an identity's entry, if it has one.
    fn position_of(&self, identity: &[u8]) -> (r: Option<usize>)
        ensures
            match r {
                Some(i) => i < self.entries@.len() && self.entries@[i as int].0@ == identity@,
                None => forall|i: int|
                    0 <= i < self.entries@.len() ==> self.entries@[i].0@ != identity@,
            },
    {
        let n = self.entries.len();
        let mut i: usize = 0;
        while i < n
            invariant
                n == self.entries@.len(),
                i <= n,
                forall|k: int| 0 <= k < i ==> self.entries@[k].0@ != identity@,
            decreases n - i,
        {
            if bytes_eq(self.entries[i].0.as_slice(), identity) {
                return Some(i);
            }
            i += 1;
        }
        None
    }

    /// Installs `handle` as the live connection for `identity`, replacing any
    /// prior handle for the same identity.
    pub fn register(&mut self, identity: Vec<u8>, handle: u64)
        requires
            old(self).wf(),
        ensures
            final(self).wf(),
            final(self)@ =~= old(self)@.insert(identity@, handle),
    {
        self.remove(&identity);
        let ghost key = identity@;
        let ghost pre = self.entries@;
        proof {
            lemma_map_of_contains(pre, key);
        }
        self.entries.push((identity, handle));
        proof {
            assert(self.entries@.drop_last() =~= pre);
            assert(map_of(self.entries@) =~= map_of(pre).insert(key, handle));
            assert(final(self)@ =~= old(self)@.remove(key).insert(key, handle));
        }
    }

    /// Returns the current handle for `identity`, or `None` if that identity
    /// has no live connection.
    pub fn lookup(&self, identity: &Vec<u8>) -> (r: Option<u64>)
        requires
            self.wf(),
        ensures
            match r {
                Some(h) => self@.contains_key(identity@) && self@[identity@] == h,
                None => !self@.contains_key(identity@),
            },
    {
        match self.position_of(identity.as_slice()) {
            Some(i) => {
                proof {
                    lemma_map_of_get(self.entries@, i as int);
                }
                Some(self.entries[i].1)
            }
            None => {
                proof {
                    lemma_map_of_contains(self.entries@, identity@);
                }
                None
            }
        }
    }

    /// Deletes the entry for `identity` if present; removing an absent
    /// identity is a no-op, not an error.
    pub fn remove(&mut self, identity: &Vec<u8>)
        requires
            old(self).wf(),
        ensures
            final(self).wf(),
            final(self)@ =~= old(self)@.remove(identity@),
    {
        match self.position_of(identity.as_slice()) {
            Some(i) => {
                proof {
                    lemma_map_of_remove_entry(self.entries@, i as int);
                }
                self.entries.remove(i);
            }
            None => {
                proof {
                    lemma_map_of_absent_remove(self.entries@, identity@);
                }
            }
        }
    }
}

} // verus!
