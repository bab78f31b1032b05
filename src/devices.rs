use vstd::prelude::*;
use crate::record::DeviceRecord;
use crate::scan::candidates_of;

verus! {

/// The mapping that a sequence of resolutions yields, taken in order: each
/// resolved path maps to its record (a later record for the same path
/// replaces an earlier one), and an unresolved path adds nothing.
pub open spec fn device_map(res: Seq<(String, Option<DeviceRecord>)>) -> Map<Seq<char>, DeviceRecord>
    decreases res.len(),
{
    if res.len() == 0 {
        Map::empty()
    } else {
        let prev = device_map(res.drop_last());
        match res.last().1 {
            Some(d) => prev.insert(res.last().0@, d),
            None => prev,
        }
    }
}

/// `entries` holds each key of `map` once, with its value, and nothing else.
spec fn entries_represent(entries: Seq<(String, DeviceRecord)>, map: Map<Seq<char>, DeviceRecord>) -> bool {
    &&& forall|i: int, j: int|
        0 <= i < j < entries.len() ==> #[trigger] entries[i].0@ != #[trigger] entries[j].0@
    &&& forall|k: Seq<char>|
        #[trigger] map.contains_key(k) <==> exists|i: int| 0 <= i < entries.len() && #[trigger] entries[i].0@ == k
    &&& forall|i: int|
        0 <= i < entries.len() ==> map.contains_key(#[trigger] entries[i].0@) && map[entries[i].0@] == entries[i].1
}

/// The result of one enumeration pass: device paths, each unique, with the
/// record resolved for it.
pub struct DeviceList {
    entries: Vec<(String, DeviceRecord)>,
    map: Ghost<Map<Seq<char>, DeviceRecord>>,
}

impl View for DeviceList {
    type V = Map<Seq<char>, DeviceRecord>;

    closed spec fn view(&self) -> Map<Seq<char>, DeviceRecord> {
        self.map@
    }
}

impl DeviceList {
    #[verifier::type_invariant]
    spec fn entries_match_map(self) -> bool {
        entries_represent(self.entries@, self.map@)
    }

    /// An empty list.
    pub fn new() -> (r: DeviceList)
        ensures
            r@ == Map::<Seq<char>, DeviceRecord>::empty(),
    {
        DeviceList { entries: Vec::new(), map: Ghost(Map::empty()) }
    }

    /// The index of the entry for `path`, if there is one.
    fn position(&self, path: &String) -> (r: Option<usize>)
        ensures
            match r {
                Some(i) => i < self.entries@.len() && self.entries@[i as int].0@ == path@,
                None => forall|i: int|
                    0 <= i < self.entries@.len() ==> #[trigger] self.entries@[i].0@ != path@,
            },
    {
        let mut i: usize = 0;
        while i < self.entries.len()
            invariant
                i <= self.entries@.len(),
                forall|j: int| 0 <= j < i ==> #[trigger] self.entries@[j].0@ != path@,
            decreases self.entries@.len() - i,
        {
            if self.entries[i].0 == *path {
                return Some(i);
            }
            i = i + 1;
        }
        None
    }

    /// Whether `path` has a record.
    pub fn contains(&self, path: &String) -> (r: bool)
        ensures
            r == self@.contains_key(path@),
    {
        proof { use_type_invariant(self); }
        self.position(path).is_some()
    }

    /// The record of `path`, if it has one.
    pub fn get(&self, path: &String) -> (r: Option<&DeviceRecord>)
        ensures
            match r {
                Some(d) => self@.contains_key(path@) && *d == self@[path@],
                None => !self@.contains_key(path@),
            },
    {
        proof { use_type_invariant(self); }
        match self.position(path) {
            Some(i) => Some(&self.entries[i].1),
            None => None,
        }
    }

    /// The number of paths with a record.
    pub fn len(&self) -> (r: usize)
        ensures
            r == self@.dom().len(),
    {
        proof {
            use_type_invariant(self);
            self.lemma_len();
        }
        self.entries.len()
    }

    proof fn lemma_len(&self)
        requires
            self.entries_match_map(),
        ensures
            self@.dom().finite(),
            self@.dom().len() == self.entries@.len(),
    {
        let keys = self.entries@.map_values(|e: (String, DeviceRecord)| e.0@);
        assert forall|i: int, j: int| 0 <= i < j < keys.len() implies keys[i] != keys[j] by {
            assert(self.entries@[i].0@ != self.entries@[j].0@);
        }
        assert(keys.no_duplicates());
        keys.unique_seq_to_set();
        assert(keys.to_set() =~= self@.dom()) by {
            assert forall|k: Seq<char>| keys.to_set().contains(k) implies self@.dom().contains(k) by {
                let i = choose|i: int| 0 <= i < keys.len() && keys[i] == k;
                assert(self.entries@[i].0@ == k);
            }
            assert forall|k: Seq<char>| self@.dom().contains(k) implies keys.to_set().contains(k) by {
                let i = choose|i: int| 0 <= i < self.entries@.len() && #[trigger] self.entries@[i].0@ == k;
                assert(keys[i] == k);
            }
        }
    }

    /// The paths that have a record.
    pub fn paths(&self) -> (r: Vec<String>)
        ensures
            r@.len() == self@.dom().len(),
            forall|i: int| 0 <= i < r@.len() ==> self@.contains_key(#[trigger] r@[i]@),
            forall|k: Seq<char>| #[trigger] self@.contains_key(k) ==> exists|i: int|
                0 <= i < r@.len() && #[trigger] r@[i]@ == k,
    {
        proof {
            use_type_invariant(self);
            self.lemma_len();
        }
        let mut out: Vec<String> = Vec::new();
        let mut i: usize = 0;
        while i < self.entries.len()
            invariant
                i <= self.entries@.len(),
                out@.len() == i,
                forall|j: int| 0 <= j < i ==> #[trigger] out@[j]@ == self.entries@[j].0@,
            decreases self.entries@.len() - i,
        {
            out.push(self.entries[i].0.clone());
            i = i + 1;
        }
        proof {
            assert forall|k: Seq<char>| #[trigger] self@.contains_key(k) implies exists|i: int|
                0 <= i < out@.len() && #[trigger] out@[i]@ == k by {
                let i = choose|i: int| 0 <= i < self.entries@.len() && #[trigger] self.entries@[i].0@ == k;
                assert(out@[i]@ == k);
            }
        }
        out
    }

    /// Takes in the outcome of resolving `path`: a record is entered under
    /// `path`, replacing any earlier one; an absent record changes nothing.
    pub fn record_resolution(&mut self, path: String, resolved: Option<DeviceRecord>)
        ensures
            final(self)@ == match resolved {
                Some(d) => old(self)@.insert(path@, d),
                None => old(self)@,
            },
    {
        proof { use_type_invariant(&*self); }
        match resolved {
            None => {},
            Some(d) => {
                let ghost key = path@;
                let ghost new_map = self.map@.insert(key, d);
                let ghost old_entries = self.entries@;
                let position = self.position(&path);
                let mut taken = DeviceList::new();
                std::mem::swap(&mut taken, self);
                let DeviceList { entries: mut entries, map: _ } = taken;
                let ghost mut at: int = old_entries.len() as int;
                match position {
                    Some(i) => {
                        entries.set(i, (path, d));
                        proof { at = i as int; }
                    },
                    None => {
                        entries.push((path, d));
                    },
                }
                proof {
                    assert(entries@.len() == old_entries.len() || entries@.len() == old_entries.len() + 1);
                    assert(0 <= at < entries@.len() && entries@[at].0@ == key && entries@[at].1 == d);
                    assert forall|j: int| 0 <= j < entries@.len() && j != at implies
                        #[trigger] entries@[j] == old_entries[j] && old_entries[j].0@ != key by {}
                    assert forall|k: Seq<char>| #[trigger] new_map.contains_key(k) implies exists|i: int|
                        0 <= i < entries@.len() && #[trigger] entries@[i].0@ == k by {
                        if k != key {
                            let i = choose|i: int| 0 <= i < old_entries.len() && #[trigger] old_entries[i].0@ == k;
                            assert(entries@[i].0@ == k);
                        } else {
                            assert(entries@[at].0@ == k);
                        }
                    }
                    assert forall|i: int, j: int| 0 <= i < j < entries@.len() implies
                        #[trigger] entries@[i].0@ != #[trigger] entries@[j].0@ by {
                        if i != at && j != at {
                            assert(old_entries[i].0@ != old_entries[j].0@);
                        }
                    }
                    assert forall|i: int| 0 <= i < entries@.len() implies
                        new_map.contains_key(#[trigger] entries@[i].0@)
                        && new_map[entries@[i].0@] == entries@[i].1 by {
                        if i != at {
                            assert(old_entries[i] == entries@[i]);
                        }
                    }
                    assert forall|k: Seq<char>| (exists|i: int|
                        0 <= i < entries@.len() && #[trigger] entries@[i].0@ == k) implies
                        #[trigger] new_map.contains_key(k) by {
                        let i = choose|i: int| 0 <= i < entries@.len() && #[trigger] entries@[i].0@ == k;
                        if i != at {
                            assert(old_entries[i] == entries@[i]);
                        }
                    }
                    assert(entries_represent(entries@, new_map));
                }
                *self = DeviceList { entries, map: Ghost(new_map) };
            },
        }
    }
}

/// Builds the result of an enumeration pass from the resolution of each
/// candidate path, taken in order.
pub fn get_device_list(resolutions: Vec<(String, Option<DeviceRecord>)>) -> (r: DeviceList)
    ensures
        r@ == device_map(resolutions@),
{
    let ghost all = resolutions@;
    let mut list = DeviceList::new();
    for item in it: resolutions.into_iter()
        invariant
            it.seq() == all,
            list@ == device_map(all.take(it.index())),
    {
        let (path, resolved) = item;
        proof {
            assert(all.take(it.index() + 1).drop_last() =~= all.take(it.index()));
        }
        list.record_resolution(path, resolved);
    }
    proof {
        assert(all.take(all.len() as int) =~= all);
    }
    list
}


/// A path is in the result exactly when one of its resolutions produced a record.
pub proof fn lemma_resolved_paths(res: Seq<(String, Option<DeviceRecord>)>, k: Seq<char>)
    ensures
        device_map(res).contains_key(k) <==> exists|i: int|
            0 <= i < res.len() && #[trigger] res[i].0@ == k && res[i].1 is Some,
    decreases res.len(),
{
    if res.len() > 0 {
        let prev = res.drop_last();
        lemma_resolved_paths(prev, k);
        if device_map(res).contains_key(k) {
            if !device_map(prev).contains_key(k) {
                assert(res[res.len() - 1].0@ == k);
            } else {
                let i = choose|i: int| 0 <= i < prev.len() && #[trigger] prev[i].0@ == k && prev[i].1 is Some;
                assert(res[i] == prev[i]);
            }
        }
        if exists|i: int| 0 <= i < res.len() && #[trigger] res[i].0@ == k && res[i].1 is Some {
            let i = choose|i: int| 0 <= i < res.len() && #[trigger] res[i].0@ == k && res[i].1 is Some;
            if i < prev.len() {
                assert(prev[i] == res[i]);
            }
        }
    }
}

/// A candidate whose resolution found no record, and which was not resolved
/// a second time, has no entry in the result.
pub proof fn lemma_unresolved_excluded(res: Seq<(String, Option<DeviceRecord>)>, i: int)
    requires
        0 <= i < res.len(),
        res[i].1 is None,
        forall|j: int| 0 <= j < res.len() && j != i ==> #[trigger] res[j].0@ != res[i].0@,
    ensures
        !device_map(res).contains_key(res[i].0@),
{
    lemma_resolved_paths(res, res[i].0@);
}

/// Resolutions that agree path by path and record by record give the same result.
pub proof fn lemma_same_resolutions_same_map(
    a: Seq<(String, Option<DeviceRecord>)>,
    b: Seq<(String, Option<DeviceRecord>)>,
)
    requires
        a.len() == b.len(),
        forall|i: int| 0 <= i < a.len() ==> #[trigger] a[i].0@ == b[i].0@ && a[i].1 == b[i].1,
    ensures
        device_map(a) == device_map(b),
    decreases a.len(),
{
    if a.len() > 0 {
        let (pa, pb) = (a.drop_last(), b.drop_last());
        assert forall|i: int| 0 <= i < pa.len() implies #[trigger] pa[i].0@ == pb[i].0@
            && pa[i].1 == pb[i].1 by {
            assert(a[i] == pa[i] && b[i] == pb[i]);
            assert(a[i].0@ == b[i].0@ && a[i].1 == b[i].1);
        }
        lemma_same_resolutions_same_map(pa, pb);
        let n = a.len() - 1;
        assert(a[n].0@ == b[n].0@ && a[n].1 == b[n].1);
        assert(a[n] == a.last() && b[n] == b.last());
    }
}

/// Enumerating twice over an unchanged directory listing, where resolving a
/// path depends on nothing but the path, yields the same result both times.
pub proof fn lemma_enumeration_repeatable(
    root: Seq<char>,
    names: Seq<Seq<char>>,
    resolve: spec_fn(Seq<char>) -> Option<DeviceRecord>,
    a: Seq<(String, Option<DeviceRecord>)>,
    b: Seq<(String, Option<DeviceRecord>)>,
)
    requires
        a.len() == candidates_of(root, names).len(),
        b.len() == candidates_of(root, names).len(),
        forall|i: int| 0 <= i < a.len() ==> #[trigger] a[i].0@ == candidates_of(root, names)[i]
            && a[i].1 == resolve(a[i].0@),
        forall|i: int| 0 <= i < b.len() ==> #[trigger] b[i].0@ == candidates_of(root, names)[i]
            && b[i].1 == resolve(b[i].0@),
    ensures
        device_map(a) == device_map(b),
{
    assert forall|i: int| 0 <= i < a.len() implies #[trigger] a[i].0@ == b[i].0@ && a[i].1 == b[i].1 by {
        assert(a[i].0@ == candidates_of(root, names)[i] && a[i].1 == resolve(a[i].0@));
        assert(b[i].0@ == candidates_of(root, names)[i] && b[i].1 == resolve(b[i].0@));
    }
    lemma_same_resolutions_same_map(a, b);
}

} // verus!
