use vstd::prelude::*;
use crate::error::{Error, Namespace};
use crate::identity::Identity;
use crate::model::{listed, without};

verus! {

/// One owner's entry in the index: the identifiers of the assets held, in the
/// order in which they were added.
struct OwnerEntry {
    owner: Identity,
    ids: Vec<u64>,
}

/// The owner index: for each owner that ever held an asset, the identifiers of
/// the assets held now.
pub struct OwnerIndex {
    entries: Vec<OwnerEntry>,
}

/// Whether some entry is that of `owner`.
spec fn has_entry(entries: Seq<OwnerEntry>, owner: Seq<char>) -> bool {
    exists|i: int| 0 <= i < entries.len() && (#[trigger] entries[i]).owner@ == owner
}

/// The position of an entry of `owner`.
spec fn entry_of(entries: Seq<OwnerEntry>, owner: Seq<char>) -> int {
    choose|i: int| 0 <= i < entries.len() && (#[trigger] entries[i]).owner@ == owner
}

/// No two entries are of the same owner.
spec fn distinct_owners(entries: Seq<OwnerEntry>) -> bool {
    forall|i: int, j: int|
        0 <= i < j < entries.len() ==> (#[trigger] entries[i]).owner@ != (
        #[trigger] entries[j]).owner@
}

/// The entries as a map from owner to list.
spec fn index_of(entries: Seq<OwnerEntry>) -> Map<Seq<char>, Seq<u64>> {
    Map::new(
        |owner: Seq<char>| has_entry(entries, owner),
        |owner: Seq<char>| entries[entry_of(entries, owner)].ids@,
    )
}

/// With distinct owners, an entry of an owner is the entry of that owner.
proof fn lemma_entry_found(entries: Seq<OwnerEntry>, i: int)
    requires
        distinct_owners(entries),
        0 <= i < entries.len(),
    ensures
        has_entry(entries, entries[i].owner@),
        entry_of(entries, entries[i].owner@) == i,
        index_of(entries)[entries[i].owner@] == entries[i].ids@,
{
    let owner = entries[i].owner@;
    let j = entry_of(entries, owner);
    assert(0 <= j < entries.len() && entries[j].owner@ == owner);
    if j < i {
        assert(entries[j].owner@ != entries[i].owner@);
    } else if i < j {
        assert(entries[i].owner@ != entries[j].owner@);
    }
}

/// Copies a list of identifiers.
fn clone_ids(ids: &Vec<u64>) -> (copy: Vec<u64>)
    ensures
        copy@ == ids@,
{
    let mut copy: Vec<u64> = Vec::new();
    let mut i: usize = 0;
    while i < ids.len()
        invariant
            i <= ids.len(),
            copy@ == ids@.subrange(0, i as int),
        decreases ids.len() - i,
    {
        copy.push(ids[i]);
        assert(copy@ =~= ids@.subrange(0, i + 1));
        i += 1;
    }
    assert(copy@ =~= ids@);
    copy
}

/// Whether `id` occurs in `ids`.
fn holds(ids: &Vec<u64>, id: u64) -> (found: bool)
    ensures
        found == ids@.contains(id),
{
    let mut i: usize = 0;
    while i < ids.len()
        invariant
            i <= ids.len(),
            forall|j: int| 0 <= j < i ==> ids@[j] != id,
        decreases ids.len() - i,
    {
        if ids[i] == id {
            return true;
        }
        i += 1;
    }
    false
}

/// The identifiers of `ids` that do not occur in `gone`, in their order.
fn remaining(ids: &Vec<u64>, gone: &Vec<u64>) -> (kept: Vec<u64>)
    ensures
        kept@ == without(ids@, gone@),
{
    let mut kept: Vec<u64> = Vec::new();
    let mut i: usize = 0;
    let ghost stays = |id: u64| !gone@.contains(id);
    proof {
        reveal(Seq::filter);
        assert(ids@.subrange(0, 0).filter(stays) =~= Seq::<u64>::empty());
    }
    while i < ids.len()
        invariant
            i <= ids.len(),
            stays == (|id: u64| !gone@.contains(id)),
            kept@ == ids@.subrange(0, i as int).filter(stays),
        decreases ids.len() - i,
    {
        let id = ids[i];
        proof {
            let before = ids@.subrange(0, i as int);
            assert(ids@.subrange(0, i + 1) =~= before.push(id));
            before.lemma_filter_push(id, stays);
        }
        if !holds(gone, id) {
            kept.push(id);
        }
        i += 1;
    }
    assert(ids@.subrange(0, i as int) =~= ids@);
    kept
}

impl View for OwnerIndex {
    type V = Map<Seq<char>, Seq<u64>>;

    closed spec fn view(&self) -> Map<Seq<char>, Seq<u64>> {
        index_of(self.entries@)
    }
}

impl OwnerIndex {
    /// The invariant of the index: each owner has at most one entry.
    pub closed spec fn wf(self) -> bool {
        distinct_owners(self.entries@)
    }

    /// An index without entries.
    pub fn new() -> (index: Self)
        ensures
            index.wf(),
            index@ == Map::<Seq<char>, Seq<u64>>::empty(),
    {
        let index = OwnerIndex { entries: Vec::new() };
        assert(index@ =~= Map::<Seq<char>, Seq<u64>>::empty());
        index
    }

    /// The position of the entry of `owner`, if it has one.
    fn find(&self, owner: &Identity) -> (slot: Option<usize>)
        requires
            self.wf(),
        ensures
            match slot {
                Some(i) => {
                    &&& i < self.entries@.len()
                    &&& self.entries@[i as int].owner@ == owner@
                    &&& self@.contains_key(owner@)
                    &&& self@[owner@] == self.entries@[i as int].ids@
                },
                None => !self@.contains_key(owner@),
            },
    {
        let mut i: usize = 0;
        while i < self.entries.len()
            invariant
                self.wf(),
                i <= self.entries@.len(),
                forall|j: int| 0 <= j < i ==> self.entries@[j].owner@ != owner@,
            decreases self.entries@.len() - i,
        {
            if self.entries[i].owner.same_as(owner) {
                proof {
                    lemma_entry_found(self.entries@, i as int);
                }
                return Some(i);
            }
            i += 1;
        }
        None
    }

    /// Whether `owner` has an entry, be it an empty one.
    pub fn has_owner(&self, owner: &Identity) -> (found: bool)
        requires
            self.wf(),
        ensures
            found == self@.contains_key(owner@),
    {
        self.find(owner).is_some()
    }

    /// The identifiers listed for `owner`, oldest first.
    pub fn list(&self, owner: &Identity) -> (ids: Vec<u64>)
        requires
            self.wf(),
        ensures
            ids@ == listed(self@, owner@),
    {
        match self.find(owner) {
            Some(i) => clone_ids(&self.entries[i].ids),
            None => Vec::new(),
        }
    }

    /// Whether `id` is listed for `owner`.
    pub fn lists(&self, owner: &Identity, id: u64) -> (found: bool)
        requires
            self.wf(),
        ensures
            found == listed(self@, owner@).contains(id),
    {
        match self.find(owner) {
            Some(i) => holds(&self.entries[i].ids, id),
            None => false,
        }
    }

    /// Puts a new list in place of that of `owner`, or makes an entry with it.
    fn put(&mut self, owner: &Identity, ids: Vec<u64>)
        requires
            old(self).wf(),
        ensures
            final(self).wf(),
            final(self)@ == old(self)@.insert(owner@, ids@),
    {
        let slot = self.find(owner);
        let entry = OwnerEntry { owner: owner.clone(), ids };
        match slot {
            Some(i) => {
                self.entries.set(i, entry);
                proof {
                    let before = old(self).entries@;
                    let after = self.entries@;
                    assert forall|owner2: Seq<char>| has_entry(after, owner2) <==> has_entry(
                        before,
                        owner2,
                    ) by {
                        if has_entry(after, owner2) {
                            let j = entry_of(after, owner2);
                            assert(before[j].owner@ == owner2);
                        }
                        if has_entry(before, owner2) {
                            let j = entry_of(before, owner2);
                            assert(after[j].owner@ == owner2);
                        }
                    }
                    assert forall|owner2: Seq<char>| has_entry(after, owner2) implies index_of(
                        after,
                    )[owner2] == old(self)@.insert(owner@, ids@)[owner2] by {
                        let j = entry_of(after, owner2);
                        lemma_entry_found(after, j);
                        lemma_entry_found(before, j);
                    }
                    assert(self@ =~= old(self)@.insert(owner@, ids@));
                }
            },
            None => {
                self.entries.push(entry);
                proof {
                    let before = old(self).entries@;
                    let after = self.entries@;
                    let last = before.len() as int;
                    assert forall|i: int, j: int| 0 <= i < j < after.len() implies (
                    #[trigger] after[i]).owner@ != (#[trigger] after[j]).owner@ by {
                        if j == last {
                            assert(before[i].owner@ != owner@) by {
                                if before[i].owner@ == owner@ {
                                    assert(has_entry(before, owner@));
                                }
                            }
                        } else {
                            assert(before[i].owner@ != before[j].owner@);
                        }
                    }
                    assert forall|owner2: Seq<char>| has_entry(after, owner2) <==> (has_entry(
                        before,
                        owner2,
                    ) || owner2 == owner@) by {
                        if has_entry(after, owner2) {
                            let j = entry_of(after, owner2);
                            if j < last {
                                assert(before[j].owner@ == owner2);
                            }
                        }
                        if has_entry(before, owner2) {
                            let j = entry_of(before, owner2);
                            assert(after[j].owner@ == owner2);
                        }
                        if owner2 == owner@ {
                            assert(after[last].owner@ == owner2);
                        }
                    }
                    assert forall|owner2: Seq<char>| has_entry(after, owner2) implies index_of(
                        after,
                    )[owner2] == old(self)@.insert(owner@, ids@)[owner2] by {
                        let j = entry_of(after, owner2);
                        lemma_entry_found(after, j);
                        if j < last {
                            lemma_entry_found(before, j);
                        }
                    }
                    assert(self@ =~= old(self)@.insert(owner@, ids@));
                }
            },
        }
    }

    /// Appends `id` to the list of `owner`, making an entry for an owner that
    /// has none. An identifier that is already listed for the owner is a
    /// consistency violation and nothing changes.
    pub fn add(&mut self, owner: &Identity, id: u64) -> (done: Result<(), Error>)
        requires
            old(self).wf(),
        ensures
            final(self).wf(),
            match done {
                Ok(()) => {
                    &&& !listed(old(self)@, owner@).contains(id)
                    &&& final(self)@ == old(self)@.insert(
                        owner@,
                        listed(old(self)@, owner@).push(id),
                    )
                },
                Err(error) => {
                    &&& listed(old(self)@, owner@).contains(id)
                    &&& error == Error::ConsistencyViolation
                    &&& final(self)@ == old(self)@
                },
            },
    {
        let mut ids = self.list(owner);
        if holds(&ids, id) {
            return Err(Error::ConsistencyViolation);
        }
        ids.push(id);
        self.put(owner, ids);
        Ok(())
    }

    /// Takes `id` out of the list of `owner`; the order of the others is kept.
    /// An identifier that is not listed for the owner is not found and nothing
    /// changes.
    pub fn remove(&mut self, owner: &Identity, id: u64) -> (done: Result<(), Error>)
        requires
            old(self).wf(),
        ensures
            final(self).wf(),
            match done {
                Ok(()) => {
                    &&& listed(old(self)@, owner@).contains(id)
                    &&& final(self)@ == old(self)@.insert(
                        owner@,
                        without(listed(old(self)@, owner@), seq![id]),
                    )
                },
                Err(error) => {
                    &&& !listed(old(self)@, owner@).contains(id)
                    &&& error == Error::NotFound(Namespace::Asset)
                    &&& final(self)@ == old(self)@
                },
            },
    {
        let ids = self.list(owner);
        if !holds(&ids, id) {
            return Err(Error::NotFound(Namespace::Asset));
        }
        let mut gone: Vec<u64> = Vec::new();
        gone.push(id);
        assert(gone@ =~= seq![id]);
        let kept = remaining(&ids, &gone);
        self.put(owner, kept);
        Ok(())
    }
}

} // verus!
