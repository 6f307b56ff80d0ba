//! The index from a commit's hash to the short names of the refs that point
//! at it. It is filled once, in the order in which the refs are enumerated,
//! and drained as the commits are visited.

use crate::text::bytes_equal;
use crate::text::texts;
use vstd::prelude::*;
use vstd::slice::slice_to_vec;

verus! {

/// One ref as the repository enumerates it: the commit it points at, and its
/// short name.
#[derive(Debug, PartialEq, Eq)]
pub struct RefEntry {
    pub target: Vec<u8>,
    pub name: String,
}

/// The names that point at one commit.
#[derive(Debug)]
struct RefGroup {
    target: Vec<u8>,
    names: Vec<String>,
}

/// The index itself: no commit has two groups.
#[derive(Debug)]
pub struct RefIndex {
    groups: Vec<RefGroup>,
}

/// The short names of the entries that point at `id`, in the order of the
/// entries.
pub open spec fn names_for(entries: Seq<RefEntry>, id: Seq<u8>) -> Seq<Seq<char>>
    decreases entries.len(),
{
    if entries.len() == 0 {
        Seq::empty()
    } else if entries.last().target@ == id {
        names_for(entries.drop_last(), id).push(entries.last().name@)
    } else {
        names_for(entries.drop_last(), id)
    }
}

/// The index that a list of entries makes: every commit that an entry points
/// at, with the names of its entries in their order.
pub open spec fn index_of(entries: Seq<RefEntry>) -> Map<Seq<u8>, Seq<Seq<char>>> {
    Map::new(
        |id: Seq<u8>| names_for(entries, id).len() > 0,
        |id: Seq<u8>| names_for(entries, id),
    )
}

/// The names that an index holds for a commit: none where it has no entry.
pub open spec fn names_in(index: Map<Seq<u8>, Seq<Seq<char>>>, id: Seq<u8>) -> Seq<Seq<char>> {
    if index.contains_key(id) {
        index[id]
    } else {
        Seq::empty()
    }
}

/// An index after the names of some commits were taken out of it, one
/// commit after the other.
pub open spec fn drained(index: Map<Seq<u8>, Seq<Seq<char>>>, visited: Seq<Seq<u8>>) -> Map<
    Seq<u8>,
    Seq<Seq<char>>,
>
    decreases visited.len(),
{
    if visited.len() == 0 {
        index
    } else {
        drained(index, visited.drop_last()).remove(visited.last())
    }
}

/// The names of a commit are reported once: what the index of a list of
/// refs still holds for a commit, after some commits were visited, is
/// nothing if the commit was among them, and otherwise the names of all
/// refs that point at it, in the order in which they were enumerated.
pub proof fn lemma_names_reported_once(
    entries: Seq<RefEntry>,
    visited: Seq<Seq<u8>>,
    id: Seq<u8>,
)
    ensures
        names_in(drained(index_of(entries), visited), id) == (if visited.contains(id) {
            Seq::<Seq<char>>::empty()
        } else {
            names_for(entries, id)
        }),
    decreases visited.len(),
{
    if visited.len() == 0 {
        assert(names_in(index_of(entries), id) =~= names_for(entries, id));
    } else {
        let before = visited.drop_last();
        lemma_names_reported_once(entries, before, id);
        if visited.last() != id {
            if visited.contains(id) {
                let k = choose|k: int| 0 <= k < visited.len() && visited[k] == id;
                assert(before[k] == id);
            }
            if before.contains(id) {
                let k = choose|k: int| 0 <= k < before.len() && before[k] == id;
                assert(visited[k] == id);
            }
        } else {
            assert(visited[visited.len() - 1] == id);
        }
    }
}

/// Every name held for a commit is the name of a ref that points at it.
pub proof fn lemma_names_point_at_commit(entries: Seq<RefEntry>, id: Seq<u8>, k: int)
    requires
        0 <= k < names_for(entries, id).len(),
    ensures
        exists|j: int|
            0 <= j < entries.len() && (#[trigger] entries[j]).target@ == id && entries[j].name@
                == names_for(entries, id)[k],
    decreases entries.len(),
{
    let before = entries.drop_last();
    if entries.last().target@ == id && k == names_for(before, id).len() {
        assert(entries[entries.len() - 1].name@ == names_for(entries, id)[k]);
    } else {
        lemma_names_point_at_commit(before, id, k);
        let j = choose|j: int|
            0 <= j < before.len() && (#[trigger] before[j]).target@ == id && before[j].name@
                == names_for(before, id)[k];
        assert(entries[j] == before[j]);
    }
}

/// The names of two refs that point at one commit are both held for it, in
/// the order in which the refs were enumerated.
pub proof fn lemma_names_keep_order(entries: Seq<RefEntry>, first: int, second: int)
    requires
        0 <= first < second < entries.len(),
        entries[first].target@ == entries[second].target@,
    ensures
        exists|a: int, b: int|
            {
                &&& 0 <= a < b < names_for(entries, entries[first].target@).len()
                &&& #[trigger] names_for(entries, entries[first].target@)[a]
                    == entries[first].name@
                &&& #[trigger] names_for(entries, entries[first].target@)[b]
                    == entries[second].name@
            },
    decreases entries.len(),
{
    let id = entries[first].target@;
    let before = entries.drop_last();
    let names = names_for(entries, id);
    if second == entries.len() - 1 {
        lemma_ref_is_named(before, first);
        let a = choose|a: int|
            0 <= a < names_for(before, id).len() && names_for(before, id)[a]
                == before[first].name@;
        let b = names.len() - 1;
        assert(names[a] == entries[first].name@);
        assert(names[b] == entries[second].name@);
    } else {
        lemma_names_keep_order(before, first, second);
        let (a, b) = choose|a: int, b: int|
            {
                &&& 0 <= a < b < names_for(before, id).len()
                &&& #[trigger] names_for(before, id)[a] == before[first].name@
                &&& #[trigger] names_for(before, id)[b] == before[second].name@
            };
        assert(names[a] == entries[first].name@);
        assert(names[b] == entries[second].name@);
    }
}

/// The name of every ref is held for the commit that the ref points at.
pub proof fn lemma_ref_is_named(entries: Seq<RefEntry>, j: int)
    requires
        0 <= j < entries.len(),
    ensures
        exists|k: int|
            0 <= k < names_for(entries, entries[j].target@).len() && #[trigger] names_for(
                entries,
                entries[j].target@,
            )[k] == entries[j].name@,
    decreases entries.len(),
{
    let id = entries[j].target@;
    let before = entries.drop_last();
    if j == entries.len() - 1 {
        let k = names_for(entries, id).len() - 1;
        assert(names_for(entries, id)[k] == entries[j].name@);
    } else {
        lemma_ref_is_named(before, j);
        let k = choose|k: int|
            0 <= k < names_for(before, id).len() && #[trigger] names_for(before, id)[k]
                == before[j].name@;
        assert(names_for(entries, id)[k] == entries[j].name@);
    }
}

/// The place of a commit's group, where it has one.
spec fn group_of(groups: Seq<RefGroup>, id: Seq<u8>) -> int {
    choose|i: int| 0 <= i < groups.len() && groups[i].target@ == id
}

/// No two groups are for the same commit.
spec fn distinct_targets(groups: Seq<RefGroup>) -> bool {
    forall|i: int, j: int|
        0 <= i < groups.len() && 0 <= j < groups.len() && i != j ==> groups[i].target@
            != groups[j].target@
}

/// The mapping that a list of groups stands for.
spec fn mapping_of(groups: Seq<RefGroup>) -> Map<Seq<u8>, Seq<Seq<char>>> {
    Map::new(
        |id: Seq<u8>| exists|i: int| 0 <= i < groups.len() && groups[i].target@ == id,
        |id: Seq<u8>| texts(groups[group_of(groups, id)].names@),
    )
}

/// A group is found in the mapping under its commit.
proof fn lemma_group_is_mapped(groups: Seq<RefGroup>, i: int)
    requires
        distinct_targets(groups),
        0 <= i < groups.len(),
    ensures
        mapping_of(groups).contains_key(groups[i].target@),
        mapping_of(groups)[groups[i].target@] == texts(groups[i].names@),
        group_of(groups, groups[i].target@) == i,
{
}

/// What is mapped comes from a group.
proof fn lemma_mapped_is_group(groups: Seq<RefGroup>, id: Seq<u8>)
    requires
        mapping_of(groups).contains_key(id),
    ensures
        0 <= group_of(groups, id) < groups.len(),
        groups[group_of(groups, id)].target@ == id,
{
}

impl View for RefIndex {
    type V = Map<Seq<u8>, Seq<Seq<char>>>;

    closed spec fn view(&self) -> Map<Seq<u8>, Seq<Seq<char>>> {
        mapping_of(self.groups@)
    }
}

impl RefIndex {
    /// The invariant of the index: one group at most for a commit.
    pub closed spec fn wf(&self) -> bool {
        distinct_targets(self.groups@)
    }

    /// The names held for a commit: none where the index has no entry.
    pub open spec fn names(&self, id: Seq<u8>) -> Seq<Seq<char>> {
        names_in(self@, id)
    }

    /// An index without entries.
    pub fn new() -> (index: RefIndex)
        ensures
            index.wf(),
            index@ == Map::<Seq<u8>, Seq<Seq<char>>>::empty(),
    {
        let index = RefIndex { groups: Vec::new() };
        assert(index@ =~= Map::<Seq<u8>, Seq<Seq<char>>>::empty());
        index
    }

    /// Finds the group of a commit.
    fn position(&self, id: &[u8]) -> (at: Option<usize>)
        ensures
            match at {
                Some(k) => k < self.groups@.len() && self.groups@[k as int].target@ == id@,
                None => forall|i: int|
                    0 <= i < self.groups@.len() ==> self.groups@[i].target@ != id@,
            },
    {
        let mut k: usize = 0;
        while k < self.groups.len()
            invariant
                0 <= k <= self.groups@.len(),
                forall|i: int| 0 <= i < k ==> self.groups@[i].target@ != id@,
            decreases self.groups@.len() - k,
        {
            if bytes_equal(self.groups[k].target.as_slice(), id) {
                return Some(k);
            }
            k += 1;
        }
        None
    }

    /// Appends a name to those held for a commit.
    pub fn add(&mut self, target: &[u8], name: &str)
        requires
            old(self).wf(),
        ensures
            final(self).wf(),
            final(self)@ == old(self)@.insert(target@, old(self).names(target@).push(name@)),
    {
        let ghost before = self.groups@;
        match self.position(target) {
            Some(k) => {
                let mut group = self.groups.remove(k);
                let ghost rest = self.groups@;
                group.names.push(name.to_owned());
                self.groups.push(group);
                proof {
                    let after = self.groups@;
                    lemma_group_is_mapped(before, k as int);
                    assert(texts(group.names@) =~= texts(before[k as int].names@).push(name@));
                    assert(distinct_targets(after)) by {
                        assert forall|i: int, j: int|
                            0 <= i < after.len() && 0 <= j < after.len() && i != j implies after[i].target@
                            != after[j].target@ by {
                            let oi = if i == after.len() - 1 {
                                k as int
                            } else if i < k {
                                i
                            } else {
                                i + 1
                            };
                            let oj = if j == after.len() - 1 {
                                k as int
                            } else if j < k {
                                j
                            } else {
                                j + 1
                            };
                            assert(after[i].target@ == before[oi].target@);
                            assert(after[j].target@ == before[oj].target@);
                        }
                    }
                    assert forall|id: Seq<u8>|
                        mapping_of(after).contains_key(id) == mapping_of(before).insert(
                            target@,
                            names_in(mapping_of(before), target@).push(name@),
                        ).contains_key(id) by {
                        if mapping_of(after).contains_key(id) {
                            lemma_mapped_is_group(after, id);
                            let i = group_of(after, id);
                            let oi = if i == after.len() - 1 {
                                k as int
                            } else if i < k {
                                i
                            } else {
                                i + 1
                            };
                            assert(after[i].target@ == before[oi].target@);
                            lemma_group_is_mapped(before, oi);
                        }
                        if mapping_of(before).contains_key(id) {
                            lemma_mapped_is_group(before, id);
                            let oi = group_of(before, id);
                            let i = if oi == k {
                                after.len() - 1
                            } else if oi < k {
                                oi
                            } else {
                                oi - 1
                            };
                            assert(after[i].target@ == before[oi].target@);
                            lemma_group_is_mapped(after, i);
                        }
                        if id == target@ {
                            lemma_group_is_mapped(after, after.len() - 1);
                        }
                    }
                    assert forall|id: Seq<u8>| mapping_of(after).contains_key(id) implies mapping_of(
                        after,
                    )[id] == mapping_of(before).insert(
                        target@,
                        names_in(mapping_of(before), target@).push(name@),
                    )[id] by {
                        lemma_mapped_is_group(after, id);
                        let i = group_of(after, id);
                        lemma_group_is_mapped(after, i);
                        if i == after.len() - 1 {
                        } else {
                            let oi = if i < k {
                                i
                            } else {
                                i + 1
                            };
                            assert(after[i] == before[oi]);
                            lemma_group_is_mapped(before, oi);
                        }
                    }
                    assert(mapping_of(after) =~= mapping_of(before).insert(
                        target@,
                        names_in(mapping_of(before), target@).push(name@),
                    ));
                }
            },
            None => {
                let mut names: Vec<String> = Vec::new();
                names.push(name.to_owned());
                let group = RefGroup { target: slice_to_vec(target), names };
                self.groups.push(group);
                proof {
                    let after = self.groups@;
                    assert(texts(group.names@) =~= Seq::<Seq<char>>::empty().push(name@));
                    assert(!mapping_of(before).contains_key(target@));
                    assert forall|id: Seq<u8>|
                        mapping_of(after).contains_key(id) == mapping_of(before).insert(
                            target@,
                            names_in(mapping_of(before), target@).push(name@),
                        ).contains_key(id) by {
                        if mapping_of(after).contains_key(id) {
                            lemma_mapped_is_group(after, id);
                            let i = group_of(after, id);
                            if i < before.len() {
                                assert(after[i] == before[i]);
                                lemma_group_is_mapped(before, i);
                            }
                        }
                        if mapping_of(before).contains_key(id) {
                            lemma_mapped_is_group(before, id);
                            let i = group_of(before, id);
                            assert(after[i] == before[i]);
                            lemma_group_is_mapped(after, i);
                        }
                        if id == target@ {
                            lemma_group_is_mapped(after, after.len() - 1);
                        }
                    }
                    assert forall|id: Seq<u8>| mapping_of(after).contains_key(id) implies mapping_of(
                        after,
                    )[id] == mapping_of(before).insert(
                        target@,
                        names_in(mapping_of(before), target@).push(name@),
                    )[id] by {
                        lemma_mapped_is_group(after, id);
                        let i = group_of(after, id);
                        lemma_group_is_mapped(after, i);
                        if i < before.len() {
                            assert(after[i] == before[i]);
                            lemma_group_is_mapped(before, i);
                        }
                    }
                    assert(mapping_of(after) =~= mapping_of(before).insert(
                        target@,
                        names_in(mapping_of(before), target@).push(name@),
                    ));
                }
            },
        }
    }

    /// Takes the names held for a commit out of the index: they are handed
    /// out once, and the commit has no entry afterwards.
    pub fn take(&mut self, id: &[u8]) -> (names: Vec<String>)
        requires
            old(self).wf(),
        ensures
            final(self).wf(),
            texts(names@) == old(self).names(id@),
            final(self)@ == old(self)@.remove(id@),
    {
        let ghost before = self.groups@;
        match self.position(id) {
            Some(k) => {
                let group = self.groups.remove(k);
                proof {
                    let after = self.groups@;
                    lemma_group_is_mapped(before, k as int);
                    assert forall|i: int| 0 <= i < after.len() implies after[i] == before[if i < k {
                        i
                    } else {
                        i + 1
                    }] by {}
                    assert forall|key: Seq<u8>|
                        mapping_of(after).contains_key(key) == mapping_of(before).remove(
                            id@,
                        ).contains_key(key) by {
                        if mapping_of(after).contains_key(key) {
                            lemma_mapped_is_group(after, key);
                            let i = group_of(after, key);
                            let oi = if i < k {
                                i
                            } else {
                                i + 1
                            };
                            assert(after[i] == before[oi]);
                            lemma_group_is_mapped(before, oi);
                        }
                        if mapping_of(before).contains_key(key) && key != id@ {
                            lemma_mapped_is_group(before, key);
                            let oi = group_of(before, key);
                            let i = if oi < k {
                                oi
                            } else {
                                oi - 1
                            };
                            assert(after[i] == before[oi]);
                        }
                    }
                    assert forall|key: Seq<u8>| mapping_of(after).contains_key(key) implies mapping_of(
                        after,
                    )[key] == mapping_of(before).remove(id@)[key] by {
                        lemma_mapped_is_group(after, key);
                        let i = group_of(after, key);
                        let oi = if i < k {
                            i
                        } else {
                            i + 1
                        };
                        assert(after[i] == before[oi]);
                        lemma_group_is_mapped(after, i);
                        lemma_group_is_mapped(before, oi);
                    }
                    assert(mapping_of(after) =~= mapping_of(before).remove(id@));
                }
                group.names
            },
            None => {
                let names: Vec<String> = Vec::new();
                proof {
                    assert(!mapping_of(before).contains_key(id@));
                    assert(mapping_of(before) =~= mapping_of(before).remove(id@));
                    assert(texts(names@) =~= Seq::<Seq<char>>::empty());
                }
                names
            },
        }
    }

    /// Makes the index of a list of refs, in their order.
    pub fn build(entries: &Vec<RefEntry>) -> (index: RefIndex)
        ensures
            index.wf(),
            index@ == index_of(entries@),
    {
        let mut index = RefIndex::new();
        let mut i: usize = 0;
        assert(index@ =~= index_of(entries@.subrange(0, 0)));
        while i < entries.len()
            invariant
                0 <= i <= entries.len(),
                index.wf(),
                index@ == index_of(entries@.subrange(0, i as int)),
            decreases entries.len() - i,
        {
            let ghost before = index@;
            index.add(entries[i].target.as_slice(), entries[i].name.as_str());
            proof {
                let upto = entries@.subrange(0, i + 1);
                assert(upto.drop_last() =~= entries@.subrange(0, i as int));
                assert(upto.last() == entries@[i as int]);
                let prefix = entries@.subrange(0, i as int);
                let target = entries@[i as int].target@;
                let name = entries@[i as int].name@;
                assert forall|id: Seq<u8>|
                    names_for(upto, id) == (if id == target {
                        names_for(prefix, id).push(name)
                    } else {
                        names_for(prefix, id)
                    }) by {}
                assert(names_in(before, target) =~= names_for(prefix, target));
                assert(index@ =~= index_of(upto));
            }
            i += 1;
        }
        assert(entries@.subrange(0, i as int) =~= entries@);
        index
    }
}

} // verus!
