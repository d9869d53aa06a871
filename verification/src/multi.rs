use vstd::prelude::*;

use crate::index::find_by_key;
use crate::index::keys_of;
use crate::index::distinct;
use crate::index::fkeys_of;
use crate::index::BrokenForeignKeyError;
use crate::index::ForeignKey;
use crate::index::PrimaryIndex;
use crate::index::PrimaryKey;
use crate::keys::KeyEq;

verus! {

/// Within a foreign-key group, two records share a primary key; construction
/// of the grouped index failed on the later of the two.
#[derive(Debug)]
pub struct DuplicatePrimaryKeyError<'a, PK, T> {
    pub key: &'a PK,
    pub new_record: &'a T,
    pub old_record: &'a T,
}

/// Either failure of the grouped, foreign-key-checked index build.
#[derive(Debug)]
pub enum MultiIndexError<'a, 'n, K, PK, T> {
    BrokenForeignKey(BrokenForeignKeyError<'a, 'n, K>),
    DuplicatePrimaryKey(DuplicatePrimaryKeyError<'a, PK, T>),
}

/// One group of the two-level index: a foreign key together with the
/// uniqueness-checked index of the records that carry it.
#[derive(Debug)]
pub struct GroupEntry<'a, K, PK, T> {
    pub key: &'a K,
    pub members: PrimaryIndex<'a, PK, T>,
}

impl<'a, K: KeyEq, PK: KeyEq, T: PrimaryKey<PK> + ForeignKey<K>> GroupEntry<'a, K, PK, T> {
    /// Invariant of one group: a nonempty well-formed member index whose
    /// records all carry this group's foreign key.
    pub open spec fn wf(self) -> bool {
        &&& self.members.wf()
        &&& self.members.records@.len() > 0
        &&& forall|l: int|
            0 <= l < self.members.records@.len() ==> (*#[trigger] self.members.records@[l]).foreign_key_spec()
                == self.key@
    }
}

/// The group keys, in order of first appearance.
pub open spec fn group_keys_seq<'a, K: KeyEq, PK: KeyEq, T: PrimaryKey<PK> + ForeignKey<K>>(
    gs: Seq<GroupEntry<'a, K, PK, T>>,
) -> Seq<K::V> {
    gs.map_values(|g: GroupEntry<'a, K, PK, T>| g.key@)
}

/// Invariant of the group list: pairwise distinct group keys, each group
/// well formed.
pub open spec fn groups_wf<'a, K: KeyEq, PK: KeyEq, T: PrimaryKey<PK> + ForeignKey<K>>(
    gs: Seq<GroupEntry<'a, K, PK, T>>,
) -> bool {
    &&& distinct(group_keys_seq(gs))
    &&& forall|g: int| 0 <= g < gs.len() ==> (#[trigger] gs[g]).wf()
}

/// A two-level lookup structure: foreign key to the group of records that
/// reference it, each group addressed by primary key. Holds references into
/// the caller's list, never copies.
#[derive(Debug)]
pub struct ForeignMultiIndex<'a, K, PK, T> {
    pub groups: Vec<GroupEntry<'a, K, PK, T>>,
}

impl<'a, K: KeyEq, PK: KeyEq, T: PrimaryKey<PK> + ForeignKey<K>> View for ForeignMultiIndex<
    'a,
    K,
    PK,
    T,
> {
    type V = Map<K::V, Map<PK::V, T>>;

    open spec fn view(&self) -> Map<K::V, Map<PK::V, T>> {
        Map::new(
            |k: K::V| group_keys_seq(self.groups@).contains(k),
            |k: K::V| self.groups@[self.group_at(k)].members@,
        )
    }
}

impl<'a, K: KeyEq, PK: KeyEq, T: PrimaryKey<PK> + ForeignKey<K>> ForeignMultiIndex<
    'a,
    K,
    PK,
    T,
> {
    /// Position of the group keyed `k` (unique when well formed).
    pub open spec fn group_at(self, k: K::V) -> int {
        choose|g: int| 0 <= g < self.groups@.len() && group_keys_seq(self.groups@)[g] == k
    }

    /// Invariant of the whole structure.
    pub open spec fn wf(self) -> bool {
        groups_wf(self.groups@)
    }

    /// Looks a foreign key up, returning the index of its group of records.
    pub fn get(&self, k: &K) -> (r: Option<&PrimaryIndex<'a, PK, T>>)
        requires
            self.wf(),
        ensures
            match r {
                Some(m) => self@.contains_key(k@) && m@ == self@[k@] && m.wf(),
                None => !self@.contains_key(k@),
            },
    {
        match find_group(&self.groups, k) {
            Some(g) => {
                proof {
                    let p = self.group_at(k@);
                    assert(group_keys_seq(self.groups@)[g as int] == k@);
                    assert(group_keys_seq(self.groups@).contains(k@));
                    assert(0 <= p < self.groups@.len() && group_keys_seq(self.groups@)[p]
                        == k@);
                    assert(p == g as int);
                }
                Some(&self.groups[g].members)
            },
            None => {
                proof {
                    assert(forall|g: int|
                        0 <= g < self.groups@.len() ==> group_keys_seq(self.groups@)[g] != k@);
                }
                None
            },
        }
    }

    /// True exactly when some indexed record references the foreign key.
    pub fn contains(&self, k: &K) -> (r: bool)
        requires
            self.wf(),
        ensures
            r == self@.contains_key(k@),
    {
        self.get(k).is_some()
    }
}

/// Position of the first group keyed `k`.
fn find_group<'a, K: KeyEq, PK: KeyEq, T: PrimaryKey<PK> + ForeignKey<K>>(
    groups: &Vec<GroupEntry<'a, K, PK, T>>,
    k: &K,
) -> (r: Option<usize>)
    ensures
        match r {
            Some(g) => {
                &&& g < groups@.len()
                &&& group_keys_seq(groups@)[g as int] == k@
                &&& forall|j: int| 0 <= j < g ==> group_keys_seq(groups@)[j] != k@
            },
            None => forall|j: int|
                0 <= j < groups@.len() ==> group_keys_seq(groups@)[j] != k@,
        },
{
    let n = groups.len();
    let mut i: usize = 0;
    while i < n
        invariant
            i <= n,
            n == groups@.len(),
            forall|j: int| 0 <= j < i ==> group_keys_seq(groups@)[j] != k@,
        decreases n - i,
    {
        if groups[i].key.key_eq(k) {
            return Some(i);
        }
        i += 1;
    }
    None
}

/// The record at position `i` passes both checks of the grouped build: its
/// foreign key resolves, and no earlier record shares both its foreign key
/// and its primary key.
pub open spec fn multi_record_ok<K: KeyEq, PK: KeyEq, T: PrimaryKey<PK> + ForeignKey<K>>(
    items: Seq<T>,
    fdom: Set<K::V>,
    i: int,
) -> bool {
    &&& fdom.contains(fkeys_of::<K, T>(items)[i])
    &&& forall|j: int|
        0 <= j < i ==> !(fkeys_of::<K, T>(items)[j] == fkeys_of::<K, T>(items)[i]
            && keys_of::<PK, T>(items)[j] == keys_of::<PK, T>(items)[i])
}

/// The position of the record carrying foreign key `k` and primary key `p`
/// (unique when every record passes `multi_record_ok`).
pub open spec fn group_member_at<K: KeyEq, PK: KeyEq, T: PrimaryKey<PK> + ForeignKey<K>>(
    items: Seq<T>,
    k: K::V,
    p: PK::V,
) -> int {
    choose|i: int|
        0 <= i < items.len() && fkeys_of::<K, T>(items)[i] == k && keys_of::<PK, T>(items)[i]
            == p
}

/// The group a foreign key describes: each primary key carried by a record
/// referencing `k` maps to that record.
pub open spec fn group_of<K: KeyEq, PK: KeyEq, T: PrimaryKey<PK> + ForeignKey<K>>(
    items: Seq<T>,
    k: K::V,
) -> Map<PK::V, T> {
    Map::new(
        |p: PK::V|
            exists|i: int|
                0 <= i < items.len() && fkeys_of::<K, T>(items)[i] == k && #[trigger] keys_of::<
                    PK,
                    T,
                >(items)[i] == p,
        |p: PK::V| items[group_member_at::<K, PK, T>(items, k, p)],
    )
}

/// The two-level lookup table a record list describes.
pub open spec fn multi_map<K: KeyEq, PK: KeyEq, T: PrimaryKey<PK> + ForeignKey<K>>(
    items: Seq<T>,
) -> Map<K::V, Map<PK::V, T>> {
    Map::new(
        |k: K::V| fkeys_of::<K, T>(items).contains(k),
        |k: K::V| group_of::<K, PK, T>(items, k),
    )
}


/// Every record stored in some group is one of the first `n` input records.
pub open spec fn groups_cover<'a, K: KeyEq, PK: KeyEq, T: PrimaryKey<PK> + ForeignKey<K>>(
    gs: Seq<GroupEntry<'a, K, PK, T>>,
    items: Seq<T>,
    n: int,
) -> bool {
    forall|g: int, l: int|
        #![trigger gs[g].members.records@[l]]
        0 <= g < gs.len() && 0 <= l < gs[g].members.records@.len() ==> exists|i: int|
            0 <= i < n && *(gs[g].members.records@[l]) == items[i]
}

/// Each of the first `n` input records is stored in some group.
pub open spec fn groups_complete<'a, K: KeyEq, PK: KeyEq, T: PrimaryKey<PK> + ForeignKey<K>>(
    gs: Seq<GroupEntry<'a, K, PK, T>>,
    items: Seq<T>,
    n: int,
) -> bool {
    forall|i: int|
        0 <= i < n ==> exists|g: int, l: int|
            {
                &&& 0 <= g < gs.len()
                &&& 0 <= l < gs[g].members.records@.len()
                &&& *gs[g].members.records@[l] == #[trigger] items[i]
            }
}

/// What a failed grouped build reports: scanning in input order, every
/// record before `i` passed both checks, the record at `i` failed one, and
/// the error names the check it failed first — foreign-key resolution before
/// in-group uniqueness.
pub open spec fn mindex_error_spec<'a, 'n, K: KeyEq, PK: KeyEq, T: PrimaryKey<PK> + ForeignKey<
    K,
>>(items: Seq<T>, fdom: Set<K::V>, relation: Seq<char>, e: MultiIndexError<'a, 'n, K, PK, T>) -> bool {
    exists|i: int|
        #![trigger fkeys_of::<K, T>(items)[i]]
        {
            &&& 0 <= i < items.len()
            &&& forall|l: int| 0 <= l < i ==> #[trigger] multi_record_ok(items, fdom, l)
            &&& match e {
                MultiIndexError::BrokenForeignKey(b) => {
                    &&& !fdom.contains(fkeys_of::<K, T>(items)[i])
                    &&& b.key@ == fkeys_of::<K, T>(items)[i]
                    &&& b.relation_name@ == relation
                },
                MultiIndexError::DuplicatePrimaryKey(d) => {
                    &&& fdom.contains(fkeys_of::<K, T>(items)[i])
                    &&& d.key@ == keys_of::<PK, T>(items)[i]
                    &&& *d.new_record == items[i]
                    &&& exists|j: int|
                        0 <= j < i && fkeys_of::<K, T>(items)[j] == fkeys_of::<K, T>(items)[i]
                            && keys_of::<PK, T>(items)[j] == keys_of::<PK, T>(items)[i]
                            && *d.old_record == items[j]
                },
            }
        }
}

/// Builds the grouped index over the record list: a single pass in input
/// order that checks each record's foreign key against the referenced index
/// first and then its primary key for uniqueness within its group, failing
/// fast on the first violation.
pub fn mindex_by_foreign<'a, 'n, K: KeyEq, PK: KeyEq, T: PrimaryKey<PK> + ForeignKey<K>, T2: PrimaryKey<
    K,
>>(items: &'a Vec<T>, foreign: &PrimaryIndex<'_, K, T2>, keyname: &'n str) -> (r: Result<
    ForeignMultiIndex<'a, K, PK, T>,
    MultiIndexError<'a, 'n, K, PK, T>,
>)
    requires
        foreign.wf(),
    ensures
        r is Ok <==> (forall|i: int|
            0 <= i < items@.len() ==> #[trigger] multi_record_ok(items@, foreign@.dom(), i)),
        r matches Ok(m) ==> m.wf() && m@ == multi_map::<K, PK, T>(items@),
        r matches Err(e) ==> mindex_error_spec(items@, foreign@.dom(), keyname@, e),
{
    let ghost fdom = foreign@.dom();
    let n = items.len();
    let mut groups: Vec<GroupEntry<'a, K, PK, T>> = Vec::new();
    let mut idx: usize = 0;
    while idx < n
        invariant
            idx <= n,
            n == items@.len(),
            foreign.wf(),
            fdom == foreign@.dom(),
            groups_wf(groups@),
            groups_cover(groups@, items@, idx as int),
            groups_complete(groups@, items@, idx as int),
            forall|i: int| 0 <= i < idx ==> #[trigger] multi_record_ok(items@, fdom, i),
        decreases n - idx,
    {
        let ghost ii = idx as int;
        let item: &T = &items[idx];
        proof {
            assert(fkeys_of::<K, T>(items@)[ii] == item.foreign_key_spec());
            assert(keys_of::<PK, T>(items@)[ii] == item.primary_key_spec());
        }
        let fk: &K = item.foreign_key();
        if !foreign.contains(fk) {
            proof {
                assert(!multi_record_ok(items@, fdom, ii));
            }
            return Err(
                MultiIndexError::BrokenForeignKey(
                    BrokenForeignKeyError { key: fk, relation_name: keyname },
                ),
            );
        }
        match find_group(&groups, fk) {
            Some(gi) => {
                let hit = find_by_key::<PK, T>(&groups[gi].members.records, item.primary_key());
                match hit {
                    Some(l) => {
                        let old_rec: &T = groups[gi].members.records[l];
                        proof {
                            let gg = gi as int;
                            let ll = l as int;
                            assert(exists|i: int|
                                0 <= i < ii && *(groups@[gg].members.records@[ll]) == items@[i]);
                            let j = choose|i: int|
                                0 <= i < ii && *(groups@[gg].members.records@[ll]) == items@[i];
                            assert(*old_rec == items@[j]);
                            assert((*groups@[gg].members.records@[ll]).foreign_key_spec()
                                == groups@[gg].key@);
                            assert(fkeys_of::<K, T>(items@)[j] == items@[j].foreign_key_spec());
                            assert(keys_of::<PK, T>(items@)[j] == items@[j].primary_key_spec());
                            assert(fkeys_of::<K, T>(items@)[j] == fkeys_of::<K, T>(items@)[ii]);
                            assert(keys_of::<PK, T>(items@)[j] == keys_of::<PK, T>(items@)[ii]);
                            assert(!multi_record_ok(items@, fdom, ii));
                        }
                        return Err(
                            MultiIndexError::DuplicatePrimaryKey(
                                DuplicatePrimaryKeyError {
                                    key: item.primary_key(),
                                    new_record: item,
                                    old_record: old_rec,
                                },
                            ),
                        );
                    },
                    None => {
                        let ghost old_groups = groups@;
                        let ghost gg = gi as int;
                        groups[gi].members.records.push(item);
                        proof {
                            lemma_group_update(old_groups, groups@, items@, fdom, gg, ii);
                        }
                    },
                }
            },
            None => {
                let mut v: Vec<&'a T> = Vec::new();
                v.push(item);
                let ghost old_groups = groups@;
                groups.push(
                    GroupEntry {
                        key: fk,
                        members: PrimaryIndex { records: v, key_marker: core::marker::PhantomData },
                    },
                );
                proof {
                    lemma_group_fresh(old_groups, groups@, items@, fdom, ii);
                }
            },
        }
        idx += 1;
    }
    let m = ForeignMultiIndex { groups };
    proof {
        lemma_built_map(m, items@, fdom);
    }
    Ok(m)
}

/// Two positions carrying the same foreign key and the same primary key are
/// one position, once every record has passed the build's checks.
proof fn lemma_pair_unique<K: KeyEq, PK: KeyEq, T: PrimaryKey<PK> + ForeignKey<K>>(
    items: Seq<T>,
    fdom: Set<K::V>,
    i1: int,
    i2: int,
)
    requires
        forall|i: int| 0 <= i < items.len() ==> #[trigger] multi_record_ok(items, fdom, i),
        0 <= i1 < items.len(),
        0 <= i2 < items.len(),
        fkeys_of::<K, T>(items)[i1] == fkeys_of::<K, T>(items)[i2],
        keys_of::<PK, T>(items)[i1] == keys_of::<PK, T>(items)[i2],
    ensures
        i1 == i2,
{
    if i1 < i2 {
        assert(multi_record_ok(items, fdom, i2));
        assert(false);
    } else if i2 < i1 {
        assert(multi_record_ok(items, fdom, i1));
        assert(false);
    }
}

/// Shape of the group list after appending one record to the group at `gg`.
spec fn updated_shape<'a, K: KeyEq, PK: KeyEq, T: PrimaryKey<PK> + ForeignKey<K>>(
    old_gs: Seq<GroupEntry<'a, K, PK, T>>,
    new_gs: Seq<GroupEntry<'a, K, PK, T>>,
    items: Seq<T>,
    gg: int,
    ii: int,
) -> bool {
    &&& 0 <= gg < old_gs.len()
    &&& 0 <= ii < items.len()
    &&& new_gs.len() == old_gs.len()
    &&& (forall|g: int| 0 <= g < new_gs.len() && g != gg ==> new_gs[g] == #[trigger] old_gs[g])
    &&& new_gs[gg].key == old_gs[gg].key
    &&& new_gs[gg].members.records@.len() == old_gs[gg].members.records@.len() + 1
    &&& (forall|l: int|
        0 <= l < old_gs[gg].members.records@.len() ==> #[trigger] new_gs[gg].members.records@[l]
            == old_gs[gg].members.records@[l])
    &&& *new_gs[gg].members.records@[old_gs[gg].members.records@.len() as int] == items[ii]
}

/// Shape of the group list after opening a new group for the record at `ii`.
spec fn fresh_shape<'a, K: KeyEq, PK: KeyEq, T: PrimaryKey<PK> + ForeignKey<K>>(
    old_gs: Seq<GroupEntry<'a, K, PK, T>>,
    new_gs: Seq<GroupEntry<'a, K, PK, T>>,
    items: Seq<T>,
    ii: int,
) -> bool {
    &&& 0 <= ii < items.len()
    &&& new_gs.len() == old_gs.len() + 1
    &&& (forall|g: int| 0 <= g < old_gs.len() ==> #[trigger] new_gs[g] == old_gs[g])
    &&& new_gs[old_gs.len() as int].key@ == fkeys_of::<K, T>(items)[ii]
    &&& new_gs[old_gs.len() as int].members.records@.len() == 1
    &&& *new_gs[old_gs.len() as int].members.records@[0] == items[ii]
}

proof fn lemma_update_wf<'a, K: KeyEq, PK: KeyEq, T: PrimaryKey<PK> + ForeignKey<K>>(
    old_gs: Seq<GroupEntry<'a, K, PK, T>>,
    new_gs: Seq<GroupEntry<'a, K, PK, T>>,
    items: Seq<T>,
    gg: int,
    ii: int,
)
    requires
        groups_wf(old_gs),
        updated_shape(old_gs, new_gs, items, gg, ii),
        group_keys_seq(old_gs)[gg] == fkeys_of::<K, T>(items)[ii],
        forall|l: int|
            0 <= l < old_gs[gg].members.records@.len() ==> (*#[trigger] old_gs[gg].members.records@[l]).primary_key_spec()
                != keys_of::<PK, T>(items)[ii],
    ensures
        groups_wf(new_gs),
{
    let old_rs = old_gs[gg].members.records@;
    let new_rs = new_gs[gg].members.records@;
    let m = old_rs.len() as int;
    assert(group_keys_seq(new_gs) =~= group_keys_seq(old_gs)) by {
        assert forall|g: int| 0 <= g < new_gs.len() implies #[trigger] group_keys_seq(new_gs)[g]
            == group_keys_seq(old_gs)[g] by {
            if g != gg {
                assert(new_gs[g] == old_gs[g]);
            } else {
                assert(new_gs[gg].key == old_gs[gg].key);
            }
        }
    }
    assert(new_gs[gg].wf()) by {
        assert(old_gs[gg].wf());
        let oks = old_gs[gg].members.key_seq();
        let nks = new_gs[gg].members.key_seq();
        assert(nks.len() == m + 1);
        assert forall|l: int| 0 <= l < m implies #[trigger] nks[l] == oks[l] by {
            assert(new_rs[l] == old_rs[l]);
        }
        assert(new_gs[gg].members.records_seq()[m] == items[ii]);
        assert(nks[m] == keys_of::<PK, T>(items)[ii]);
        assert forall|a: int, b: int|
            #![trigger nks[a], nks[b]]
            0 <= a < b < m + 1 implies nks[a] != nks[b] by {
            if b < m {
                assert(oks[a] != oks[b]);
            } else {
                assert((*old_rs[a]).primary_key_spec() != keys_of::<PK, T>(items)[ii]);
                assert(oks[a] == (*old_rs[a]).primary_key_spec());
                assert(nks[a] == oks[a]);
            }
        }
        assert forall|l: int| 0 <= l < new_rs.len() implies (*#[trigger] new_rs[l]).foreign_key_spec()
            == new_gs[gg].key@ by {
            if l < m {
                assert(new_rs[l] == old_rs[l]);
                assert((*old_rs[l]).foreign_key_spec() == old_gs[gg].key@);
            } else {
                assert(*new_rs[l] == items[ii]);
                assert(items[ii].foreign_key_spec() == fkeys_of::<K, T>(items)[ii]);
                assert(old_gs[gg].key@ == group_keys_seq(old_gs)[gg]);
            }
        }
    }
    assert forall|g: int| 0 <= g < new_gs.len() implies (#[trigger] new_gs[g]).wf() by {
        if g != gg {
            assert(new_gs[g] == old_gs[g]);
            assert(old_gs[g].wf());
        }
    }
}

proof fn lemma_update_cover<'a, K: KeyEq, PK: KeyEq, T: PrimaryKey<PK> + ForeignKey<K>>(
    old_gs: Seq<GroupEntry<'a, K, PK, T>>,
    new_gs: Seq<GroupEntry<'a, K, PK, T>>,
    items: Seq<T>,
    gg: int,
    ii: int,
)
    requires
        updated_shape(old_gs, new_gs, items, gg, ii),
        groups_cover(old_gs, items, ii),
    ensures
        groups_cover(new_gs, items, ii + 1),
{
    let m = old_gs[gg].members.records@.len() as int;
    assert forall|g: int, l: int|
        #![trigger new_gs[g].members.records@[l]]
        0 <= g < new_gs.len() && 0 <= l < new_gs[g].members.records@.len() implies exists|i: int|
        0 <= i < ii + 1 && *(new_gs[g].members.records@[l]) == items[i] by {
        if g == gg && l == m {
            assert(0 <= ii < ii + 1 && *(new_gs[g].members.records@[l]) == items[ii]);
        } else {
            if g == gg {
                assert(new_gs[g].members.records@[l] == old_gs[g].members.records@[l]);
            } else {
                assert(new_gs[g] == old_gs[g]);
            }
            assert(0 <= l < old_gs[g].members.records@.len());
            // naming the stored record lets the coverage fact fire for (g, l)
            let stored = old_gs[g].members.records@[l];
            assert(exists|i: int| 0 <= i < ii && *stored == items[i]);
            let i0 = choose|i: int|
                0 <= i < ii && *(old_gs[g].members.records@[l]) == items[i];
            assert(0 <= i0 < ii + 1 && *(new_gs[g].members.records@[l]) == items[i0]);
        }
    }
}

proof fn lemma_update_complete<'a, K: KeyEq, PK: KeyEq, T: PrimaryKey<PK> + ForeignKey<K>>(
    old_gs: Seq<GroupEntry<'a, K, PK, T>>,
    new_gs: Seq<GroupEntry<'a, K, PK, T>>,
    items: Seq<T>,
    gg: int,
    ii: int,
)
    requires
        updated_shape(old_gs, new_gs, items, gg, ii),
        groups_complete(old_gs, items, ii),
    ensures
        groups_complete(new_gs, items, ii + 1),
{
    let m = old_gs[gg].members.records@.len() as int;
    assert forall|i: int| 0 <= i < ii + 1 implies exists|g: int, l: int|
        {
            &&& 0 <= g < new_gs.len()
            &&& 0 <= l < new_gs[g].members.records@.len()
            &&& *new_gs[g].members.records@[l] == #[trigger] items[i]
        } by {
        if i == ii {
            assert(0 <= gg < new_gs.len() && 0 <= m < new_gs[gg].members.records@.len()
                && *new_gs[gg].members.records@[m] == items[ii]);
        } else {
            let (g2, l2) = choose|g: int, l: int|
                {
                    &&& 0 <= g < old_gs.len()
                    &&& 0 <= l < old_gs[g].members.records@.len()
                    &&& *old_gs[g].members.records@[l] == items[i]
                };
            if g2 == gg {
                assert(new_gs[gg].members.records@[l2] == old_gs[gg].members.records@[l2]);
                assert(0 <= gg < new_gs.len() && 0 <= l2 < new_gs[gg].members.records@.len()
                    && *new_gs[gg].members.records@[l2] == items[i]);
            } else {
                assert(new_gs[g2] == old_gs[g2]);
                assert(0 <= g2 < new_gs.len() && 0 <= l2 < new_gs[g2].members.records@.len()
                    && *new_gs[g2].members.records@[l2] == items[i]);
            }
        }
    }
}

proof fn lemma_update_ok<'a, K: KeyEq, PK: KeyEq, T: PrimaryKey<PK> + ForeignKey<K>>(
    old_gs: Seq<GroupEntry<'a, K, PK, T>>,
    items: Seq<T>,
    fdom: Set<K::V>,
    gg: int,
    ii: int,
)
    requires
        groups_wf(old_gs),
        groups_complete(old_gs, items, ii),
        0 <= gg < old_gs.len(),
        0 <= ii < items.len(),
        group_keys_seq(old_gs)[gg] == fkeys_of::<K, T>(items)[ii],
        forall|l: int|
            0 <= l < old_gs[gg].members.records@.len() ==> (*#[trigger] old_gs[gg].members.records@[l]).primary_key_spec()
                != keys_of::<PK, T>(items)[ii],
        fdom.contains(fkeys_of::<K, T>(items)[ii]),
    ensures
        multi_record_ok(items, fdom, ii),
{
    assert forall|j: int| 0 <= j < ii implies !(fkeys_of::<K, T>(items)[j] == fkeys_of::<K, T>(
        items,
    )[ii] && keys_of::<PK, T>(items)[j] == #[trigger] keys_of::<PK, T>(items)[ii]) by {
        if fkeys_of::<K, T>(items)[j] == fkeys_of::<K, T>(items)[ii] && keys_of::<PK, T>(
            items,
        )[j] == keys_of::<PK, T>(items)[ii] {
            let (g2, l2) = choose|g: int, l: int|
                {
                    &&& 0 <= g < old_gs.len()
                    &&& 0 <= l < old_gs[g].members.records@.len()
                    &&& *old_gs[g].members.records@[l] == items[j]
                };
            assert(old_gs[g2].wf());
            assert((*old_gs[g2].members.records@[l2]).foreign_key_spec() == old_gs[g2].key@);
            assert(items[j].foreign_key_spec() == fkeys_of::<K, T>(items)[j]);
            assert(group_keys_seq(old_gs)[g2] == old_gs[g2].key@);
            assert(group_keys_seq(old_gs)[g2] == fkeys_of::<K, T>(items)[ii]);
            if g2 != gg {
                if g2 < gg {
                    assert(group_keys_seq(old_gs)[g2] != group_keys_seq(old_gs)[gg]);
                } else {
                    assert(group_keys_seq(old_gs)[gg] != group_keys_seq(old_gs)[g2]);
                }
                assert(false);
            }
            assert((*old_gs[gg].members.records@[l2]).primary_key_spec()
                == items[j].primary_key_spec());
            assert(items[j].primary_key_spec() == keys_of::<PK, T>(items)[j]);
            assert(false);
        }
    }
}

/// Appending a record to the group already keyed by its foreign key keeps
/// every build invariant, provided its primary key is new to that group.
proof fn lemma_group_update<'a, K: KeyEq, PK: KeyEq, T: PrimaryKey<PK> + ForeignKey<K>>(
    old_gs: Seq<GroupEntry<'a, K, PK, T>>,
    new_gs: Seq<GroupEntry<'a, K, PK, T>>,
    items: Seq<T>,
    fdom: Set<K::V>,
    gg: int,
    ii: int,
)
    requires
        0 <= ii < items.len(),
        groups_wf(old_gs),
        groups_cover(old_gs, items, ii),
        groups_complete(old_gs, items, ii),
        forall|i: int| 0 <= i < ii ==> #[trigger] multi_record_ok(items, fdom, i),
        fdom.contains(fkeys_of::<K, T>(items)[ii]),
        0 <= gg < old_gs.len(),
        group_keys_seq(old_gs)[gg] == fkeys_of::<K, T>(items)[ii],
        forall|l: int|
            0 <= l < old_gs[gg].members.records@.len() ==> (*#[trigger] old_gs[gg].members.records@[l]).primary_key_spec()
                != keys_of::<PK, T>(items)[ii],
        updated_shape(old_gs, new_gs, items, gg, ii),
    ensures
        groups_wf(new_gs),
        groups_cover(new_gs, items, ii + 1),
        groups_complete(new_gs, items, ii + 1),
        forall|i: int| 0 <= i < ii + 1 ==> #[trigger] multi_record_ok(items, fdom, i),
{
    lemma_update_wf(old_gs, new_gs, items, gg, ii);
    lemma_update_cover(old_gs, new_gs, items, gg, ii);
    lemma_update_complete(old_gs, new_gs, items, gg, ii);
    lemma_update_ok(old_gs, items, fdom, gg, ii);
    assert forall|i: int| 0 <= i < ii + 1 implies #[trigger] multi_record_ok(items, fdom, i) by {
        if i < ii {
            assert(multi_record_ok(items, fdom, i));
        }
    }
}

proof fn lemma_fresh_wf<'a, K: KeyEq, PK: KeyEq, T: PrimaryKey<PK> + ForeignKey<K>>(
    old_gs: Seq<GroupEntry<'a, K, PK, T>>,
    new_gs: Seq<GroupEntry<'a, K, PK, T>>,
    items: Seq<T>,
    ii: int,
)
    requires
        groups_wf(old_gs),
        fresh_shape(old_gs, new_gs, items, ii),
        forall|g: int| 0 <= g < old_gs.len() ==> #[trigger] group_keys_seq(old_gs)[g]
            != fkeys_of::<K, T>(items)[ii],
    ensures
        groups_wf(new_gs),
{
    let gn = old_gs.len() as int;
    assert forall|g: int| 0 <= g < gn implies #[trigger] group_keys_seq(new_gs)[g]
        == group_keys_seq(old_gs)[g] by {
        assert(new_gs[g] == old_gs[g]);
    }
    assert(group_keys_seq(new_gs)[gn] == fkeys_of::<K, T>(items)[ii]);
    assert forall|a: int, b: int|
        #![trigger group_keys_seq(new_gs)[a], group_keys_seq(new_gs)[b]]
        0 <= a < b < gn + 1 implies group_keys_seq(new_gs)[a] != group_keys_seq(new_gs)[b] by {
        if b < gn {
            assert(group_keys_seq(old_gs)[a] != group_keys_seq(old_gs)[b]);
        } else {
            assert(group_keys_seq(old_gs)[a] != fkeys_of::<K, T>(items)[ii]);
        }
    }
    assert(new_gs[gn].wf()) by {
        let nks = new_gs[gn].members.key_seq();
        assert(nks.len() == 1);
        assert(new_gs[gn].members.records_seq()[0] == items[ii]);
        assert forall|l: int| 0 <= l < 1 implies (*#[trigger] new_gs[gn].members.records@[l]).foreign_key_spec()
            == new_gs[gn].key@ by {
            assert(*new_gs[gn].members.records@[0] == items[ii]);
            assert(items[ii].foreign_key_spec() == fkeys_of::<K, T>(items)[ii]);
        }
    }
    assert forall|g: int| 0 <= g < new_gs.len() implies (#[trigger] new_gs[g]).wf() by {
        if g < gn {
            assert(new_gs[g] == old_gs[g]);
            assert(old_gs[g].wf());
        }
    }
}

proof fn lemma_fresh_cover_complete<'a, K: KeyEq, PK: KeyEq, T: PrimaryKey<PK> + ForeignKey<K>>(
    old_gs: Seq<GroupEntry<'a, K, PK, T>>,
    new_gs: Seq<GroupEntry<'a, K, PK, T>>,
    items: Seq<T>,
    ii: int,
)
    requires
        fresh_shape(old_gs, new_gs, items, ii),
        groups_cover(old_gs, items, ii),
        groups_complete(old_gs, items, ii),
    ensures
        groups_cover(new_gs, items, ii + 1),
        groups_complete(new_gs, items, ii + 1),
{
    let gn = old_gs.len() as int;
    assert forall|g: int, l: int|
        #![trigger new_gs[g].members.records@[l]]
        0 <= g < new_gs.len() && 0 <= l < new_gs[g].members.records@.len() implies exists|i: int|
        0 <= i < ii + 1 && *(new_gs[g].members.records@[l]) == items[i] by {
        if g == gn {
            assert(l == 0);
            assert(0 <= ii < ii + 1 && *(new_gs[g].members.records@[l]) == items[ii]);
        } else {
            assert(new_gs[g] == old_gs[g]);
            assert(0 <= l < old_gs[g].members.records@.len());
            // naming the stored record lets the coverage fact fire for (g, l)
            let stored = old_gs[g].members.records@[l];
            assert(exists|i: int| 0 <= i < ii && *stored == items[i]);
            let i0 = choose|i: int|
                0 <= i < ii && *(old_gs[g].members.records@[l]) == items[i];
            assert(0 <= i0 < ii + 1 && *(new_gs[g].members.records@[l]) == items[i0]);
        }
    }
    assert forall|i: int| 0 <= i < ii + 1 implies exists|g: int, l: int|
        {
            &&& 0 <= g < new_gs.len()
            &&& 0 <= l < new_gs[g].members.records@.len()
            &&& *new_gs[g].members.records@[l] == #[trigger] items[i]
        } by {
        if i == ii {
            assert(0 <= gn < new_gs.len() && 0 <= 0 < new_gs[gn].members.records@.len()
                && *new_gs[gn].members.records@[0] == items[ii]);
        } else {
            let (g2, l2) = choose|g: int, l: int|
                {
                    &&& 0 <= g < old_gs.len()
                    &&& 0 <= l < old_gs[g].members.records@.len()
                    &&& *old_gs[g].members.records@[l] == items[i]
                };
            assert(new_gs[g2] == old_gs[g2]);
            assert(0 <= g2 < new_gs.len() && 0 <= l2 < new_gs[g2].members.records@.len()
                && *new_gs[g2].members.records@[l2] == items[i]);
        }
    }
}

proof fn lemma_fresh_ok<'a, K: KeyEq, PK: KeyEq, T: PrimaryKey<PK> + ForeignKey<K>>(
    old_gs: Seq<GroupEntry<'a, K, PK, T>>,
    items: Seq<T>,
    fdom: Set<K::V>,
    ii: int,
)
    requires
        groups_wf(old_gs),
        groups_complete(old_gs, items, ii),
        0 <= ii < items.len(),
        forall|g: int| 0 <= g < old_gs.len() ==> #[trigger] group_keys_seq(old_gs)[g]
            != fkeys_of::<K, T>(items)[ii],
        fdom.contains(fkeys_of::<K, T>(items)[ii]),
    ensures
        multi_record_ok(items, fdom, ii),
{
    assert forall|j: int| 0 <= j < ii implies !(fkeys_of::<K, T>(items)[j] == fkeys_of::<K, T>(
        items,
    )[ii] && keys_of::<PK, T>(items)[j] == #[trigger] keys_of::<PK, T>(items)[ii]) by {
        if fkeys_of::<K, T>(items)[j] == fkeys_of::<K, T>(items)[ii] {
            let (g2, l2) = choose|g: int, l: int|
                {
                    &&& 0 <= g < old_gs.len()
                    &&& 0 <= l < old_gs[g].members.records@.len()
                    &&& *old_gs[g].members.records@[l] == items[j]
                };
            assert(old_gs[g2].wf());
            assert((*old_gs[g2].members.records@[l2]).foreign_key_spec() == old_gs[g2].key@);
            assert(items[j].foreign_key_spec() == fkeys_of::<K, T>(items)[j]);
            assert(group_keys_seq(old_gs)[g2] == old_gs[g2].key@);
            assert(false);
        }
    }
}

/// Opening a new group for a record whose foreign key no group carries yet
/// keeps every build invariant.
proof fn lemma_group_fresh<'a, K: KeyEq, PK: KeyEq, T: PrimaryKey<PK> + ForeignKey<K>>(
    old_gs: Seq<GroupEntry<'a, K, PK, T>>,
    new_gs: Seq<GroupEntry<'a, K, PK, T>>,
    items: Seq<T>,
    fdom: Set<K::V>,
    ii: int,
)
    requires
        0 <= ii < items.len(),
        groups_wf(old_gs),
        groups_cover(old_gs, items, ii),
        groups_complete(old_gs, items, ii),
        forall|i: int| 0 <= i < ii ==> #[trigger] multi_record_ok(items, fdom, i),
        fdom.contains(fkeys_of::<K, T>(items)[ii]),
        forall|g: int| 0 <= g < old_gs.len() ==> #[trigger] group_keys_seq(old_gs)[g]
            != fkeys_of::<K, T>(items)[ii],
        fresh_shape(old_gs, new_gs, items, ii),
    ensures
        groups_wf(new_gs),
        groups_cover(new_gs, items, ii + 1),
        groups_complete(new_gs, items, ii + 1),
        forall|i: int| 0 <= i < ii + 1 ==> #[trigger] multi_record_ok(items, fdom, i),
{
    lemma_fresh_wf(old_gs, new_gs, items, ii);
    lemma_fresh_cover_complete(old_gs, new_gs, items, ii);
    lemma_fresh_ok(old_gs, items, fdom, ii);
    assert forall|i: int| 0 <= i < ii + 1 implies #[trigger] multi_record_ok(items, fdom, i) by {
        if i < ii {
            assert(multi_record_ok(items, fdom, i));
        }
    }
}


/// A finished build holds exactly the two-level lookup table the record
/// list describes.
#[verifier::rlimit(50)]
proof fn lemma_built_map<'a, K: KeyEq, PK: KeyEq, T: PrimaryKey<PK> + ForeignKey<K>>(
    m: ForeignMultiIndex<'a, K, PK, T>,
    items: Seq<T>,
    fdom: Set<K::V>,
)
    requires
        m.wf(),
        groups_cover(m.groups@, items, items.len() as int),
        groups_complete(m.groups@, items, items.len() as int),
        forall|i: int| 0 <= i < items.len() ==> #[trigger] multi_record_ok(items, fdom, i),
    ensures
        m@ == multi_map::<K, PK, T>(items),
{
    let gs = m.groups@;
    let n = items.len() as int;
    // domains coincide
    assert forall|k: K::V| #[trigger] group_keys_seq(gs).contains(k) implies fkeys_of::<K, T>(
        items,
    ).contains(k) by {
        let g = choose|g: int| 0 <= g < gs.len() && group_keys_seq(gs)[g] == k;
        assert(gs[g].wf());
        assert(gs[g].members.records@.len() > 0);
        let i = choose|i: int| 0 <= i < n && *(gs[g].members.records@[0]) == items[i];
        assert((*gs[g].members.records@[0]).foreign_key_spec() == gs[g].key@);
        assert(fkeys_of::<K, T>(items)[i] == k);
    }
    assert forall|k: K::V| #[trigger] fkeys_of::<K, T>(items).contains(k) implies group_keys_seq(
        gs,
    ).contains(k) by {
        let i = choose|i: int| 0 <= i < n && fkeys_of::<K, T>(items)[i] == k;
        let (g2, l2) = choose|g: int, l: int|
            {
                &&& 0 <= g < gs.len()
                &&& 0 <= l < gs[g].members.records@.len()
                &&& *gs[g].members.records@[l] == items[i]
            };
        assert(gs[g2].wf());
        assert((*gs[g2].members.records@[l2]).foreign_key_spec() == gs[g2].key@);
        assert(group_keys_seq(gs)[g2] == k);
    }
    // per key, the stored group is the group the records describe
    assert forall|k: K::V| #[trigger] group_keys_seq(gs).contains(k) implies m@[k] == group_of::<
        K,
        PK,
        T,
    >(items, k) by {
        let ga = m.group_at(k);
        assert(0 <= ga < gs.len() && group_keys_seq(gs)[ga] == k);
        let mem = gs[ga].members;
        assert(gs[ga].wf());
        assert forall|p: PK::V| #[trigger] mem@.contains_key(p) implies group_of::<K, PK, T>(
            items,
            k,
        ).contains_key(p) && mem@[p] == group_of::<K, PK, T>(items, k)[p] by {
            let rs = mem.records_seq();
            let kp = crate::index::key_position::<PK, T>(rs, p);
            assert(0 <= kp < rs.len() && mem.key_seq()[kp] == p);
            let i0 = choose|i: int| 0 <= i < n && *(mem.records@[kp]) == items[i];
            assert(rs[kp] == items[i0]);
            assert((*mem.records@[kp]).foreign_key_spec() == gs[ga].key@);
            assert(fkeys_of::<K, T>(items)[i0] == k);
            assert(keys_of::<PK, T>(items)[i0] == p);
            let gma = group_member_at::<K, PK, T>(items, k, p);
            assert(0 <= gma < n && fkeys_of::<K, T>(items)[gma] == k && keys_of::<PK, T>(
                items,
            )[gma] == p);
            lemma_pair_unique::<K, PK, T>(items, fdom, gma, i0);
            assert(mem@[p] == rs[kp]);
        }
        assert forall|p: PK::V| #[trigger] group_of::<K, PK, T>(items, k).contains_key(p)
            implies mem@.contains_key(p) by {
            let i0 = choose|i: int|
                0 <= i < n && fkeys_of::<K, T>(items)[i] == k && keys_of::<PK, T>(items)[i] == p;
            let (g2, l2) = choose|g: int, l: int|
                {
                    &&& 0 <= g < gs.len()
                    &&& 0 <= l < gs[g].members.records@.len()
                    &&& *gs[g].members.records@[l] == items[i0]
                };
            assert(gs[g2].wf());
            assert((*gs[g2].members.records@[l2]).foreign_key_spec() == gs[g2].key@);
            assert(group_keys_seq(gs)[g2] == k);
            assert(g2 == ga);
            assert(mem.key_seq()[l2] == p);
            assert(mem.key_seq().contains(p));
        }
        assert(m@[k] == mem@);
        assert(mem@ =~= group_of::<K, PK, T>(items, k));
    }
    assert(m@ =~= multi_map::<K, PK, T>(items));
}

/// No record list has pairwise-distinct (foreign key, primary key) pairs at
/// a position whose foreign key is absent from the referenced domain: such
/// a position fails the build's checks, so the grouped build cannot succeed.
pub proof fn lemma_absent_foreign_key_defeats_build<K: KeyEq, PK: KeyEq, T: PrimaryKey<PK> + ForeignKey<K>>(
    items: Seq<T>,
    fdom: Set<K::V>,
    i: int,
)
    requires
        0 <= i < items.len(),
        !fdom.contains(fkeys_of::<K, T>(items)[i]),
    ensures
        !multi_record_ok(items, fdom, i),
{
}

/// Law: when some record's foreign key is absent from the referenced domain
/// and no two records share both their foreign and primary keys, a failed
/// grouped build reports the broken foreign key — never a duplicate — and
/// the key it names is indeed absent.
pub proof fn lemma_broken_foreign_key_reported<'a, 'n, K: KeyEq, PK: KeyEq, T: PrimaryKey<PK> + ForeignKey<K>>(
    items: Seq<T>,
    fdom: Set<K::V>,
    relation: Seq<char>,
    e: MultiIndexError<'a, 'n, K, PK, T>,
)
    requires
        mindex_error_spec(items, fdom, relation, e),
        forall|i: int, j: int|
            #![trigger fkeys_of::<K, T>(items)[i], fkeys_of::<K, T>(items)[j]]
            0 <= j < i < items.len() ==> !(fkeys_of::<K, T>(items)[j] == fkeys_of::<K, T>(
                items,
            )[i] && keys_of::<PK, T>(items)[j] == keys_of::<PK, T>(items)[i]),
    ensures
        e matches MultiIndexError::BrokenForeignKey(b) && !fdom.contains(b.key@)
            && b.relation_name@ == relation,
{
    let i = choose|i: int|
        #![trigger fkeys_of::<K, T>(items)[i]]
        {
            &&& 0 <= i < items.len()
            &&& forall|l: int| 0 <= l < i ==> #[trigger] multi_record_ok(items, fdom, l)
            &&& match e {
                MultiIndexError::BrokenForeignKey(b) => {
                    &&& !fdom.contains(fkeys_of::<K, T>(items)[i])
                    &&& b.key@ == fkeys_of::<K, T>(items)[i]
                    &&& b.relation_name@ == relation
                },
                MultiIndexError::DuplicatePrimaryKey(d) => {
                    &&& fdom.contains(fkeys_of::<K, T>(items)[i])
                    &&& d.key@ == keys_of::<PK, T>(items)[i]
                    &&& *d.new_record == items[i]
                    &&& exists|j: int|
                        0 <= j < i && fkeys_of::<K, T>(items)[j] == fkeys_of::<K, T>(items)[i]
                            && keys_of::<PK, T>(items)[j] == keys_of::<PK, T>(items)[i]
                            && *d.old_record == items[j]
                },
            }
        };
    match e {
        MultiIndexError::BrokenForeignKey(b) => {},
        MultiIndexError::DuplicatePrimaryKey(d) => {
            let j = choose|j: int|
                0 <= j < i && fkeys_of::<K, T>(items)[j] == fkeys_of::<K, T>(items)[i]
                    && keys_of::<PK, T>(items)[j] == keys_of::<PK, T>(items)[i]
                    && *d.old_record == items[j];
            assert(false);
        },
    }
}

/// Law: when every record's foreign key resolves in the referenced domain, a
/// failed grouped build never reports a broken foreign key — only an
/// in-group primary-key duplicate.
pub proof fn lemma_resolved_foreign_keys_never_broken<'a, 'n, K: KeyEq, PK: KeyEq, T: PrimaryKey<
    PK,
> + ForeignKey<K>>(
    items: Seq<T>,
    fdom: Set<K::V>,
    relation: Seq<char>,
    e: MultiIndexError<'a, 'n, K, PK, T>,
)
    requires
        mindex_error_spec(items, fdom, relation, e),
        forall|i: int|
            0 <= i < items.len() ==> fdom.contains(#[trigger] fkeys_of::<K, T>(items)[i]),
    ensures
        e is DuplicatePrimaryKey,
{
    let i = choose|i: int|
        #![trigger fkeys_of::<K, T>(items)[i]]
        {
            &&& 0 <= i < items.len()
            &&& forall|l: int| 0 <= l < i ==> #[trigger] multi_record_ok(items, fdom, l)
            &&& match e {
                MultiIndexError::BrokenForeignKey(b) => {
                    &&& !fdom.contains(fkeys_of::<K, T>(items)[i])
                    &&& b.key@ == fkeys_of::<K, T>(items)[i]
                    &&& b.relation_name@ == relation
                },
                MultiIndexError::DuplicatePrimaryKey(d) => {
                    &&& fdom.contains(fkeys_of::<K, T>(items)[i])
                    &&& d.key@ == keys_of::<PK, T>(items)[i]
                    &&& *d.new_record == items[i]
                    &&& exists|j: int|
                        0 <= j < i && fkeys_of::<K, T>(items)[j] == fkeys_of::<K, T>(items)[i]
                            && keys_of::<PK, T>(items)[j] == keys_of::<PK, T>(items)[i]
                            && *d.old_record == items[j]
                },
            }
        };
    match e {
        MultiIndexError::BrokenForeignKey(b) => {
            assert(fdom.contains(fkeys_of::<K, T>(items)[i]));
            assert(false);
        },
        MultiIndexError::DuplicatePrimaryKey(d) => {},
    }
}


} // verus!
