use vstd::prelude::*;

use crate::keys::KeyEq;

verus! {

/// A record that exposes the field addressing it uniquely within its own
/// collection.
pub trait PrimaryKey<PK: KeyEq> {
    spec fn primary_key_spec(&self) -> PK::V;

    fn primary_key(&self) -> (r: &PK)
        ensures
            r@ == self.primary_key_spec(),
    ;
}

/// A record that exposes a field expected to match a primary key of some
/// other collection.
pub trait ForeignKey<FK: KeyEq> {
    spec fn foreign_key_spec(&self) -> FK::V;

    fn foreign_key(&self) -> (r: &FK)
        ensures
            r@ == self.foreign_key_spec(),
    ;
}

/// The primary keys of a record list, in list order.
pub open spec fn keys_of<K: KeyEq, T: PrimaryKey<K>>(items: Seq<T>) -> Seq<K::V> {
    items.map_values(|t: T| t.primary_key_spec())
}

/// The foreign keys of a record list, in list order.
pub open spec fn fkeys_of<K: KeyEq, T: ForeignKey<K>>(items: Seq<T>) -> Seq<K::V> {
    items.map_values(|t: T| t.foreign_key_spec())
}

/// Pairwise distinctness of a sequence of key values.
pub open spec fn distinct<V>(s: Seq<V>) -> bool {
    forall|i: int, j: int| 0 <= i < j < s.len() ==> s[i] != s[j]
}

/// The position in `items` of the record carrying key `k` (meaningful when
/// such a record exists; unique when the keys are pairwise distinct).
pub open spec fn key_position<K: KeyEq, T: PrimaryKey<K>>(items: Seq<T>, k: K::V) -> int {
    choose|i: int| 0 <= i < items.len() && keys_of::<K, T>(items)[i] == k
}

/// The lookup table described by a record list: each key maps to the record
/// that produced it.
pub open spec fn index_map<K: KeyEq, T: PrimaryKey<K>>(items: Seq<T>) -> Map<K::V, T> {
    Map::new(
        |k: K::V| keys_of::<K, T>(items).contains(k),
        |k: K::V| items[key_position::<K, T>(items, k)],
    )
}

/// Positions `j < i` hold pairwise distinct keys and position `i` repeats
/// the key of position `j`: the scan in input order fails first at `i`.
pub open spec fn duplicate_at<K: KeyEq, T: PrimaryKey<K>>(items: Seq<T>, i: int, j: int) -> bool {
    &&& 0 <= j < i < items.len()
    &&& distinct(keys_of::<K, T>(items).take(i))
    &&& keys_of::<K, T>(items)[j] == keys_of::<K, T>(items)[i]
}

/// Two records share a primary key; construction of the index failed on the
/// later of the two.
#[derive(Debug)]
pub struct DuplicateKeyError<'a, K, T> {
    pub key: &'a K,
    pub new_record: &'a T,
    pub old_record: &'a T,
}

/// A uniqueness-enforcing lookup structure over a borrowed record list.
///
/// Holds references into the caller's list, never copies; its abstract value
/// is the map from each primary key to the record that produced it.
#[derive(Debug)]
pub struct PrimaryIndex<'a, K, T> {
    pub records: Vec<&'a T>,
    pub key_marker: core::marker::PhantomData<K>,
}

impl<'a, K: KeyEq, T: PrimaryKey<K>> View for PrimaryIndex<'a, K, T> {
    type V = Map<K::V, T>;

    open spec fn view(&self) -> Map<K::V, T> {
        index_map::<K, T>(self.records_seq())
    }
}

impl<'a, K: KeyEq, T: PrimaryKey<K>> PrimaryIndex<'a, K, T> {
    /// The indexed records, in insertion order.
    pub open spec fn records_seq(self) -> Seq<T> {
        self.records@.map_values(|r: &T| *r)
    }

    /// The indexed keys, in insertion order.
    pub open spec fn key_seq(self) -> Seq<K::V> {
        keys_of::<K, T>(self.records_seq())
    }

    /// Invariant: the indexed keys are pairwise distinct.
    pub open spec fn wf(self) -> bool {
        distinct(self.key_seq())
    }

    /// Looks the key up, returning the one record that carries it.
    pub fn get(&self, k: &K) -> (r: Option<&'a T>)
        requires
            self.wf(),
        ensures
            match r {
                Some(t) => self@.contains_key(k@) && *t == self@[k@],
                None => !self@.contains_key(k@),
            },
    {
        match find_by_key(&self.records, k) {
            Some(i) => {
                let rec = self.records[i];
                proof {
                    let p = key_position::<K, T>(self.records_seq(), k@);
                    assert(self.key_seq()[i as int] == k@);
                    assert(self@.contains_key(k@));
                    assert(0 <= p < self.records_seq().len() && self.key_seq()[p] == k@);
                    assert(p == i as int);
                }
                Some(rec)
            },
            None => {
                proof {
                    assert(forall|i: int|
                        0 <= i < self.key_seq().len() ==> self.key_seq()[i] != k@);
                }
                None
            },
        }
    }

    /// True exactly when some indexed record carries the key.
    pub fn contains(&self, k: &K) -> (r: bool)
        requires
            self.wf(),
        ensures
            r == self@.contains_key(k@),
    {
        self.get(k).is_some()
    }
}

/// Position of the first stored record whose primary key equals `k`.
pub(crate) fn find_by_key<'a, K: KeyEq, T: PrimaryKey<K>>(records: &Vec<&'a T>, k: &K) -> (r: Option<
    usize,
>)
    ensures
        match r {
            Some(i) => {
                &&& i < records@.len()
                &&& (*records@[i as int]).primary_key_spec() == k@
                &&& forall|j: int|
                    0 <= j < i ==> (*records@[j]).primary_key_spec() != k@
            },
            None => forall|j: int|
                0 <= j < records@.len() ==> (*records@[j]).primary_key_spec() != k@,
        },
{
    let n = records.len();
    let mut i: usize = 0;
    while i < n
        invariant
            i <= n,
            n == records@.len(),
            forall|j: int| 0 <= j < i ==> (*records@[j]).primary_key_spec() != k@,
        decreases n - i,
    {
        let rec: &T = records[i];
        if rec.primary_key().key_eq(k) {
            return Some(i);
        }
        i += 1;
    }
    None
}

/// Builds the uniqueness-checked index over the record list: a single pass
/// in input order that fails on the first repeated primary key, naming the
/// key, the offending record and the record indexed earlier.
pub fn pindex_by<'a, K: KeyEq, T: PrimaryKey<K>>(items: &'a Vec<T>) -> (r: Result<
    PrimaryIndex<'a, K, T>,
    DuplicateKeyError<'a, K, T>,
>)
    ensures
        r is Ok <==> distinct(keys_of::<K, T>(items@)),
        r matches Ok(ix) ==> ix.wf() && ix.records_seq() == items@ && ix@ == index_map::<K, T>(
            items@,
        ),
        r matches Err(e) ==> exists|i: int, j: int|
            {
                &&& #[trigger] duplicate_at::<K, T>(items@, i, j)
                &&& e.key@ == keys_of::<K, T>(items@)[i]
                &&& *e.new_record == items@[i]
                &&& *e.old_record == items@[j]
            },
{
    let n = items.len();
    let mut records: Vec<&'a T> = Vec::new();
    let mut idx: usize = 0;
    while idx < n
        invariant
            idx <= n,
            n == items@.len(),
            records@.len() == idx,
            forall|i: int| 0 <= i < idx ==> *records@[i] == items@[i],
            distinct(keys_of::<K, T>(items@.take(idx as int))),
        decreases n - idx,
    {
        let item: &T = &items[idx];
        match find_by_key::<K, T>(&records, item.primary_key()) {
            Some(j) => {
                proof {
                    let ghost ii = idx as int;
                    let ghost jj = j as int;
                    assert(keys_of::<K, T>(items@)[jj] == (*records@[jj]).primary_key_spec());
                    assert(keys_of::<K, T>(items@).take(ii) =~= keys_of::<K, T>(
                        items@.take(ii),
                    )) by {
                        assert forall|l: int| 0 <= l < ii implies keys_of::<K, T>(items@)[l]
                            == keys_of::<K, T>(items@.take(ii))[l] by {
                            assert(items@.take(ii)[l] == items@[l]);
                        }
                    }
                    assert(duplicate_at::<K, T>(items@, ii, jj));
                    assert(!distinct(keys_of::<K, T>(items@)));
                }
                return Err(
                    DuplicateKeyError {
                        key: item.primary_key(),
                        new_record: item,
                        old_record: records[j],
                    },
                );
            },
            None => {
                proof {
                    let ghost ii = idx as int;
                    assert forall|a: int, b: int|
                        #![trigger keys_of::<K, T>(items@.take(ii + 1))[a], keys_of::<K, T>(items@.take(ii + 1))[b]]
                        0 <= a < b < ii + 1 implies keys_of::<K, T>(items@.take(ii + 1))[a]
                        != keys_of::<K, T>(items@.take(ii + 1))[b] by {
                        let s1 = items@.take(ii + 1);
                        let s0 = items@.take(ii);
                        assert(s1[a] == items@[a]);
                        assert(keys_of::<K, T>(s1)[a] == items@[a].primary_key_spec());
                        if b < ii {
                            assert(s1[b] == items@[b]);
                            assert(s0[a] == items@[a]);
                            assert(s0[b] == items@[b]);
                            assert(keys_of::<K, T>(s0)[a] == items@[a].primary_key_spec());
                            assert(keys_of::<K, T>(s0)[b] == items@[b].primary_key_spec());
                            assert(keys_of::<K, T>(s0)[a] != keys_of::<K, T>(s0)[b]);
                        } else {
                            assert(b == ii);
                            assert(s1[b] == items@[ii]);
                            assert(keys_of::<K, T>(s1)[b] == items@[ii].primary_key_spec());
                            assert(*records@[a] == items@[a]);
                            assert((*records@[a]).primary_key_spec()
                                != item.primary_key_spec());
                        }
                    }
                }
                records.push(item);
            },
        }
        idx += 1;
    }
    proof {
        assert(items@.take(n as int) =~= items@);
        let ix_records = records@.map_values(|r: &T| *r);
        assert(ix_records =~= items@);
    }
    Ok(PrimaryIndex { records, key_marker: core::marker::PhantomData })
}

/// A record's key was not found among the keys of the referenced index;
/// `relation_name` describes the violated relation for diagnostics.
#[derive(Debug)]
pub struct BrokenForeignKeyError<'a, 'n, K> {
    pub key: &'a K,
    pub relation_name: &'n str,
}

/// Either failure of a foreign-key-checked index build.
#[derive(Debug)]
pub enum ForeignIndexError<'a, 'n, K, T> {
    DuplicateKey(DuplicateKeyError<'a, K, T>),
    BrokenForeignKey(BrokenForeignKeyError<'a, 'n, K>),
}

/// The record at position `i` passes both checks of the foreign-key-checked
/// build: its key resolves in the referenced domain and repeats no earlier
/// key.
pub open spec fn foreign_record_ok<K: KeyEq, T: PrimaryKey<K>>(
    items: Seq<T>,
    fdom: Set<K::V>,
    i: int,
) -> bool {
    &&& fdom.contains(keys_of::<K, T>(items)[i])
    &&& forall|j: int| 0 <= j < i ==> keys_of::<K, T>(items)[j] != keys_of::<K, T>(items)[i]
}

/// Builds a uniqueness-checked index over a record list whose key is also a
/// foreign key into `foreign`: a single pass in input order, checking each
/// record's key first for presence in `foreign` and then for uniqueness, and
/// failing fast on the first violation.
pub fn pindex_by_foreign<'a, 'n, K: KeyEq, T: PrimaryKey<K>, T2: PrimaryKey<K>>(
    items: &'a Vec<T>,
    foreign: &PrimaryIndex<'_, K, T2>,
    keyname: &'n str,
) -> (r: Result<PrimaryIndex<'a, K, T>, ForeignIndexError<'a, 'n, K, T>>)
    requires
        foreign.wf(),
    ensures
        r is Ok <==> (forall|i: int|
            0 <= i < items@.len() ==> #[trigger] foreign_record_ok::<K, T>(
                items@,
                foreign@.dom(),
                i,
            )),
        r matches Ok(ix) ==> ix.wf() && ix.records_seq() == items@ && ix@ == index_map::<K, T>(
            items@,
        ),
        r matches Err(e) ==> exists|i: int|
            #![trigger keys_of::<K, T>(items@)[i]]
            {
                &&& 0 <= i < items@.len()
                &&& forall|l: int|
                    0 <= l < i ==> #[trigger] foreign_record_ok::<K, T>(
                        items@,
                        foreign@.dom(),
                        l,
                    )
                &&& match e {
                    ForeignIndexError::BrokenForeignKey(b) => {
                        &&& !foreign@.dom().contains(keys_of::<K, T>(items@)[i])
                        &&& b.key@ == keys_of::<K, T>(items@)[i]
                        &&& b.relation_name@ == keyname@
                    },
                    ForeignIndexError::DuplicateKey(d) => {
                        &&& foreign@.dom().contains(keys_of::<K, T>(items@)[i])
                        &&& d.key@ == keys_of::<K, T>(items@)[i]
                        &&& *d.new_record == items@[i]
                        &&& exists|j: int|
                            0 <= j < i && keys_of::<K, T>(items@)[j] == keys_of::<K, T>(
                                items@,
                            )[i] && *d.old_record == items@[j]
                    },
                }
            },
{
    let n = items.len();
    let mut records: Vec<&'a T> = Vec::new();
    let mut idx: usize = 0;
    while idx < n
        invariant
            idx <= n,
            n == items@.len(),
            foreign.wf(),
            records@.len() == idx,
            forall|i: int| 0 <= i < idx ==> *records@[i] == items@[i],
            forall|l: int|
                0 <= l < idx ==> #[trigger] foreign_record_ok::<K, T>(
                    items@,
                    foreign@.dom(),
                    l,
                ),
        decreases n - idx,
    {
        let item: &T = &items[idx];
        if !foreign.contains(item.primary_key()) {
            proof {
                let ghost ii = idx as int;
                assert(keys_of::<K, T>(items@)[ii] == item.primary_key_spec());
                assert(!foreign_record_ok::<K, T>(items@, foreign@.dom(), ii));
            }
            return Err(
                ForeignIndexError::BrokenForeignKey(
                    BrokenForeignKeyError { key: item.primary_key(), relation_name: keyname },
                ),
            );
        }
        match find_by_key::<K, T>(&records, item.primary_key()) {
            Some(j) => {
                proof {
                    let ghost ii = idx as int;
                    let ghost jj = j as int;
                    assert(keys_of::<K, T>(items@)[jj] == (*records@[jj]).primary_key_spec());
                    assert(keys_of::<K, T>(items@)[ii] == item.primary_key_spec());
                    assert(keys_of::<K, T>(items@)[jj] == keys_of::<K, T>(items@)[ii]);
                    assert(!foreign_record_ok::<K, T>(items@, foreign@.dom(), ii));
                }
                return Err(
                    ForeignIndexError::DuplicateKey(
                        DuplicateKeyError {
                            key: item.primary_key(),
                            new_record: item,
                            old_record: records[j],
                        },
                    ),
                );
            },
            None => {
                proof {
                    let ghost ii = idx as int;
                    assert(keys_of::<K, T>(items@)[ii] == item.primary_key_spec());
                    assert forall|j: int| 0 <= j < ii implies keys_of::<K, T>(items@)[j]
                        != keys_of::<K, T>(items@)[ii] by {
                        assert(*records@[j] == items@[j]);
                        assert((*records@[j]).primary_key_spec() != item.primary_key_spec());
                    }
                    assert(foreign_record_ok::<K, T>(items@, foreign@.dom(), ii));
                }
                records.push(item);
            },
        }
        idx += 1;
    }
    proof {
        let ix_records = records@.map_values(|r: &T| *r);
        assert(ix_records =~= items@);
        assert forall|a: int, b: int|
            #![trigger keys_of::<K, T>(ix_records)[a], keys_of::<K, T>(ix_records)[b]]
            0 <= a < b < ix_records.len() implies keys_of::<K, T>(ix_records)[a] != keys_of::<
            K,
            T,
        >(ix_records)[b] by {
            assert(foreign_record_ok::<K, T>(items@, foreign@.dom(), b));
        }
    }
    Ok(PrimaryIndex { records, key_marker: core::marker::PhantomData })
}

/// Law: over a record list with pairwise-distinct keys, the lookup table is
/// total and exact — the key of the record at any position is present, and
/// it maps back to exactly that record.
pub proof fn lemma_index_map_exact<K: KeyEq, T: PrimaryKey<K>>(items: Seq<T>, i: int)
    requires
        distinct(keys_of::<K, T>(items)),
        0 <= i < items.len(),
    ensures
        index_map::<K, T>(items).contains_key(keys_of::<K, T>(items)[i]),
        index_map::<K, T>(items)[keys_of::<K, T>(items)[i]] == items[i],
{
    let keys = keys_of::<K, T>(items);
    assert(keys[i] == keys[i] && 0 <= i < keys.len());
    assert(keys.contains(keys[i]));
    let p = key_position::<K, T>(items, keys[i]);
    assert(0 <= p < items.len() && keys[p] == keys[i]);
    assert(p == i);
}

/// Law: a record list in which two positions share a primary key has no
/// distinct key sequence, so index construction over it must fail.
pub proof fn lemma_shared_key_defeats_build<K: KeyEq, T: PrimaryKey<K>>(
    items: Seq<T>,
    i: int,
    j: int,
)
    requires
        0 <= i < j < items.len(),
        keys_of::<K, T>(items)[i] == keys_of::<K, T>(items)[j],
    ensures
        !distinct(keys_of::<K, T>(items)),
{
}

} // verus!
