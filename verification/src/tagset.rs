use vstd::prelude::*;

use crate::index::distinct;
use crate::keys::KeyEq;

verus! {

/// Two entries of the would-be set are the same tag.
#[derive(Clone, Copy, Debug, PartialEq, Eq, Structural)]
pub struct DuplicateEntryError {
    pub first: usize,
    pub second: usize,
}

/// A fixed enumeration of distinct tags: construction checks the entries and
/// fails on the first repeated one instead of silently keeping one copy.
#[derive(Debug, Clone)]
pub struct TagSet<T> {
    items: Vec<T>,
}

impl<T: KeyEq> View for TagSet<T> {
    type V = Seq<T::V>;

    closed spec fn view(&self) -> Seq<T::V> {
        self.items@.map_values(|t: T| t@)
    }
}

/// The entry values, in entry order.
pub open spec fn tag_views<T: KeyEq>(items: Seq<T>) -> Seq<T::V> {
    items.map_values(|t: T| t@)
}

impl<T: KeyEq> TagSet<T> {
    /// Invariant: the tags are pairwise distinct.
    pub open spec fn wf(self) -> bool {
        distinct(self@)
    }

    /// Builds the set, failing on the first entry that repeats an earlier
    /// one and naming both positions.
    pub fn new(items: Vec<T>) -> (r: Result<TagSet<T>, DuplicateEntryError>)
        ensures
            r is Ok <==> distinct(tag_views(items@)),
            r matches Ok(s) ==> s.wf() && s@ == tag_views(items@),
            r matches Err(e) ==> {
                &&& e.first < e.second < items@.len()
                &&& tag_views(items@)[e.first as int] == tag_views(items@)[e.second as int]
                &&& distinct(tag_views(items@).take(e.second as int))
                &&& forall|l: int|
                    0 <= l < e.first ==> #[trigger] tag_views(items@)[l] != tag_views(
                        items@,
                    )[e.second as int]
            },
    {
        let n = items.len();
        let mut idx: usize = 0;
        while idx < n
            invariant
                idx <= n,
                n == items@.len(),
                distinct(tag_views(items@).take(idx as int)),
            decreases n - idx,
        {
            let mut j: usize = 0;
            while j < idx
                invariant
                    j <= idx < n,
                    n == items@.len(),
                    distinct(tag_views(items@).take(idx as int)),
                    forall|l: int| 0 <= l < j ==> tag_views(items@)[l] != tag_views(
                        items@,
                    )[idx as int],
                decreases idx - j,
            {
                if items[j].key_eq(&items[idx]) {
                    proof {
                        assert(tag_views(items@)[j as int] == items@[j as int]@);
                        assert(tag_views(items@)[idx as int] == items@[idx as int]@);
                    }
                    return Err(DuplicateEntryError { first: j, second: idx });
                }
                j += 1;
            }
            proof {
                let ii = idx as int;
                assert forall|a: int, b: int|
                    #![trigger tag_views(items@).take(ii + 1)[a], tag_views(items@).take(ii + 1)[b]]
                    0 <= a < b < ii + 1 implies tag_views(items@).take(ii + 1)[a] != tag_views(
                    items@,
                ).take(ii + 1)[b] by {
                    assert(tag_views(items@).take(ii + 1)[a] == tag_views(items@)[a]);
                    assert(tag_views(items@).take(ii + 1)[b] == tag_views(items@)[b]);
                    if b < ii {
                        assert(tag_views(items@).take(ii)[a] == tag_views(items@)[a]);
                        assert(tag_views(items@).take(ii)[b] == tag_views(items@)[b]);
                    }
                }
            }
            idx += 1;
        }
        proof {
            assert(tag_views(items@).take(n as int) =~= tag_views(items@));
        }
        Ok(TagSet { items })
    }

    /// True exactly when the tag is in the set.
    pub fn contains(&self, t: &T) -> (r: bool)
        ensures
            r == self@.contains(t@),
    {
        let n = self.items.len();
        let mut i: usize = 0;
        while i < n
            invariant
                i <= n,
                n == self.items@.len(),
                forall|j: int| 0 <= j < i ==> self@[j] != t@,
            decreases n - i,
        {
            if self.items[i].key_eq(t) {
                proof {
                    assert(self@[i as int] == self.items@[i as int]@);
                }
                return true;
            }
            i += 1;
        }
        proof {
            assert(forall|j: int| 0 <= j < self@.len() ==> self@[j] != t@);
        }
        false
    }

    /// The number of tags.
    pub fn len(&self) -> (r: usize)
        ensures
            r == self@.len(),
    {
        self.items.len()
    }
}

} // verus!
