use vstd::prelude::*;

use core::cmp::Ordering;
use vstd::multiset::Multiset;
use vstd::std_specs::cmp::PartialOrdSpec;

verus! {

broadcast use
    vstd::seq_lib::group_to_multiset_ensures,
    vstd::seq_lib::to_multiset_insert,
    vstd::seq_lib::to_multiset_remove,
    vstd::multiset::group_multiset_axioms,
;

/// The opposite ordering.
pub open spec fn flip(o: Ordering) -> Ordering {
    match o {
        Ordering::Less => Ordering::Greater,
        Ordering::Equal => Ordering::Equal,
        Ordering::Greater => Ordering::Less,
    }
}

/// A caller-supplied three-way comparison. `valid` is the caller's promise
/// that every pair handed to `compare` is orderable: breaking it is a
/// programming error, not a recoverable condition.
pub trait Comparator<T> {
    spec fn valid(&self) -> bool;

    spec fn cmp_spec(&self, a: T, b: T) -> Ordering;

    fn compare(&self, a: &T, b: &T) -> (r: Ordering)
        requires
            self.valid(),
        ensures
            r == self.cmp_spec(*a, *b),
    ;
}

/// `a` sorts no later than `b` under the comparator.
pub open spec fn le_by<T, C: Comparator<T>>(c: &C, a: T, b: T) -> bool {
    c.cmp_spec(a, b) != Ordering::Greater
}

/// The total-order contract the sort stage assumes of the comparator:
/// swapping the arguments flips the answer, and `le_by` is transitive.
pub open spec fn total_order_on<T, C: Comparator<T>>(c: &C) -> bool {
    &&& forall|a: T, b: T| #[trigger] c.cmp_spec(a, b) == flip(c.cmp_spec(b, a))
    &&& forall|a: T, b: T, x: T|
        #![trigger le_by(c, a, b), le_by(c, b, x)]
        le_by(c, a, b) && le_by(c, b, x) ==> le_by(c, a, x)
}

/// Pairwise sortedness under the comparator.
pub open spec fn sorted_by_cmp<T, C: Comparator<T>>(c: &C, s: Seq<T>) -> bool {
    forall|i: int, j: int| 0 <= i < j < s.len() ==> le_by(c, s[i], s[j])
}

/// The values of an all-successful result list, in order.
pub open spec fn ok_values<T, E>(s: Seq<Result<T, E>>) -> Seq<T> {
    s.map_values(|x: Result<T, E>| x->Ok_0)
}

/// Position `i` holds the first failure of the list.
pub open spec fn first_err_at<T, E>(s: Seq<Result<T, E>>, i: int) -> bool {
    &&& 0 <= i < s.len()
    &&& s[i] is Err
    &&& forall|j: int| 0 <= j < i ==> s[j] is Ok
}

/// First position of `out` that must come after `x`, scanning left to right.
fn lower_position<T, C: Comparator<T>>(out: &Vec<T>, c: &C, x: &T) -> (p: usize)
    requires
        c.valid(),
    ensures
        p <= out@.len(),
        forall|l: int| 0 <= l < p ==> c.cmp_spec(*x, #[trigger] out@[l]) != Ordering::Less,
        p < out@.len() ==> c.cmp_spec(*x, out@[p as int]) == Ordering::Less,
{
    let n = out.len();
    let mut i: usize = 0;
    while i < n
        invariant
            i <= n,
            n == out@.len(),
            c.valid(),
            forall|l: int| 0 <= l < i ==> c.cmp_spec(*x, #[trigger] out@[l]) != Ordering::Less,
        decreases n - i,
    {
        if matches!(c.compare(x, &out[i]), Ordering::Less) {
            return i;
        }
        i += 1;
    }
    n
}

/// Sorts by repeated ordered insertion: the result is a permutation of the
/// input, pairwise sorted under the comparator.
fn sort_by_comparator<T, C: Comparator<T>>(items: Vec<T>, c: &C) -> (r: Vec<T>)
    requires
        c.valid(),
        total_order_on(c),
    ensures
        r@.to_multiset() == items@.to_multiset(),
        sorted_by_cmp(c, r@),
{
    let ghost orig = items@;
    let mut rest = items;
    let mut out: Vec<T> = Vec::new();
    proof {
        assert(out@.to_multiset().add(rest@.to_multiset()) =~= orig.to_multiset());
    }
    while rest.len() > 0
        invariant
            c.valid(),
            total_order_on(c),
            sorted_by_cmp(c, out@),
            out@.to_multiset().add(rest@.to_multiset()) == orig.to_multiset(),
        decreases rest@.len(),
    {
        let ghost out0 = out@;
        let ghost rest0 = rest@;
        let x = rest.remove(0);
        let p = lower_position(&out, c, &x);
        out.insert(p, x);
        proof {
            let pp = p as int;
            assert(out@ == out0.insert(pp, x));
            assert(rest@ == rest0.remove(0));
            assert(x == rest0[0]);
            assert(rest0.remove(0).to_multiset() == rest0.to_multiset().remove(rest0[0]));
            assert(out0.insert(pp, x).to_multiset() == out0.to_multiset().insert(x));
            assert(rest0.contains(x));
            assert(rest0.to_multiset().count(x) > 0);
            assert forall|a: int, b: int| 0 <= a < b < out@.len() implies le_by(
                c,
                out@[a],
                out@[b],
            ) by {
                let va = if a < pp {
                    out0[a]
                } else if a == pp {
                    x
                } else {
                    out0[a - 1]
                };
                let vb = if b < pp {
                    out0[b]
                } else if b == pp {
                    x
                } else {
                    out0[b - 1]
                };
                assert(out@[a] == va);
                assert(out@[b] == vb);
                if a == pp {
                    assert(c.cmp_spec(x, out0[pp]) == Ordering::Less);
                    assert(le_by(c, x, out0[pp]));
                    if b > pp + 1 {
                        assert(le_by(c, out0[pp], out0[b - 1]));
                    }
                } else if b == pp {
                    assert(c.cmp_spec(x, out0[a]) != Ordering::Less);
                    assert(c.cmp_spec(out0[a], x) == flip(c.cmp_spec(x, out0[a])));
                    assert(le_by(c, out0[a], x));
                } else if a < pp && b > pp {
                    assert(le_by(c, out0[a], out0[b - 1]));
                }
            }
            assert(out@.to_multiset().add(rest@.to_multiset()) =~= orig.to_multiset());
        }
    }
    proof {
        assert(rest@ =~= Seq::<T>::empty());
        assert(rest@.to_multiset() =~= Multiset::<T>::empty()) by {
            assert(rest@.to_multiset().len() == 0);
        }
        assert(out@.to_multiset() =~= orig.to_multiset());
    }
    out
}

/// A fallible, eagerly realized sort/collect pipeline over a list of results.
pub trait CollectSorted<T, E>: Sized {
    /// The fallible computations, in order, as already-realized results.
    spec fn entries(&self) -> Seq<Result<T, E>>;

    /// Realizes the whole list, propagating the first failure unchanged; when
    /// all succeed, hands back the values sorted by the comparator.
    fn try_collect_sorted_by<C: Comparator<T>>(self, c: &C) -> (r: Result<Vec<T>, E>)
        requires
            c.valid(),
            total_order_on(c),
        ensures
            r is Ok <==> (forall|i: int|
                0 <= i < self.entries().len() ==> (#[trigger] self.entries()[i]) is Ok),
            r matches Ok(vs) ==> vs@.to_multiset() == ok_values(self.entries()).to_multiset()
                && sorted_by_cmp(c, vs@),
            r matches Err(e) ==> exists|i: int|
                #[trigger] first_err_at(self.entries(), i) && e == self.entries()[i]->Err_0,
    ;
}

impl<T, E> CollectSorted<T, E> for Vec<Result<T, E>> {
    open spec fn entries(&self) -> Seq<Result<T, E>> {
        self@
    }

    #[verifier::loop_isolation(false)]
    fn try_collect_sorted_by<C: Comparator<T>>(self, c: &C) -> (r: Result<Vec<T>, E>) {
        let ghost orig = self@;
        let mut rest = self;
        let n0 = rest.len();
        proof {
            assert(orig.len() == n0 as int);
        }
        let mut vs: Vec<T> = Vec::new();
        let mut k: usize = 0;
        while rest.len() > 0
            invariant
                k + rest@.len() == orig.len(),
                rest@ =~= orig.skip(k as int),
                vs@.len() == k,
                forall|i: int|
                    0 <= i < k ==> (#[trigger] orig[i]) is Ok && vs@[i] == orig[i]->Ok_0,
            decreases rest@.len(),
        {
            let entry = rest.remove(0);
            proof {
                assert(orig.skip(k as int)[0] == orig[k as int]);
                assert(rest@ =~= orig.skip(k as int).remove(0));
                assert(orig.skip(k as int).remove(0) =~= orig.skip(k as int + 1));
            }
            match entry {
                Ok(t) => {
                    vs.push(t);
                },
                Err(e) => {
                    proof {
                        assert(first_err_at(orig, k as int));
                    }
                    return Err(e);
                },
            }
            k += 1;
        }
        proof {
            assert(vs@ =~= ok_values(orig)) by {
                assert(vs@.len() == orig.len());
                assert(forall|i: int|
                    0 <= i < orig.len() ==> vs@[i] == #[trigger] ok_values(orig)[i]);
            }
        }
        Ok(sort_by_comparator(vs, c))
    }
}

/// A three-way comparison on any partially ordered type that treats an
/// incomparable pair as a programming error: the caller asserts in advance
/// that every pair it hands over is orderable, and an unorderable pair stops
/// the program rather than being recovered from.
pub fn unsafe_cmp<T: PartialOrd>(a: &T, b: &T) -> (r: Ordering)
    requires
        T::obeys_partial_cmp_spec(),
        a.partial_cmp_spec(b) is Some,
    ensures
        Some(r) == a.partial_cmp_spec(b),
{
    match a.partial_cmp(b) {
        Some(o) => o,
        None => vstd::pervasive::unreached(),
    }
}

/// The comparator `unsafe_cmp` induces on a partially ordered type.
pub struct PartialOrdCmp;

impl<T: PartialOrd> Comparator<T> for PartialOrdCmp {
    /// The caller's promise: the type's comparison is specified and every
    /// pair is orderable.
    open spec fn valid(&self) -> bool {
        &&& T::obeys_partial_cmp_spec()
        &&& forall|a: &T, b: &T| (#[trigger] a.partial_cmp_spec(b)) is Some
    }

    open spec fn cmp_spec(&self, a: T, b: T) -> Ordering {
        (&a).partial_cmp_spec(&b)->0
    }

    fn compare(&self, a: &T, b: &T) -> (r: Ordering) {
        unsafe_cmp(a, b)
    }
}

/// A key-extraction function with a specified value.
pub trait KeyFn<T, K> {
    spec fn key_spec(&self, t: T) -> K;

    fn key<'a>(&self, t: &'a T) -> (r: &'a K)
        ensures
            *r == self.key_spec(*t),
    ;
}

/// A comparator composed from a key extraction and a base ordering, so one
/// base ordering serves many key projections.
pub struct KeyComparator<KF, C, K> {
    pub key: KF,
    pub cmp: C,
    pub key_marker: core::marker::PhantomData<K>,
}

/// Composes a key extraction with a base comparator.
pub fn on<K, KF, C>(key: KF, cmp: C) -> (r: KeyComparator<KF, C, K>)
    ensures
        r.key == key,
        r.cmp == cmp,
{
    KeyComparator { key, cmp, key_marker: core::marker::PhantomData }
}

impl<T, K, KF: KeyFn<T, K>, C: Comparator<K>> Comparator<T> for KeyComparator<KF, C, K> {
    open spec fn valid(&self) -> bool {
        self.cmp.valid()
    }

    open spec fn cmp_spec(&self, a: T, b: T) -> Ordering {
        self.cmp.cmp_spec(self.key.key_spec(a), self.key.key_spec(b))
    }

    fn compare(&self, a: &T, b: &T) -> (r: Ordering) {
        self.cmp.compare(self.key.key(a), self.key.key(b))
    }
}

/// Extracts the ranking ratio — the third component — of a scored entry
/// (record, score, ratio).
pub struct RatioKey;

impl<A, B, K> KeyFn<(A, B, K), K> for RatioKey {
    open spec fn key_spec(&self, t: (A, B, K)) -> K {
        t.2
    }

    fn key<'a>(&self, t: &'a (A, B, K)) -> (r: &'a K) {
        &t.2
    }
}

} // verus!
