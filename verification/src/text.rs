use vstd::prelude::*;

verus! {

/// Index of the first occurrence of `c` in `s`; the length when absent.
pub open spec fn find_at(s: Seq<char>, c: char) -> int
    decreases s.len(),
{
    if s.len() == 0 {
        0
    } else if s[0] == c {
        0
    } else {
        1 + find_at(s.drop_first(), c)
    }
}

/// What `find_at` returns: a position in bounds, holding `c` when in range,
/// with no occurrence before it.
pub proof fn lemma_find_props(s: Seq<char>, c: char)
    ensures
        0 <= find_at(s, c) <= s.len(),
        find_at(s, c) < s.len() ==> s[find_at(s, c)] == c,
        forall|j: int| 0 <= j < find_at(s, c) ==> s[j] != c,
    decreases s.len(),
{
    if s.len() > 0 && s[0] != c {
        lemma_find_props(s.drop_first(), c);
        assert forall|j: int| 0 <= j < find_at(s, c) implies s[j] != c by {
            if j > 0 {
                assert(s.drop_first()[j - 1] == s[j]);
            }
        }
    }
}

/// `find_at` is the one position with no occurrence before it that is either
/// the end or an occurrence.
pub proof fn lemma_find_unique(s: Seq<char>, c: char, i: int)
    requires
        0 <= i <= s.len(),
        forall|j: int| 0 <= j < i ==> s[j] != c,
        i == s.len() || s[i] == c,
    ensures
        find_at(s, c) == i,
    decreases s.len(),
{
    if s.len() > 0 {
        if i == 0 {
            if s[0] != c {
                lemma_find_props(s, c);
            }
        } else {
            assert(s[0] != c);
            assert forall|j: int| 0 <= j < i - 1 implies s.drop_first()[j] != c by {
                assert(s.drop_first()[j] == s[j + 1]);
            }
            if i < s.len() {
                assert(s.drop_first()[i - 1] == s[i]);
            }
            lemma_find_unique(s.drop_first(), c, i - 1);
        }
    }
}

/// Every character is a decimal digit.
pub open spec fn all_digits(s: Seq<char>) -> bool {
    forall|i: int| 0 <= i < s.len() ==> '0' <= #[trigger] s[i] <= '9'
}

/// The number the digit string denotes, read left to right.
pub open spec fn digits_val(s: Seq<char>) -> int
    decreases s.len(),
{
    if s.len() == 0 {
        0
    } else {
        10 * digits_val(s.drop_last()) + (s.last() as int - '0' as int)
    }
}

/// A usable numeric field: nonempty, all digits, value within the field's
/// machine bound.
pub open spec fn field_ok(s: Seq<char>, max: int) -> bool {
    s.len() > 0 && all_digits(s) && digits_val(s) <= max
}

/// A digit string's value is nonnegative, and short strings stay small.
pub proof fn lemma_digits_bound(s: Seq<char>)
    requires
        all_digits(s),
    ensures
        digits_val(s) >= 0,
        s.len() <= 1 ==> digits_val(s) <= 9,
        s.len() <= 2 ==> digits_val(s) <= 99,
        s.len() <= 3 ==> digits_val(s) <= 999,
        s.len() <= 4 ==> digits_val(s) <= 9999,
    decreases s.len(),
{
    if s.len() > 0 {
        assert(all_digits(s.drop_last())) by {
            assert(forall|i: int|
                0 <= i < s.len() - 1 ==> s.drop_last()[i] == #[trigger] s[i]);
        }
        lemma_digits_bound(s.drop_last());
        assert('0' <= s[s.len() - 1] <= '9');
    }
}

/// A digit string's value dominates the value of each of its prefixes.
pub proof fn lemma_digits_monotonic(s: Seq<char>, i: int)
    requires
        all_digits(s),
        0 <= i <= s.len(),
    ensures
        digits_val(s.take(i)) <= digits_val(s),
    decreases s.len() - i,
{
    if i < s.len() {
        lemma_digits_monotonic(s, i + 1);
        assert(s.take(i + 1).drop_last() =~= s.take(i));
        assert(s.take(i + 1).last() == s[i]);
        assert('0' <= s[i] <= '9');
        assert(all_digits(s.take(i))) by {
            assert(forall|j: int| 0 <= j < i ==> s.take(i)[j] == #[trigger] s[j]);
        }
        lemma_digits_bound(s.take(i));
        assert(digits_val(s.take(i + 1)) == 10 * digits_val(s.take(i)) + (s[i] as int
            - '0' as int));
    } else {
        assert(s.take(i) =~= s);
    }
}

/// Character-wise string equality, tied to equality of the views.
pub fn str_eq(a: &str, b: &str) -> (r: bool)
    ensures
        r == (a@ == b@),
{
    let na = a.unicode_len();
    let nb = b.unicode_len();
    if na != nb {
        return false;
    }
    let mut i: usize = 0;
    while i < na
        invariant
            i <= na,
            na == a@.len(),
            na == b@.len(),
            forall|j: int| 0 <= j < i ==> a@[j] == b@[j],
        decreases na - i,
    {
        if a.get_char(i) != b.get_char(i) {
            return false;
        }
        i += 1;
    }
    proof {
        assert(a@ =~= b@);
    }
    true
}

/// Position of the first occurrence of `c`, or the length when absent.
pub fn find_char(s: &str, c: char) -> (r: usize)
    ensures
        r as int == find_at(s@, c),
        r <= s@.len(),
{
    let n = s.unicode_len();
    let mut i: usize = 0;
    while i < n
        invariant
            i <= n,
            n == s@.len(),
            forall|j: int| 0 <= j < i ==> s@[j] != c,
        decreases n - i,
    {
        if s.get_char(i) == c {
            proof {
                lemma_find_unique(s@, c, i as int);
            }
            return i;
        }
        i += 1;
    }
    proof {
        lemma_find_unique(s@, c, n as int);
    }
    n
}

/// Reads the digit string's value, refusing a string that is empty, has a
/// non-digit, or denotes more than `max`.
pub fn digits_value_capped(s: &str, max: u16) -> (r: Option<u16>)
    ensures
        r is Some <==> field_ok(s@, max as int),
        r matches Some(v) ==> v as int == digits_val(s@),
{
    let n = s.unicode_len();
    if n == 0 {
        return None;
    }
    let mut acc: u32 = 0;
    let mut i: usize = 0;
    while i < n
        invariant
            0 < n == s@.len(),
            i <= n,
            acc as int == digits_val(s@.take(i as int)),
            acc <= max as u32,
            all_digits(s@.take(i as int)),
        decreases n - i,
    {
        let c = s.get_char(i);
        if c < '0' || c > '9' {
            proof {
                assert(!all_digits(s@));
            }
            return None;
        }
        let d: u32 = (c as u32) - 48;
        let v: u32 = 10 * acc + d;
        proof {
            assert(s@.take(i as int + 1).drop_last() =~= s@.take(i as int));
            assert(s@.take(i as int + 1).last() == s@[i as int]);
            assert(digits_val(s@.take(i as int + 1)) == 10 * digits_val(s@.take(i as int)) + (
            c as int - '0' as int));
            assert(all_digits(s@.take(i as int + 1))) by {
                assert(forall|j: int|
                    0 <= j < i + 1 ==> s@.take(i as int + 1)[j] == #[trigger] s@[j]);
            }
        }
        if v > max as u32 {
            proof {
                if all_digits(s@) {
                    lemma_digits_monotonic(s@, i as int + 1);
                }
            }
            return None;
        }
        acc = v;
        i += 1;
    }
    proof {
        assert(s@.take(n as int) =~= s@);
    }
    Some(acc as u16)
}

} // verus!
