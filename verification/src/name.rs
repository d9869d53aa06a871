use vstd::prelude::*;

use crate::keys::KeyEq;
use vstd::string::StrSliceExecFns;
use vstd::string::StringExecFns;

verus! {

/// The text with every trademark sign (U+2122) removed, in order.
pub open spec fn strip_marks(s: Seq<char>) -> Seq<char>
    decreases s.len(),
{
    if s.len() == 0 {
        Seq::empty()
    } else if s.last() == '\u{2122}' {
        strip_marks(s.drop_last())
    } else {
        strip_marks(s.drop_last()).push(s.last())
    }
}

/// A display name normalized at construction: decoration characters are
/// stripped, and the name compares and hashes by its normalized text.
#[derive(Debug, Clone, PartialEq, Eq, Hash)]
pub struct ArticleName {
    text: String,
}

impl View for ArticleName {
    type V = Seq<char>;

    closed spec fn view(&self) -> Seq<char> {
        self.text@
    }
}

impl ArticleName {
    /// Normalizes free-form text into a name.
    pub fn new(s: &str) -> (r: ArticleName)
        ensures
            r@ == strip_marks(s@),
    {
        let n = s.unicode_len();
        let mut out = String::new();
        let mut i: usize = 0;
        while i < n
            invariant
                i <= n,
                n == s@.len(),
                out@ == strip_marks(s@.take(i as int)),
            decreases n - i,
        {
            let c = s.get_char(i);
            proof {
                assert(s@.take(i as int + 1).drop_last() =~= s@.take(i as int));
                assert(s@.take(i as int + 1).last() == s@[i as int]);
            }
            if c != '\u{2122}' {
                let piece = s.substring_char(i, i + 1);
                proof {
                    assert(piece@ =~= s@.subrange(i as int, i as int + 1));
                    assert(piece@ =~= seq![s@[i as int]]);
                    assert(out@.push(s@[i as int]) =~= out@ + piece@);
                }
                out.append(piece);
            }
            i += 1;
        }
        proof {
            assert(s@.take(n as int) =~= s@);
        }
        ArticleName { text: out }
    }

    /// The normalized text.
    pub fn as_str(&self) -> (r: &str)
        ensures
            r@ == self@,
    {
        self.text.as_str()
    }
}

impl KeyEq for ArticleName {
    fn key_eq(&self, other: &Self) -> (r: bool)
        ensures
            r == (self@ == other@),
    {
        self.text.eq(&other.text)
    }
}

} // verus!
