use vstd::prelude::*;

verus! {

/// An earlier, simpler shape of the uncertain value: an optional value with
/// a free-text comment.
#[derive(Debug, Clone)]
pub struct Unsure<T> {
    pub value: Option<T>,
    pub comment: String,
}

impl<T> Unsure<T> {
    /// Wraps an optional value with its comment.
    pub fn new(value: Option<T>, comment: String) -> (r: Self)
        ensures
            r.value == value,
            r.comment == comment,
    {
        Unsure { value, comment }
    }

    /// No value, no comment.
    pub fn none() -> (r: Self)
        ensures
            r.value is None,
            r.comment@ == Seq::<char>::empty(),
    {
        Unsure { value: None, comment: String::new() }
    }
}

} // verus!
