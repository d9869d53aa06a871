use vstd::prelude::*;

use std::io::Write;

verus! {

/// How a read of a value-less state is handled: returned as a recoverable
/// error, or treated as fatal. Under `Abort` the caller must rule the
/// value-less states out beforehand — the read itself never aborts.
#[derive(Clone, Copy, Debug, PartialEq, Eq, Structural)]
pub enum ReadPolicy {
    Recover,
    Abort,
}

/// Why a read returned no value.
#[derive(Clone, Copy, Debug, PartialEq, Eq, Structural)]
pub enum ValueError {
    NotApplicableError,
    MissingValueError,
}

impl ValueError {
    /// The human-readable message of the error.
    pub fn message(&self) -> (r: String)
        ensures
            self is NotApplicableError ==> r@ == "value not applicable"@,
            self is MissingValueError ==> r@ == "value missing"@,
    {
        match self {
            ValueError::NotApplicableError => "value not applicable".to_owned(),
            ValueError::MissingValueError => "value missing".to_owned(),
        }
    }
}

/// An optional value carrying provenance: present, present but doubted (with
/// a free-text note), declared inapplicable, or missing. Constructed once,
/// never mutated, read through `value`.
#[derive(Debug, Clone)]
pub enum Value<T> {
    Present(T),
    PresentWithDoubt(T, String),
    NotApplicable,
    Missing,
}

/// Relies on std::io::Stdout::write_fmt (through `writeln!`): prints one
/// warning line naming the doubt note; nothing is computed.
#[verifier::external_body]
fn emit_doubt_warning(note: &str) {
    let _ = writeln!(std::io::stdout(), "Warning: there are doubts: {}", note);
}

impl<T> Value<T> {
    /// True when a read returns a value.
    pub open spec fn has_value(self) -> bool {
        self is Present || self is PresentWithDoubt
    }

    /// Reads the value. A present value is returned; a doubted one is
    /// returned too, after a diagnostic warning naming the doubt note is
    /// emitted on every read; the value-less states fail with their error
    /// kind. Under the `Abort` policy the value-less states are the caller's
    /// contract violation, so they are excluded here and an unverified
    /// caller must stop before the call instead.
    pub fn value(&self, policy: ReadPolicy) -> (r: Result<&T, ValueError>)
        requires
            policy is Abort ==> self.has_value(),
        ensures
            r is Ok <==> self.has_value(),
            self matches Value::Present(v) ==> (r matches Ok(x) && *x == v),
            self matches Value::PresentWithDoubt(v, _) ==> (r matches Ok(x) && *x == v),
            self is NotApplicable ==> (r matches Err(e) && e == ValueError::NotApplicableError),
            self is Missing ==> (r matches Err(e) && e == ValueError::MissingValueError),
    {
        match self {
            Value::Present(v) => Ok(v),
            Value::PresentWithDoubt(v, note) => {
                emit_doubt_warning(note.as_str());
                Ok(v)
            },
            Value::NotApplicable => Err(ValueError::NotApplicableError),
            Value::Missing => Err(ValueError::MissingValueError),
        }
    }

    /// Lifts a bare value into the present state: the explicit conversion at
    /// the boundary where literal data becomes a record field.
    pub fn present(value: T) -> (r: Self)
        ensures
            r == Value::Present(value),
    {
        Value::Present(value)
    }
}

} // verus!
