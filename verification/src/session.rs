//! The session capability.
//!
//! Read and write sessions share one small surface: the error channel.
//! A failing source or sink records a description on the session rather
//! than surfacing it inline, and the caller reads it back here.

use vstd::prelude::*;

verus! {

/// What every open session offers: its recorded error, if any.
pub trait ArchiveHandle {
    /// The description of the recorded error, if one has been recorded.
    spec fn error_model(&self) -> Option<Seq<char>>;

    /// Whether an error has been recorded on the session.
    fn is_error(&self) -> (r: bool)
        ensures
            r == (self.error_model() is Some),
    ;

    /// The description of the recorded error; empty when none has been.
    fn error_string(&self) -> (r: String)
        ensures
            match self.error_model() {
                Option::Some(m) => r@ == m,
                Option::None => r@ == Seq::<char>::empty(),
            },
    ;
}

} // verus!
