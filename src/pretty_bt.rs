use vstd::prelude::*;

verus! {

/// Declares `backtrace::Backtrace`, a captured call stack, which is held here
/// as an opaque value.
#[verifier::external_type_specification]
#[verifier::external_body]
pub struct ExBacktrace(backtrace::Backtrace);

/// Relies on `backtrace::Backtrace::new`: captures the current call stack
/// (what it holds depends on the machine, so nothing is promised of it).
pub assume_specification[ backtrace::Backtrace::new ]() -> backtrace::Backtrace;

/// A captured call stack that is printed in a short or a full form.
pub struct PrettyBacktrace {
    pub bt: backtrace::Backtrace,
}

impl PrettyBacktrace {
    /// Captures the call stack at the point of the call.
    pub fn new() -> (r: PrettyBacktrace) {
        PrettyBacktrace { bt: backtrace::Backtrace::new() }
    }
}

} // verus!
