//! Errors surfaced by parsing and compilation entry points.

use vstd::prelude::*;
use crate::policy::PolicyError;

verus! {

/// What went wrong while compiling a policy.
#[derive(Copy, Clone, PartialEq, Eq, Structural, Debug)]
pub enum CompilerError {
    /// The top-level policy has a satisfaction without any signature, so no
    /// compilation can be safe.
    TopLevelNonSafe,
    /// No compilation of the policy can be non-malleable.
    ImpossibleNonMalleableCompilation,
    /// The compilation exceeded a resource limit of the script context.
    LimitsExceeded,
    /// The policy itself is invalid.
    Policy(PolicyError),
}

/// What went wrong in a parsing or compilation entry point.
#[derive(Copy, Clone, PartialEq, Eq, Structural, Debug)]
pub enum Error {
    /// The input held a byte outside the printable range; the byte is
    /// carried.
    Unprintable(u8),
    /// A fragment name held more than one `@`.
    MultiColon,
    /// A probability annotation `w@` stood outside an `or`.
    AtOutsideOr,
    /// The input did not follow the policy grammar.
    Malformed,
    /// The policy breaks a structural rule.
    Policy(PolicyError),
    /// The compiler refused the policy.
    Compiler(CompilerError),
    /// No internal key could be chosen for a Taproot output.
    NoViableInternalKey,
    /// The script tree construction was handed no leaves.
    EmptyCompilation,
}

} // verus!
