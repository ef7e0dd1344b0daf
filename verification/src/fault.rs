//! What an error of the scanner or of the parser reports.

use vstd::prelude::*;

verus! {

/// What a scan or parse error reports: the source line of the fault and a
/// message. This is the mathematical view of both error types.
pub struct Fault {
    pub line: int,
    pub message: Seq<char>,
}

} // verus!
