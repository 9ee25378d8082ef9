//! The C back end: renders a module of the intermediate representation as C source.

use vstd::prelude::*;

pub mod cgenerator;
pub mod type_writer;

verus! {

/// What the back end produces: an executable (through a C compiler) or the C source.
#[derive(Debug, Clone, Copy, PartialEq, Eq, Structural)]
pub enum TargetKind {
    Executable,
    Ccode,
}

} // verus!
