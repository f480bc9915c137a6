use vstd::prelude::*;

verus! {

/// Enumeration of XML versions
#[derive(Debug, Copy, Clone, PartialEq, Eq, Structural)]
pub enum XmlVersion {
    /// XML Version 1.0
    Version10,
    /// XML Version 1.1
    Version11,
}

} // verus!
