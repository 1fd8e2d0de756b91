//! The closed set of resource kinds stored by the engine.
use vstd::prelude::*;
use vstd::string::StringExecFns;

verus! {

/// The `type` tag of a resource: a closed set deciding which optional
/// fields of the row are meaningful.
#[derive(Clone, Copy, PartialEq, Eq, Structural, Debug)]
pub enum Kind {
    Note,
    File,
    Link,
    Task,
}

/// The textual form of a kind, as the store and its callers exchange it.
pub open spec fn kind_name(k: Kind) -> Seq<char> {
    match k {
        Kind::Note => "note"@,
        Kind::File => "file"@,
        Kind::Link => "link"@,
        Kind::Task => "task"@,
    }
}

impl Kind {
    /// The kind as a fresh `String` with the fixed textual form.
    pub fn as_string(&self) -> (r: String)
        ensures
            r@ == kind_name(*self),
    {
        match self {
            Kind::Note => String::from_str("note"),
            Kind::File => String::from_str("file"),
            Kind::Link => String::from_str("link"),
            Kind::Task => String::from_str("task"),
        }
    }
}

} // verus!
