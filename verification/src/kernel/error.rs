//! Typed kernel failures.

use vstd::prelude::*;

use crate::text::concat;

verus! {

#[derive(Debug, Clone, Copy, PartialEq, Eq, Structural)]
pub enum KernelErrorKind {
    InvalidInput,
    Parse,
    Geometry,
    Unsupported,
}

impl KernelErrorKind {
    pub open spec fn message(self) -> Seq<char> {
        match self {
            KernelErrorKind::InvalidInput => "invalid input"@,
            KernelErrorKind::Parse => "parse failure"@,
            KernelErrorKind::Geometry => "geometry operation failure"@,
            KernelErrorKind::Unsupported => "operation unsupported by this kernel"@,
        }
    }

    /// Human-readable description of the kind.
    pub fn to_string(&self) -> (s: String)
        ensures
            s@ == self.message(),
    {
        let msg = match self {
            KernelErrorKind::InvalidInput => "invalid input",
            KernelErrorKind::Parse => "parse failure",
            KernelErrorKind::Geometry => "geometry operation failure",
            KernelErrorKind::Unsupported => "operation unsupported by this kernel",
        };
        msg.to_owned()
    }
}

#[derive(Debug, Clone, PartialEq, Eq)]
pub struct KernelError {
    pub kind: KernelErrorKind,
    pub message: String,
}

impl KernelError {
    pub fn new(kind: KernelErrorKind, message: &str) -> (e: Self)
        ensures
            e.kind == kind,
            e.message@ == message@,
    {
        KernelError { kind, message: message.to_owned() }
    }

    pub fn geometry(message: &str) -> (e: Self)
        ensures
            e.kind == KernelErrorKind::Geometry,
            e.message@ == message@,
    {
        Self::new(KernelErrorKind::Geometry, message)
    }

    pub fn parse(message: &str) -> (e: Self)
        ensures
            e.kind == KernelErrorKind::Parse,
            e.message@ == message@,
    {
        Self::new(KernelErrorKind::Parse, message)
    }

    pub fn invalid_input(message: &str) -> (e: Self)
        ensures
            e.kind == KernelErrorKind::InvalidInput,
            e.message@ == message@,
    {
        Self::new(KernelErrorKind::InvalidInput, message)
    }

    /// `<kind>: <message>`.
    pub fn to_string(&self) -> (s: String)
        ensures
            s@ == self.kind.message() + ": "@ + self.message@,
    {
        let kind = self.kind.to_string();
        let head = concat(kind.as_str(), ": ");
        concat(head.as_str(), self.message.as_str())
    }
}

} // verus!
