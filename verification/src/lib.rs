//! A metadata-driven source generator.
//!
//! Given a snapshot of a type-metadata graph (namespaces, type definitions,
//! fields, constants, attributes), the library builds a namespace tree,
//! classifies each type definition into a structural kind, resolves type
//! references into target-language type expressions, and renders the result
//! through two independent textual backends: a token-oriented source emitter
//! and an interface-description pretty printer.

use vstd::prelude::*;

pub mod cfg;
pub mod enums;
pub mod idl;
pub mod idl_gen;
pub mod meta;
pub mod resolve;
pub mod shape;
pub mod sip;
pub mod text;
pub mod tokens;
pub mod tree;
pub mod writer;

verus! {

/// The failure taxonomy of a generation run. A run either completes an output
/// target fully or aborts with one of these; no partial output is produced.
#[derive(Debug)]
pub enum Error {
    /// A type reference or expression form outside the closed set this
    /// generator understands.
    Unsupported(String),
    /// An unrecognized configuration key supplied by the caller.
    InvalidConfiguration(String),
    /// An empty namespace segment found during tree construction.
    MalformedNamespace(String),
}

/// The mathematical mirror of [`Error`]: each variant carries the view of the
/// context string the executable error holds.
pub enum ErrorV {
    Unsupported(Seq<char>),
    InvalidConfiguration(Seq<char>),
    MalformedNamespace(Seq<char>),
}

impl View for Error {
    type V = ErrorV;

    open spec fn view(&self) -> ErrorV {
        match self {
            Error::Unsupported(s) => ErrorV::Unsupported(s@),
            Error::InvalidConfiguration(s) => ErrorV::InvalidConfiguration(s@),
            Error::MalformedNamespace(s) => ErrorV::MalformedNamespace(s@),
        }
    }
}

impl Error {
    /// The human-readable description of the failure, carrying enough context
    /// (the offending type, configuration key, or namespace) to diagnose it.
    pub fn message(&self) -> (r: String)
        ensures
            r@ == self.spec_message(),
    {
        match self {
            Error::Unsupported(s) => {
                let mut m = String::new();
                m.append("unsupported: ");
                m.append(s.as_str());
                m
            },
            Error::InvalidConfiguration(s) => {
                let mut m = String::new();
                m.append("invalid configuration value: `");
                m.append(s.as_str());
                m.append("`");
                m
            },
            Error::MalformedNamespace(s) => {
                let mut m = String::new();
                m.append("malformed namespace: `");
                m.append(s.as_str());
                m.append("`");
                m
            },
        }
    }

    pub open spec fn spec_message(&self) -> Seq<char> {
        match self {
            Error::Unsupported(s) => "unsupported: "@ + s@,
            Error::InvalidConfiguration(s) => "invalid configuration value: `"@ + s@ + "`"@,
            Error::MalformedNamespace(s) => "malformed namespace: `"@ + s@ + "`"@,
        }
    }
}

} // verus!
