//! Keeps delimited regions of text files in sync between a master process
//! and minion processes.  A file is a template: text between a configured
//! pair of markers is a synchronizable block, everything else is immutable
//! structure.  This crate holds the verified core: block extraction and
//! substitution, content fingerprinting for change detection, and the
//! routing decisions of master and minion.  All file contents, paths and
//! markers are handled as byte strings.

use vstd::prelude::*;

pub mod configuration;
pub mod extractor;
pub mod file;
pub mod master;
pub mod minion;

verus! {

/// The unit of data sent from master to minion for one file: the file's
/// identifier (its path, as bytes) and the ordered bodies of its blocks.
pub struct SyncFilePacket {
    pub path: Vec<u8>,
    pub blocks: Vec<Vec<u8>>,
}

/// The error taxonomy of the crate.  Setup errors (`Master`, `Minion`) are
/// fatal at construction; `TagMismatch` and `ReplacementCount` abort a single
/// substitution; `FileRead` and `FileWrite` stand for per-file I/O failures
/// reported by the surrounding process.
#[derive(Clone, Copy, Debug, PartialEq, Eq, Structural)]
pub enum Error {
    /// A watched file could not be read.
    FileRead,
    /// A watched file could not be written.
    FileWrite,
    /// An open marker had no matching close marker during substitution.
    TagMismatch,
    /// Fewer replacement blocks were supplied than marker pairs found.
    ReplacementCount,
    /// The configuration does not describe a master process.
    Master,
    /// The configuration does not describe a minion process.
    Minion,
}

impl Error {
    /// A human-readable description of the error, for the process
    /// boundary to report.
    pub fn describe(&self) -> (r: &'static str)
        ensures
            self is FileRead ==> r@ == "Error reading from a watched file"@,
            self is FileWrite ==> r@ == "Error writing to a watched file"@,
            self is TagMismatch ==> r@ == "Failed to find closing tag"@,
            self is ReplacementCount ==> r@ == "Fewer replacement blocks than tag pairs"@,
            self is Master ==> r@ == "Config file does not specify master mode"@,
            self is Minion ==> r@ == "Config file does not specify minion mode"@,
    {
        match self {
            Error::FileRead => "Error reading from a watched file",
            Error::FileWrite => "Error writing to a watched file",
            Error::TagMismatch => "Failed to find closing tag",
            Error::ReplacementCount => "Fewer replacement blocks than tag pairs",
            Error::Master => "Config file does not specify master mode",
            Error::Minion => "Config file does not specify minion mode",
        }
    }
}

/// Compares two byte vectors for equality of contents.
pub(crate) fn bytes_eq(a: &Vec<u8>, b: &Vec<u8>) -> (r: bool)
    ensures
        r == (a@ == b@),
{
    if a.len() != b.len() {
        return false;
    }
    let mut idx: usize = 0;
    while idx < a.len()
        invariant
            idx <= a@.len(),
            a@.len() == b@.len(),
            forall|t: int| 0 <= t < idx ==> a@[t] == b@[t],
        decreases a@.len() - idx,
    {
        if a[idx] != b[idx] {
            return false;
        }
        idx += 1;
    }
    proof {
        assert(a@ =~= b@);
    }
    true
}

/// Copies a byte vector.
pub(crate) fn clone_bytes(v: &Vec<u8>) -> (r: Vec<u8>)
    ensures
        r@ == v@,
{
    let mut r: Vec<u8> = Vec::new();
    let mut idx: usize = 0;
    while idx < v.len()
        invariant
            idx <= v@.len(),
            r@ == v@.subrange(0, idx as int),
        decreases v@.len() - idx,
    {
        r.push(v[idx]);
        proof {
            assert(v@.subrange(0, idx + 1 as int) =~= v@.subrange(0, idx as int).push(
                v@[idx as int],
            ));
        }
        idx += 1;
    }
    proof {
        assert(v@.subrange(0, v@.len() as int) =~= v@);
    }
    r
}

} // verus!
