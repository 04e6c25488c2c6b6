//! Watched files and the content fingerprint used to detect change.

use vstd::prelude::*;
use sha3::{Digest, Sha3_256};

verus! {

/// One watched file as the configuration describes it: its local path and
/// the endpoint of the minion that mirrors it.
pub struct ConfigFile {
    pub path: Vec<u8>,
    pub minion_address: String,
    pub minion_port: u16,
}

/// A watched file with its last-known content fingerprint.  `hash` is
/// `None` until the first read, so the first poll after start always syncs.
pub struct ScanFile {
    pub path: Vec<u8>,
    pub hash: Option<Vec<u8>>,
}

/// The digest that the fingerprint function computes over a byte string.
/// Two byte-identical contents always have the same digest.
pub uninterp spec fn sha3_256_of(bytes: Seq<u8>) -> Seq<u8>;

/// Relies on `sha3::Sha3_256` (through `digest::Digest::digest`): the
/// 32-byte SHA3-256 digest of the input, a function of the input bytes
/// alone.
#[verifier::external_body]
pub(crate) fn sha3_256(content: &[u8]) -> (r: Vec<u8>)
    ensures
        r@ == sha3_256_of(content@),
        r@.len() == 32,
{
    Sha3_256::digest(content).to_vec()
}

impl ScanFile {
    /// Fingerprints `file_content` and records the digest as this file's
    /// last-known fingerprint.
    pub fn hash(&mut self, file_content: &[u8])
        ensures
            final(self).path == old(self).path,
            final(self).hash matches Some(h) && h@ == sha3_256_of(file_content@),
    {
        self.hash = Some(sha3_256(file_content));
    }
}

impl From<ConfigFile> for ScanFile {
    /// A freshly configured file has no fingerprint yet.
    fn from(f: ConfigFile) -> (r: Self) {
        ScanFile { path: f.path, hash: None }
    }
}

impl vstd::std_specs::convert::FromSpecImpl<ConfigFile> for ScanFile {
    open spec fn obeys_from_spec() -> bool {
        true
    }

    open spec fn from_spec(f: ConfigFile) -> Self {
        ScanFile { path: f.path, hash: None }
    }
}

/// Turns the configured file list into the tracking list a freshly started
/// process holds: same paths, in the same order, and no fingerprint yet.
pub(crate) fn scan_files_of(files: Vec<ConfigFile>) -> (r: Vec<ScanFile>)
    ensures
        r@.len() == files@.len(),
        forall|k: int|
            0 <= k < r@.len() ==> {
                &&& (#[trigger] r@[k]).path == files@[k].path
                &&& r@[k].hash is None
            },
{
    let ghost files0: Seq<ConfigFile> = files@;
    let mut files = files;
    let mut scan: Vec<ScanFile> = Vec::new();
    while files.len() > 0
        invariant
            scan@.len() + files@.len() == files0.len(),
            files@ == files0.subrange(scan@.len() as int, files0.len() as int),
            forall|k: int|
                0 <= k < scan@.len() ==> {
                    &&& (#[trigger] scan@[k]).path == files0[k].path
                    &&& scan@[k].hash is None
                },
        decreases files@.len(),
    {
        let ghost done: int = scan@.len() as int;
        let f = files.remove(0);
        proof {
            assert(f == files0[done]);
            assert(files@ =~= files0.subrange(done + 1, files0.len() as int));
        }
        scan.push(ScanFile::from(f));
    }
    scan
}

/// Fingerprint stability: the digest depends on the content bytes alone,
/// so byte-identical contents always fingerprint equal.
pub proof fn lemma_fingerprint_stable(c1: Seq<u8>, c2: Seq<u8>)
    requires
        c1 == c2,
    ensures
        sha3_256_of(c1) == sha3_256_of(c2),
{
}

} // verus!
