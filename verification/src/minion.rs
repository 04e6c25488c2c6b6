//! The minion role: the side that receives sync packets and splices their
//! blocks into its local files.  The routing and substitution decisions
//! live here; the surrounding process accepts connections, decodes
//! packets, and reads and rewrites the files.

use vstd::prelude::*;
use crate::configuration::Config;
use crate::extractor::{replace_in_tags, replace_spec, FileTags, Replaced};
use crate::file::{scan_files_of, ScanFile};
use crate::{bytes_eq, Error, SyncFilePacket};

verus! {

/// The position right after the last path separator of `p`: `k` starts
/// the last `/`-separated component.
pub open spec fn basename_split(p: Seq<u8>, k: int) -> bool {
    &&& 0 <= k <= p.len()
    &&& (k == 0 || p[k - 1] == 47)
    &&& forall|t: int| k <= t < p.len() ==> p[t] != 47
}

/// Where the last `/`-separated component of `p` starts.
pub open spec fn basename_start(p: Seq<u8>) -> int {
    choose|k: int| basename_split(p, k)
}

/// The last `/`-separated component of a path: the file's own name,
/// without its directories.
pub open spec fn basename(p: Seq<u8>) -> Seq<u8> {
    p.skip(basename_start(p))
}

/// There is only one position that starts the last component.
proof fn lemma_basename_split_unique(p: Seq<u8>, k1: int, k2: int)
    requires
        basename_split(p, k1),
        basename_split(p, k2),
    ensures
        k1 == k2,
{
    if k1 < k2 {
        assert(p[k2 - 1] == 47);
        assert(p[k2 - 1] != 47);
    }
    if k2 < k1 {
        assert(p[k1 - 1] == 47);
        assert(p[k1 - 1] != 47);
    }
}

/// Computes the basename of a `/`-separated path.
pub fn path_basename(p: &[u8]) -> (r: Vec<u8>)
    ensures
        r@ == basename(p@),
{
    let n: usize = p.len();
    let mut k: usize = n;
    while k > 0 && p[k - 1] != 47
        invariant
            k <= n,
            n == p@.len(),
            forall|t: int| k <= t < n ==> p@[t] != 47,
        decreases k,
    {
        k -= 1;
    }
    proof {
        assert(basename_split(p@, k as int));
        assert(basename_split(p@, basename_start(p@)));
        lemma_basename_split_unique(p@, basename_start(p@), k as int);
    }
    let mut r: Vec<u8> = Vec::new();
    let mut idx: usize = k;
    while idx < n
        invariant
            k <= idx <= n,
            n == p@.len(),
            r@ == p@.subrange(k as int, idx as int),
        decreases n - idx,
    {
        r.push(p[idx]);
        proof {
            assert(p@.subrange(k as int, idx + 1 as int) =~= p@.subrange(k as int, idx as int).push(
                p@[idx as int],
            ));
        }
        idx += 1;
    }
    proof {
        assert(p@.skip(k as int) =~= p@.subrange(k as int, n as int));
    }
    r
}

/// The minion's state: the local files it may rewrite and the marker
/// pair it splices with.
pub struct Minion {
    pub files: Vec<ScanFile>,
    pub tags: FileTags,
}

impl Minion {
    /// Validates the configured role and builds the minion's state.  The
    /// configuration must mark the process as a minion; anything else is
    /// a setup error.
    pub fn from_config(config: Config) -> (r: Result<Minion, Error>)
        requires
            config.wf_tags(),
        ensures
            match r {
                Ok(m) => {
                    &&& config.minion
                    &&& m.tags.open_tag@ == config.open_tag@
                    &&& m.tags.close_tag@ == config.close_tag@
                    &&& m.tags.wf()
                    &&& m.files@.len() == config.files@.len()
                    &&& forall|k: int|
                        0 <= k < m.files@.len() ==> (#[trigger] m.files@[k]).path
                            == config.files@[k].path
                },
                Err(e) => e == Error::Minion && !config.minion,
            },
    {
        if !config.minion {
            return Err(Error::Minion);
        }
        let Config { open_tag, close_tag, files, .. } = config;
        Ok(Minion { files: scan_files_of(files), tags: FileTags::new(open_tag, close_tag) })
    }

    /// Routes a packet to a local file: the index of the first watched
    /// file whose filename (last path component only) equals the packet
    /// path's filename.  Returns `None` — the packet is not for this
    /// minion, and no file is touched — if and only if no watched file
    /// matches.
    pub fn find_target(&self, packet_path: &[u8]) -> (r: Option<usize>)
        ensures
            match r {
                Some(idx) => {
                    &&& idx < self.files@.len()
                    &&& basename(self.files@[idx as int].path@) == basename(packet_path@)
                    &&& forall|k: int|
                        0 <= k < idx ==> basename((#[trigger] self.files@[k]).path@) != basename(
                            packet_path@,
                        )
                },
                None => forall|k: int|
                    0 <= k < self.files@.len() ==> basename((#[trigger] self.files@[k]).path@)
                        != basename(packet_path@),
            },
    {
        let target = path_basename(packet_path);
        let mut idx: usize = 0;
        while idx < self.files.len()
            invariant
                idx <= self.files@.len(),
                target@ == basename(packet_path@),
                forall|k: int|
                    0 <= k < idx ==> basename((#[trigger] self.files@[k]).path@) != basename(
                        packet_path@,
                    ),
            decreases self.files@.len() - idx,
        {
            let fb = path_basename(self.files[idx].path.as_slice());
            if bytes_eq(&fb, &target) {
                return Some(idx);
            }
            idx += 1;
        }
        None
    }

    /// The substitution step for a packet aimed at one of this minion's
    /// files: splices the packet's blocks into the file's current
    /// content.  On failure the caller must leave the file untouched.
    pub fn apply_packet(&self, packet: &SyncFilePacket, file_content: &[u8]) -> (r: Result<
        Vec<u8>,
        Error,
    >)
        requires
            self.tags.wf(),
        ensures
            match r {
                Ok(out) => replace_spec(file_content@, packet.blocks.deep_view(), self.tags)
                    == Replaced::Done(out@),
                Err(e) => {
                    &&& (e == Error::TagMismatch <==> replace_spec(
                        file_content@,
                        packet.blocks.deep_view(),
                        self.tags,
                    ) is Mismatch)
                    &&& (e == Error::ReplacementCount <==> replace_spec(
                        file_content@,
                        packet.blocks.deep_view(),
                        self.tags,
                    ) is TooFew)
                    &&& (e == Error::TagMismatch || e == Error::ReplacementCount)
                },
            },
    {
        let blocks = packet.blocks.as_slice();
        proof {
            assert(blocks.deep_view() =~~= packet.blocks.deep_view());
        }
        replace_in_tags(file_content, blocks, &self.tags)
    }
}

} // verus!
