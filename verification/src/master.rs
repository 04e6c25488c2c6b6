//! The master role: the side that reads the source files and pushes
//! changed blocks outward.  The decisions of a poll cycle live here; the
//! surrounding process performs the reads, the dispatch and the sleep.

use vstd::prelude::*;
use crate::configuration::Config;
use crate::extractor::{extract_body_from_tags, extract_spec, FileTags};
use crate::file::{scan_files_of, sha3_256, sha3_256_of, ScanFile};
use crate::{bytes_eq, clone_bytes, Error, SyncFilePacket};

verus! {

/// The master's state: the watched files with their last-known
/// fingerprints, the minion endpoint, the marker pair and the poll
/// interval.
pub struct Master {
    pub files: Vec<ScanFile>,
    pub address: String,
    pub port: u16,
    pub tags: FileTags,
    pub polling_freq: u32,
}

impl Master {
    /// Validates the configured role and builds the master's state.  The
    /// configuration must mark the process as a master and not as a
    /// minion; anything else is a setup error.  Every watched file starts
    /// without a fingerprint, so the first poll syncs unconditionally.
    pub fn from_config(config: Config) -> (r: Result<Master, Error>)
        requires
            config.wf_tags(),
        ensures
            match r {
                Ok(m) => {
                    &&& !config.minion && config.master
                    &&& m.tags.open_tag@ == config.open_tag@
                    &&& m.tags.close_tag@ == config.close_tag@
                    &&& m.tags.wf()
                    &&& m.files@.len() == config.files@.len()
                    &&& forall|k: int|
                        0 <= k < m.files@.len() ==> {
                            &&& (#[trigger] m.files@[k]).path == config.files@[k].path
                            &&& m.files@[k].hash is None
                        }
                    &&& m.polling_freq == (match config.polling_freq {
                        Some(f) => f,
                        None => 60u32,
                    })
                    &&& m.address == config.network.bind_address
                    &&& m.port == config.network.bind_port
                },
                Err(e) => e == Error::Master && (config.minion || !config.master),
            },
    {
        if config.minion {
            return Err(Error::Master);
        }
        if !config.master {
            return Err(Error::Master);
        }
        let Config { open_tag, close_tag, network, files, polling_freq, .. } = config;
        let polling_freq = match polling_freq {
            Some(f) => f,
            None => 60,
        };
        Ok(
            Master {
                files: scan_files_of(files),
                address: network.bind_address,
                port: network.bind_port,
                tags: FileTags::new(open_tag, close_tag),
                polling_freq,
            },
        )
    }
}

/// One file's share of a poll cycle, once its content has been read:
/// fingerprints the content, records the fingerprint, and decides whether
/// to dispatch.  Returns `None` — no packet, the change-skip case — if and
/// only if the file already had a fingerprint and it equals the new one;
/// otherwise returns the packet to send, holding the file's path and its
/// extracted blocks.
pub fn poll_file(file: &mut ScanFile, file_content: &[u8], tags: &FileTags) -> (r: Option<
    SyncFilePacket,
>)
    requires
        tags.wf(),
    ensures
        final(file).path == old(file).path,
        final(file).hash matches Some(h) && h@ == sha3_256_of(file_content@),
        r is None <==> (old(file).hash matches Some(h0) && h0@ == sha3_256_of(file_content@)),
        r matches Some(p) ==> {
            &&& p.path@ == old(file).path@
            &&& p.blocks.deep_view() == extract_spec(file_content@, *tags)
        },
{
    let digest = sha3_256(file_content);
    let unchanged = match &file.hash {
        Some(h0) => bytes_eq(h0, &digest),
        None => false,
    };
    file.hash = Some(digest);
    if unchanged {
        None
    } else {
        let blocks = extract_body_from_tags(file_content, tags);
        let path = clone_bytes(&file.path);
        Some(SyncFilePacket { path, blocks })
    }
}

} // verus!
