use thesamo::configuration::{Config, Network};
use thesamo::extractor::FileTags;
use thesamo::file::{ConfigFile, ScanFile};
use thesamo::master::{poll_file, Master};
use thesamo::minion::Minion;
use thesamo::{Error, SyncFilePacket};

fn tags() -> FileTags {
    FileTags::new(b"%%>".to_vec(), b"<%%".to_vec())
}

fn config(master: bool, minion: bool) -> Config {
    Config {
        master,
        minion,
        open_tag: b"%%>".to_vec(),
        close_tag: b"<%%".to_vec(),
        network: Network { bind_port: 7878, bind_address: String::from("127.0.0.1") },
        files: vec![
            ConfigFile {
                path: b"/etc/app/one.conf".to_vec(),
                minion_address: String::from("127.0.0.1"),
                minion_port: 7878,
            },
            ConfigFile {
                path: b"/etc/app/two.conf".to_vec(),
                minion_address: String::from("127.0.0.1"),
                minion_port: 7878,
            },
        ],
        polling_freq: None,
    }
}

#[test]
fn master_from_config_requires_the_master_role() {
    assert!(matches!(Master::from_config(config(true, true)), Err(Error::Master)));
    assert!(matches!(Master::from_config(config(false, false)), Err(Error::Master)));
    let master = Master::from_config(config(true, false)).unwrap();
    assert_eq!(master.files.len(), 2);
    assert!(master.files.iter().all(|f| f.hash.is_none()));
    assert_eq!(master.polling_freq, 60);
}

#[test]
fn minion_from_config_requires_the_minion_role() {
    assert!(matches!(Minion::from_config(config(true, false)), Err(Error::Minion)));
    let minion = Minion::from_config(config(false, true)).unwrap();
    assert_eq!(minion.files.len(), 2);
}

#[test]
fn first_poll_always_dispatches() {
    let mut file = ScanFile { path: b"/etc/app/one.conf".to_vec(), hash: None };
    let packet = poll_file(&mut file, b"a%%>body<%%b", &tags());
    let packet = packet.expect("first poll must dispatch");
    assert_eq!(packet.path, b"/etc/app/one.conf".to_vec());
    assert_eq!(packet.blocks, vec![b"body".to_vec()]);
    assert!(file.hash.is_some());
}

#[test]
fn unchanged_fingerprint_skips_the_dispatch() {
    let mut file = ScanFile { path: b"/etc/app/one.conf".to_vec(), hash: None };
    let content = b"a%%>body<%%b";
    assert!(poll_file(&mut file, content, &tags()).is_some());
    assert!(poll_file(&mut file, content, &tags()).is_none());
    assert!(poll_file(&mut file, content, &tags()).is_none());
}

#[test]
fn only_the_changed_file_is_dispatched() {
    let mut master = Master::from_config(config(true, false)).unwrap();
    let contents_first = [b"one %%>A<%% one".to_vec(), b"two %%>B<%% two".to_vec()];
    let mut sent: Vec<SyncFilePacket> = Vec::new();
    for (file, content) in master.files.iter_mut().zip(contents_first.iter()) {
        if let Some(p) = poll_file(file, content, &master.tags) {
            sent.push(p);
        }
    }
    assert_eq!(sent.len(), 2);

    let contents_second = [b"one %%>A<%% one".to_vec(), b"two %%>C<%% two".to_vec()];
    let mut sent: Vec<SyncFilePacket> = Vec::new();
    for (file, content) in master.files.iter_mut().zip(contents_second.iter()) {
        if let Some(p) = poll_file(file, content, &master.tags) {
            sent.push(p);
        }
    }
    assert_eq!(sent.len(), 1);
    assert_eq!(sent[0].path, b"/etc/app/two.conf".to_vec());
    assert_eq!(sent[0].blocks, vec![b"C".to_vec()]);
}

#[test]
fn packet_for_an_unwatched_file_matches_nothing() {
    let minion = Minion::from_config(config(false, true)).unwrap();
    assert!(minion.find_target(b"/etc/app/other.conf").is_none());
    assert!(minion.find_target(b"").is_none());
}

#[test]
fn packets_are_routed_by_filename_only() {
    let minion = Minion::from_config(config(false, true)).unwrap();
    assert_eq!(minion.find_target(b"/somewhere/else/two.conf"), Some(1));
    assert_eq!(minion.find_target(b"one.conf"), Some(0));
    assert_eq!(minion.find_target(b"/etc/app/one.conf"), Some(0));
}

#[test]
fn applying_a_packet_splices_its_blocks() {
    let minion = Minion::from_config(config(false, true)).unwrap();
    let packet = SyncFilePacket {
        path: b"/etc/app/one.conf".to_vec(),
        blocks: vec![b"NEW".to_vec()],
    };
    let out = minion.apply_packet(&packet, b"head %%>OLD<%% tail").unwrap();
    assert_eq!(out, b"head %%>NEW<%% tail".to_vec());

    let bad = minion.apply_packet(&packet, b"head %%>OLD tail");
    assert_eq!(bad, Err(Error::TagMismatch));
}

#[test]
fn every_error_has_a_description() {
    let errors = [
        Error::FileRead,
        Error::FileWrite,
        Error::TagMismatch,
        Error::ReplacementCount,
        Error::Master,
        Error::Minion,
    ];
    let texts: Vec<&str> = errors.iter().map(|e| e.describe()).collect();
    assert_eq!(texts[2], "Failed to find closing tag");
    for (i, a) in texts.iter().enumerate() {
        for (j, b) in texts.iter().enumerate() {
            assert_eq!(i == j, a == b);
        }
    }
}
