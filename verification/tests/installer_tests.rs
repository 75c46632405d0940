use installer::headers::RespHeaders;
use installer::installer::{
    creates_author_dir, find_subslice, rom_dir_work, rom_dirs, Action, Installer, FLUSH_EVERY, KB,
};
use sha2::{Digest, Sha256};

fn headers() -> RespHeaders {
    RespHeaders {
        protocol: 1,
        author_id: "lux".to_string(),
        app_id: "snek".to_string(),
        today: (2024, 5, 17),
        expected_size: 0,
    }
}

/// An installer that has read the response head already.
fn receiving() -> Installer {
    let mut inst = Installer::new();
    inst.headers = Some(headers());
    inst
}

fn record(name: &str, body: &[u8]) -> Vec<u8> {
    let mut out = Vec::new();
    out.extend_from_slice(&(name.len() as u32).to_le_bytes());
    out.extend_from_slice(name.as_bytes());
    out.extend_from_slice(&(body.len() as u32).to_le_bytes());
    out.extend_from_slice(body);
    out
}

/// Each action as its kind, path and content.
fn describe(acts: &[Action]) -> Vec<(&'static str, String, Vec<u8>)> {
    acts.iter()
        .map(|a| match a {
            Action::CreateRomDir { author_id, app_id } => ("mkdir", format!("{author_id}/{app_id}"), vec![]),
            Action::DumpFile { path, content } => ("dump", path.clone(), content.clone()),
            Action::AppendFile { path, content } => ("append", path.clone(), content.clone()),
        })
        .collect()
}

/// The ROM hash of these files: each name between zero bytes, then the body.
fn digest(files: &[(&str, &[u8])]) -> Vec<u8> {
    let mut h = Sha256::new();
    for (name, body) in files {
        h.update([0u8]);
        h.update(name.as_bytes());
        h.update([0u8]);
        h.update(body);
    }
    h.finalize().to_vec()
}

fn feed(inst: &mut Installer, chunk: &[u8]) -> Vec<(&'static str, String, Vec<u8>)> {
    match inst.update(chunk) {
        Ok(acts) => describe(&acts),
        Err(e) => panic!("unexpected error: {e}"),
    }
}

#[test]
fn constants() {
    assert_eq!(KB, 1024);
    assert_eq!(FLUSH_EVERY, 65536);
}

#[test]
fn find_subslice_finds_first_occurrence() {
    assert_eq!(find_subslice(b"abc\r\n\r\nxyz\r\n\r\n", b"\r\n\r\n"), Some(3));
    assert_eq!(find_subslice(b"\r\n\r\n", b"\r\n\r\n"), Some(0));
    assert_eq!(find_subslice(b"abc\r\n\r", b"\r\n\r\n"), None);
    assert_eq!(find_subslice(b"ab", b"abc"), None);
    assert_eq!(find_subslice(b"", b"a"), None);
    assert_eq!(find_subslice(b"aab", b"ab"), Some(1));
}

#[test]
fn new_installer_is_not_done() {
    let inst = Installer::new();
    assert!(inst.headers.is_none());
    assert_eq!(inst.received_size, 0);
    assert!(!inst.has_manual());
    assert!(!inst.done());
}

#[test]
fn incomplete_head_waits() {
    let mut inst = Installer::new();
    assert!(feed(&mut inst, b"HTTP/1.1 200 OK\r\nX-F0-").is_empty());
    assert!(inst.headers.is_none());
    assert!(!inst.done());
}

#[test]
fn head_without_protocol_fails() {
    let mut inst = Installer::new();
    let r = inst.update(b"HTTP/1.1 200 OK\r\nContent-Type: x\r\n\r\n");
    assert_eq!(r.err(), Some("protocol not specified"));
}

const HEAD: &[u8] = b"HTTP/1.1 200 OK\r\nX-F0-Protocol: 1\r\nX-F0-Author-Id: lux\r\nX-F0-App-Id: snek\r\nX-F0-Today: 2024-06-01\r\nX-F0-Expected-Size: 3\r\n\r\n";

#[test]
fn head_then_files_installs() {
    let mut inst = Installer::new();
    let mut stream = HEAD.to_vec();
    stream.extend(record("_bin", b"abc"));
    let acts = feed(&mut inst, &stream);
    assert_eq!(
        acts,
        vec![
            ("mkdir", "lux/snek".to_string(), vec![]),
            ("dump", "roms/lux/snek/_bin".to_string(), b"abc".to_vec()),
        ]
    );
    assert_eq!(inst.get_id(), ("lux", "snek"));
    assert_eq!(inst.today(), (2024, 6, 1));
    assert_eq!(inst.received_size, 3);
    assert!(inst.done());
}

#[test]
fn head_split_across_chunks() {
    let mut inst = Installer::new();
    let mut stream = HEAD.to_vec();
    stream.extend(record("_bin", b"abc"));
    let mut acts = Vec::new();
    for part in stream.chunks(5) {
        acts.extend(feed(&mut inst, part));
    }
    assert_eq!(acts.len(), 2);
    assert_eq!(acts[0].0, "mkdir");
    assert_eq!(acts[1], ("dump", "roms/lux/snek/_bin".to_string(), b"abc".to_vec()));
}

#[test]
fn bad_head_fails() {
    let mut inst = Installer::new();
    let r = inst.update(b"HTTP/1.1 200 OK\r\nX-F0-Protocol: 2\r\n\r\n");
    assert_eq!(r.err(), Some("unsupported protocol"));
    assert!(inst.headers.is_none());
}

#[test]
fn single_file_is_dumped() {
    let mut inst = receiving();
    let acts = feed(&mut inst, &record("_bin", &[1, 2, 3]));
    assert_eq!(acts, vec![("dump", "roms/lux/snek/_bin".to_string(), vec![1, 2, 3])]);
    assert_eq!(inst.received_size, 3);
    assert!(inst.done());
}

#[test]
fn empty_file_is_dumped_empty() {
    let mut inst = receiving();
    let acts = feed(&mut inst, &record("_meta", &[]));
    assert_eq!(acts, vec![("dump", "roms/lux/snek/_meta".to_string(), vec![])]);
    assert_eq!(inst.received_size, 0);
}

#[test]
fn several_files_in_order() {
    let mut inst = receiving();
    let mut stream = record("_bin", b"code");
    stream.extend(record("_meta", b"meta"));
    let acts = feed(&mut inst, &stream);
    assert_eq!(
        acts,
        vec![
            ("dump", "roms/lux/snek/_bin".to_string(), b"code".to_vec()),
            ("dump", "roms/lux/snek/_meta".to_string(), b"meta".to_vec()),
        ]
    );
    assert_eq!(inst.received_size, 8);
}

#[test]
fn partial_record_waits_for_more() {
    let mut inst = receiving();
    let stream = record("_bin", b"abcdef");
    assert!(feed(&mut inst, &stream[..3]).is_empty());
    assert!(feed(&mut inst, &stream[3..10]).is_empty());
    assert!(!inst.done());
    let acts = feed(&mut inst, &stream[10..]);
    assert_eq!(acts, vec![("dump", "roms/lux/snek/_bin".to_string(), b"abcdef".to_vec())]);
}

#[test]
fn large_body_is_flushed_in_parts() {
    let body: Vec<u8> = (0..70_000u32).map(|i| (i % 251) as u8).collect();
    let mut inst = receiving();
    let acts = feed(&mut inst, &record("_bin", &body));
    assert_eq!(acts.len(), 2);
    assert_eq!(acts[0].0, "dump");
    assert_eq!(acts[0].2, body[..65536].to_vec());
    assert_eq!(acts[1].0, "append");
    assert_eq!(acts[1].1, "roms/lux/snek/_bin");
    assert_eq!(acts[1].2, body[65536..].to_vec());
    assert_eq!(inst.received_size, 70_000);
}

#[test]
fn large_body_waits_until_a_full_part_arrived() {
    let body = vec![7u8; 65_537];
    let stream = record("_bin", &body);
    let mut inst = receiving();
    // Header of the record and less than 64 KB of the body: nothing yet.
    assert!(feed(&mut inst, &stream[..4 + 4 + 4 + 1000]).is_empty());
    let acts = feed(&mut inst, &stream[4 + 4 + 4 + 1000..]);
    assert_eq!(acts.len(), 2);
    assert_eq!(acts[0].2.len(), 65536);
    assert_eq!(acts[1], ("append", "roms/lux/snek/_bin".to_string(), vec![7u8]));
}

#[test]
fn chunking_does_not_change_the_outcome() {
    let mut stream = record("_bin", b"0123456789");
    stream.extend(record("_manual", b"read me"));
    stream.extend(record("_hash", &[9; 32]));

    let mut whole = receiving();
    let all_at_once = feed(&mut whole, &stream);

    let mut bytewise = receiving();
    let mut one_by_one = Vec::new();
    for b in &stream {
        one_by_one.extend(feed(&mut bytewise, &[*b]));
    }
    assert_eq!(all_at_once, one_by_one);
    assert_eq!(whole.received_size, bytewise.received_size);
    assert_eq!(whole.has_manual(), bytewise.has_manual());
    let expected = digest(&[("_bin", &b"0123456789"[..]), ("_manual", &b"read me"[..])]);
    assert!(whole.check_hash(&expected));
    assert!(bytewise.check_hash(&expected));
}

#[test]
fn manual_is_noticed() {
    let mut inst = receiving();
    feed(&mut inst, &record("_bin", b"x"));
    assert!(!inst.has_manual());
    feed(&mut inst, &record("_manual", b"how to play"));
    assert!(inst.has_manual());
}

#[test]
fn hash_covers_names_and_bodies_but_not_the_hash_file() {
    let mut inst = receiving();
    let mut stream = record("_bin", b"code");
    stream.extend(record("_hash", &[0xaa; 32]));
    stream.extend(record("_meta", b"meta"));
    feed(&mut inst, &stream);

    let expected = digest(&[("_bin", &b"code"[..]), ("_meta", &b"meta"[..])]);

    assert!(inst.check_hash(&expected));
    // The hash starts over after a check.
    assert!(!inst.check_hash(&expected));
    let empty = Sha256::new().finalize().to_vec();
    let mut again = receiving();
    assert!(again.check_hash(&empty));
}

#[test]
fn wrong_hash_is_rejected() {
    let mut inst = receiving();
    feed(&mut inst, &record("_bin", b"code"));
    assert!(!inst.check_hash(&[0u8; 32]));
    assert!(!inst.check_hash(b"short"));
}

#[test]
fn ids_and_date_come_from_the_headers() {
    let inst = receiving();
    assert_eq!(inst.get_id(), ("lux", "snek"));
    assert_eq!(inst.today(), (2024, 5, 17));
}

#[test]
fn done_waits_for_the_expected_size() {
    let mut inst = Installer::new();
    let mut h = headers();
    h.expected_size = 5;
    inst.headers = Some(h);
    feed(&mut inst, &record("_bin", b"abc"));
    assert!(!inst.done());
    feed(&mut inst, &record("_meta", b"de"));
    assert!(inst.done());
}

#[test]
fn rom_dirs_paths() {
    let d = rom_dirs("lux", "snek");
    assert_eq!(d.author_path, "roms/lux");
    assert_eq!(d.rom_path, "roms/lux/snek");
    assert_eq!(d.bin_path, "roms/lux/snek/_bin");
}

#[test]
fn author_dir_is_created_unless_sys() {
    assert!(creates_author_dir("roms/lux"));
    assert!(creates_author_dir("roms/sys"));
    assert!(!creates_author_dir("sys"));
}

#[test]
fn can_take_guards_the_received_count() {
    let mut inst = receiving();
    assert!(inst.can_take(10));
    assert!(inst.can_take(u32::MAX as usize));
    assert!(!inst.can_take(u32::MAX as usize + 1));
    feed(&mut inst, &record("_bin", b"abc"));
    assert!(inst.can_take(u32::MAX as usize - 3));
    assert!(!inst.can_take(u32::MAX as usize - 2));
    // Buffered bytes count too.
    feed(&mut inst, &[1, 0]);
    assert!(!inst.can_take(u32::MAX as usize - 4));
    assert!(inst.can_take(u32::MAX as usize - 5));
}

#[test]
fn rom_dir_work_always_ends_with_an_empty_rom_dir() {
    let old = rom_dir_work(rom_dirs("lux", "snek"), 10);
    assert!(old.create.is_empty());
    assert_eq!(old.clear, "roms/lux/snek");
    let new = rom_dir_work(rom_dirs("lux", "snek"), 0);
    assert_eq!(new.create, vec!["roms/lux".to_string(), "roms/lux/snek".to_string()]);
    assert_eq!(new.clear, "roms/lux/snek");
}
