use std::collections::HashMap;

use firefly_types::{BadgeProgress, Encode, Stats};
use installer::finalize::{Finalizer, FsReply, FsRequest};
use installer::headers::RespHeaders;
use installer::installer::{Action, Installer};
use sha2::{Digest, Sha256};

/// A file system in memory, with switches to make some operations fail.
#[derive(Default)]
struct Fs {
    files: HashMap<String, Vec<u8>>,
    dirs: Vec<String>,
    read_only_data: bool,
    sticky_tmp: bool,
    sticky_cache: bool,
    requests: Vec<String>,
}

impl Fs {
    fn apply(&mut self, act: Action) {
        match act {
            Action::CreateRomDir { author_id, app_id } => self.dirs.push(format!("roms/{author_id}/{app_id}")),
            Action::DumpFile { path, content } => {
                self.files.insert(path, content);
            }
            Action::AppendFile { path, content } => self.files.entry(path).or_default().extend(content),
        }
    }

    fn size(&self, path: &str) -> usize {
        self.files.get(path).map_or(0, Vec::len)
    }

    /// Performs a request; `Err` carries the outcome of a finished run.
    fn perform(&mut self, req: FsRequest) -> Result<FsReply, Result<(), &'static str>> {
        match req {
            FsRequest::FileSize(p) => {
                self.requests.push(format!("size {p}"));
                Ok(FsReply::Size(self.size(&p)))
            }
            FsRequest::LoadFile(p) => {
                self.requests.push(format!("load {p}"));
                Ok(FsReply::Loaded(self.files.get(&p).cloned()))
            }
            FsRequest::CreateDir(p) => {
                self.requests.push(format!("mkdir {p}"));
                self.dirs.push(p);
                Ok(FsReply::Done)
            }
            FsRequest::DumpFile(p, c) => {
                self.requests.push(format!("dump {p}"));
                if !(self.read_only_data && p.starts_with("data/")) {
                    self.files.insert(p, c);
                }
                Ok(FsReply::Done)
            }
            FsRequest::RemoveFile(p) => {
                self.requests.push(format!("remove {p}"));
                let sticky = (self.sticky_tmp && p.ends_with("/_tmp")) || (self.sticky_cache && p.ends_with("/metas"));
                if !sticky {
                    self.files.remove(&p);
                }
                Ok(FsReply::Done)
            }
            FsRequest::Finish(r) => Err(r),
        }
    }
}

fn headers() -> RespHeaders {
    RespHeaders {
        protocol: 1,
        author_id: "lux".to_string(),
        app_id: "snek".to_string(),
        today: (2024, 5, 17),
        expected_size: 0,
    }
}

fn record(name: &str, body: &[u8]) -> Vec<u8> {
    let mut out = Vec::new();
    out.extend_from_slice(&(name.len() as u32).to_le_bytes());
    out.extend_from_slice(name.as_bytes());
    out.extend_from_slice(&(body.len() as u32).to_le_bytes());
    out.extend_from_slice(body);
    out
}

fn digest(files: &[(&str, Vec<u8>)]) -> Vec<u8> {
    let mut h = Sha256::new();
    for (name, body) in files {
        h.update([0u8]);
        h.update(name.as_bytes());
        h.update([0u8]);
        h.update(body);
    }
    h.finalize().to_vec()
}

fn stats(xp: u16, badges: Vec<BadgeProgress>) -> Stats {
    Stats {
        minutes: [1, 2, 3, 4],
        longest_play: [5, 6, 7, 8],
        launches: [9, 10, 11, 12],
        installed_on: (2024, 1, 2),
        updated_on: (2024, 1, 3),
        launched_on: (2024, 1, 4),
        xp,
        badges: badges.into_boxed_slice(),
        scores: Box::new([]),
    }
}

fn default_stats() -> Vec<u8> {
    stats(0, vec![BadgeProgress { new: false, done: 0, goal: 3 }]).encode_vec().unwrap()
}

/// The ROM files, the stats template among them, without the hash file.
fn rom_files() -> Vec<(&'static str, Vec<u8>)> {
    vec![("_bin", b"wasm".to_vec()), ("_meta", b"meta".to_vec()), ("_stats", default_stats())]
}

/// Streams the files and the hash file into an installer, performing the
/// actions on `fs`.
fn install(fs: &mut Fs, files: &[(&str, Vec<u8>)], hash: Vec<u8>) -> Installer {
    let mut inst = Installer::new();
    inst.headers = Some(headers());
    let mut stream = Vec::new();
    for (name, body) in files {
        stream.extend(record(name, body));
    }
    stream.extend(record("_hash", &hash));
    let acts = match inst.update(&stream) {
        Ok(acts) => acts,
        Err(e) => panic!("{e}"),
    };
    for act in acts {
        fs.apply(act);
    }
    inst
}

fn finalize(fs: &mut Fs, inst: &mut Installer) -> Result<(), &'static str> {
    let (mut f, mut req) = Finalizer::start(inst);
    loop {
        match fs.perform(req) {
            Ok(reply) => req = f.advance(inst, reply),
            Err(outcome) => return outcome,
        }
    }
}

fn run(fs: &mut Fs, files: &[(&str, Vec<u8>)]) -> Result<(), &'static str> {
    let hash = digest(files);
    let mut inst = install(fs, files, hash);
    finalize(fs, &mut inst)
}

#[test]
fn fresh_install_succeeds() {
    let mut fs = Fs::default();
    fs.files.insert("data/sys/launcher/etc/metas".to_string(), b"cache".to_vec());
    assert_eq!(run(&mut fs, &rom_files()), Ok(()));
    assert_eq!(
        fs.requests,
        vec![
            "size roms/lux/snek/_bin",
            "size roms/lux/snek/_meta",
            "size roms/lux/snek/_hash",
            "size roms/lux/snek/_stats",
            "load roms/lux/snek/_hash",
            "mkdir data/lux/snek",
            "mkdir data/lux/snek/etc",
            "mkdir data/lux/snek/shots",
            "dump data/lux/snek/etc/_tmp",
            "size data/lux/snek/etc/_tmp",
            "remove data/lux/snek/etc/_tmp",
            "size data/lux/snek/etc/_tmp",
            "load roms/lux/snek/_stats",
            "size data/lux/snek/stats",
            "dump data/lux/snek/stats",
            "size data/lux/snek/stats",
            "remove data/sys/launcher/etc/metas",
            "size data/sys/launcher/etc/metas",
        ]
    );
    assert!(fs.files.get("data/sys/launcher/etc/metas").is_none());
    assert!(fs.files.get("data/lux/snek/etc/_tmp").is_none());
    let written = Stats::decode(&fs.files["data/lux/snek/stats"]).unwrap();
    assert_eq!(written.minutes, [0; 4]);
    assert_eq!(written.longest_play, [0; 4]);
    assert_eq!(written.launches, [0; 4]);
    assert_eq!(written.installed_on, (2024, 5, 17));
    assert_eq!(written.updated_on, (2024, 5, 17));
    assert_eq!(written.launched_on, (0, 0, 0));
    assert_eq!(written.xp, 0);
    assert_eq!(written.badges.to_vec(), vec![BadgeProgress { new: false, done: 0, goal: 3 }]);
}

#[test]
fn update_carries_old_stats_over() {
    let mut fs = Fs::default();
    let old = stats(2000, vec![BadgeProgress { new: true, done: 9, goal: 9 }]);
    fs.files.insert("data/lux/snek/stats".to_string(), old.encode_vec().unwrap());
    assert_eq!(run(&mut fs, &rom_files()), Ok(()));
    assert!(fs.requests.contains(&"load data/lux/snek/stats".to_string()));
    let written = Stats::decode(&fs.files["data/lux/snek/stats"]).unwrap();
    assert_eq!(written.minutes, [1, 2, 3, 4]);
    assert_eq!(written.installed_on, (2024, 1, 2));
    assert_eq!(written.launched_on, (2024, 1, 4));
    assert_eq!(written.updated_on, (2024, 5, 17));
    assert_eq!(written.xp, 1000);
    assert_eq!(written.badges.to_vec(), vec![BadgeProgress { new: true, done: 3, goal: 3 }]);
}

#[test]
fn missing_rom_files_are_reported() {
    let cases: [(&str, &str); 4] = [
        ("_bin", "failed to write ROM"),
        ("_meta", "ROM has no metadata"),
        ("_stats", "ROM has no achievements info"),
        ("_hash", "ROM has no hash"),
    ];
    for (missing, err) in cases {
        let mut fs = Fs::default();
        let files: Vec<(&str, Vec<u8>)> = rom_files().into_iter().filter(|(n, _)| *n != missing).collect();
        let hash = digest(&files);
        let mut inst = install(&mut fs, &files, hash);
        if missing == "_hash" {
            fs.files.remove("roms/lux/snek/_hash");
        }
        assert_eq!(finalize(&mut fs, &mut inst), Err(err), "without {missing}");
    }
}

#[test]
fn empty_metadata_counts_as_missing() {
    let mut fs = Fs::default();
    let mut files = rom_files();
    files[1].1.clear();
    assert_eq!(run(&mut fs, &files), Err("ROM has no metadata"));
}

#[test]
fn wrong_hash_is_corruption() {
    let mut fs = Fs::default();
    let mut inst = install(&mut fs, &rom_files(), vec![0; 32]);
    assert_eq!(finalize(&mut fs, &mut inst), Err("ROM is corrupted (hashsum mismatch)"));
}

#[test]
fn unreadable_hash_file() {
    let mut fs = Fs::default();
    let files = rom_files();
    let mut inst = install(&mut fs, &files, digest(&files));
    let (mut f, mut req) = Finalizer::start(&inst);
    let outcome = loop {
        let reply = match req {
            FsRequest::LoadFile(ref p) if p.ends_with("/_hash") => FsReply::Loaded(None),
            other => match fs.perform(other) {
                Ok(reply) => reply,
                Err(outcome) => break outcome,
            },
        };
        req = f.advance(&mut inst, reply);
    };
    assert_eq!(outcome, Err("failed to read ROM hash"));
}

#[test]
fn bad_stats_template() {
    let mut fs = Fs::default();
    let mut files = rom_files();
    files[2].1 = vec![0xff, 0xff];
    assert_eq!(run(&mut fs, &files), Err("failed to parse the app achievements info"));
}

#[test]
fn bad_old_stats() {
    let mut fs = Fs::default();
    fs.files.insert("data/lux/snek/stats".to_string(), vec![0xff]);
    assert_eq!(run(&mut fs, &rom_files()), Err("failed to parse app stats"));
}

#[test]
fn read_only_data_dir() {
    let mut fs = Fs { read_only_data: true, ..Fs::default() };
    assert_eq!(run(&mut fs, &rom_files()), Err("failed to create app data dir"));
}

#[test]
fn tmp_file_that_stays() {
    let mut fs = Fs { sticky_tmp: true, ..Fs::default() };
    assert_eq!(run(&mut fs, &rom_files()), Err("failed to clean up app data dir"));
}

#[test]
fn cache_that_stays() {
    let mut fs = Fs { sticky_cache: true, ..Fs::default() };
    fs.files.insert("data/sys/launcher/etc/metas".to_string(), b"cache".to_vec());
    assert_eq!(run(&mut fs, &rom_files()), Err("failed to reset launcher cache"));
}

#[test]
fn finished_finalizer_stays_finished() {
    let mut fs = Fs::default();
    let files = rom_files();
    let mut inst = install(&mut fs, &files, digest(&files));
    let (mut f, _) = Finalizer::start(&inst);
    // No ROM binary on this file system.
    let req = f.advance(&mut inst, FsReply::Size(0));
    assert!(matches!(req, FsRequest::Finish(Err("failed to write ROM"))));
    let req = f.advance(&mut inst, FsReply::Done);
    assert!(matches!(req, FsRequest::Finish(Err("failed to write ROM"))));
}
