//! The checks and file system work after the whole ROM has arrived: the ROM
//! files must all be there, the ROM hash must match, the app data directory
//! must be writable, the stats file is created or carried over, and the
//! launcher cache is cleared.
//!
//! The work is a conversation: [`Finalizer`] asks for one file system
//! operation at a time ([`FsRequest`]), the caller performs it and hands the
//! outcome back ([`FsReply`]).

use vstd::prelude::*;
use vstd::string::*;

use crate::hash::sha256_of;
use crate::installer::{Installer, InstallerModel};
use crate::stats::{
    encode_stats, fresh_stats, merged_stats, stats_decoded, stats_encoded, decode_stats,
    update_stats, Date, StatsData, StatsModel,
};

verus! {

/// One file system operation.
pub enum FsRequest {
    /// The size of the file at the path; 0 when there is none.
    FileSize(String),
    /// The contents of the file at the path, if it can be read.
    LoadFile(String),
    CreateDir(String),
    DumpFile(String, Vec<u8>),
    RemoveFile(String),
    /// Nothing more to do; the outcome of the whole finalization.
    Finish(Result<(), &'static str>),
}

/// The outcome of a file system operation.
pub enum FsReply {
    Size(usize),
    Loaded(Option<Vec<u8>>),
    Done,
}

/// [`FsRequest`] as plain values.
pub enum RequestModel {
    FileSize(Seq<char>),
    LoadFile(Seq<char>),
    CreateDir(Seq<char>),
    DumpFile(Seq<char>, Seq<u8>),
    RemoveFile(Seq<char>),
    Finish(Result<(), &'static str>),
}

/// [`FsReply`] as plain values.
pub enum ReplyModel {
    Size(usize),
    Loaded(Option<Seq<u8>>),
    Done,
}

impl View for FsRequest {
    type V = RequestModel;

    open spec fn view(&self) -> RequestModel {
        match self {
            FsRequest::FileSize(p) => RequestModel::FileSize(p@),
            FsRequest::LoadFile(p) => RequestModel::LoadFile(p@),
            FsRequest::CreateDir(p) => RequestModel::CreateDir(p@),
            FsRequest::DumpFile(p, c) => RequestModel::DumpFile(p@, c@),
            FsRequest::RemoveFile(p) => RequestModel::RemoveFile(p@),
            FsRequest::Finish(r) => RequestModel::Finish(*r),
        }
    }
}

impl View for FsReply {
    type V = ReplyModel;

    open spec fn view(&self) -> ReplyModel {
        match self {
            FsReply::Size(n) => ReplyModel::Size(*n),
            FsReply::Loaded(Some(c)) => ReplyModel::Loaded(Some(c@)),
            FsReply::Loaded(None) => ReplyModel::Loaded(None),
            FsReply::Done => ReplyModel::Done,
        }
    }
}

/// How far finalization has come.
#[derive(Clone, Copy)]
pub enum Stage {
    CheckBin,
    CheckMeta,
    CheckHashFile,
    CheckStatsFile,
    LoadHash,
    CreateDataDir,
    CreateEtcDir,
    CreateShotsDir,
    WriteTmp,
    CheckTmp,
    RemoveTmp,
    CheckTmpRemoved,
    LoadDefaultStats,
    CheckOldStats,
    LoadOldStats,
    WriteStats,
    CheckStatsWritten,
    RemoveCache,
    CheckCache,
    Finished(Result<(), &'static str>),
}

/// Finalizes an installed ROM.
pub struct Finalizer {
    stage: Stage,
    rom_path: String,
    data_path: String,
    today: Date,
    default_stats: Option<StatsData>,
    pending: Vec<u8>,
}

/// [`Finalizer`] as plain values.
pub struct FinalizerModel {
    pub stage: Stage,
    /// `roms/<author_id>/<app_id>`
    pub rom: Seq<char>,
    /// `data/<author_id>/<app_id>`
    pub data: Seq<char>,
    pub today: Date,
    /// The stats template of the ROM, once read.
    pub default_stats: Option<StatsModel>,
    /// The stats file contents to write.
    pub pending: Seq<u8>,
}

impl View for Finalizer {
    type V = FinalizerModel;

    closed spec fn view(&self) -> FinalizerModel {
        FinalizerModel {
            stage: self.stage,
            rom: self.rom_path@,
            data: self.data_path@,
            today: self.today,
            default_stats: match self.default_stats {
                Some(d) => Some(d@),
                None => None,
            },
            pending: self.pending@,
        }
    }
}

/// The launcher's cache of app metadata.
pub open spec fn cache_path() -> Seq<char> {
    "data/sys/launcher/etc/metas"@
}

/// The file system operation that a stage asks for.
pub open spec fn request_for(f: FinalizerModel) -> RequestModel {
    match f.stage {
        Stage::CheckBin => RequestModel::FileSize(f.rom + "/_bin"@),
        Stage::CheckMeta => RequestModel::FileSize(f.rom + "/_meta"@),
        Stage::CheckHashFile => RequestModel::FileSize(f.rom + "/_hash"@),
        Stage::CheckStatsFile => RequestModel::FileSize(f.rom + "/_stats"@),
        Stage::LoadHash => RequestModel::LoadFile(f.rom + "/_hash"@),
        Stage::CreateDataDir => RequestModel::CreateDir(f.data),
        Stage::CreateEtcDir => RequestModel::CreateDir(f.data + "/etc"@),
        Stage::CreateShotsDir => RequestModel::CreateDir(f.data + "/shots"@),
        Stage::WriteTmp => RequestModel::DumpFile(f.data + "/etc"@ + "/_tmp"@, seq![1u8]),
        Stage::CheckTmp => RequestModel::FileSize(f.data + "/etc"@ + "/_tmp"@),
        Stage::RemoveTmp => RequestModel::RemoveFile(f.data + "/etc"@ + "/_tmp"@),
        Stage::CheckTmpRemoved => RequestModel::FileSize(f.data + "/etc"@ + "/_tmp"@),
        Stage::LoadDefaultStats => RequestModel::LoadFile(f.rom + "/_stats"@),
        Stage::CheckOldStats => RequestModel::FileSize(f.data + "/stats"@),
        Stage::LoadOldStats => RequestModel::LoadFile(f.data + "/stats"@),
        Stage::WriteStats => RequestModel::DumpFile(f.data + "/stats"@, f.pending),
        Stage::CheckStatsWritten => RequestModel::FileSize(f.data + "/stats"@),
        Stage::RemoveCache => RequestModel::RemoveFile(cache_path()),
        Stage::CheckCache => RequestModel::FileSize(cache_path()),
        Stage::Finished(r) => RequestModel::Finish(r),
    }
}

/// The reply has the kind that the request of the stage calls for.
pub open spec fn reply_fits(f: FinalizerModel, reply: ReplyModel) -> bool {
    match request_for(f) {
        RequestModel::FileSize(_) => reply is Size,
        RequestModel::LoadFile(_) => reply is Loaded,
        RequestModel::Finish(_) => true,
        _ => reply is Done,
    }
}

/// The same finalizer at another stage.
pub open spec fn at(f: FinalizerModel, stage: Stage) -> FinalizerModel {
    FinalizerModel { stage, ..f }
}

/// The same finalizer, finished with an error.
pub open spec fn failed(f: FinalizerModel, e: &'static str) -> FinalizerModel {
    at(f, Stage::Finished(Err(e)))
}

/// The stats, about to be written.
pub open spec fn writing(f: FinalizerModel, s: StatsModel) -> FinalizerModel {
    match stats_encoded(s) {
        None => failed(f, "failed to serialize achievements info"),
        Some(b) => FinalizerModel { stage: Stage::WriteStats, pending: b, ..f },
    }
}

/// Where a reply takes the finalizer, given what the ROM hash was computed
/// over; and whether the hash computation starts over.
pub open spec fn advanced(f: FinalizerModel, fed: Seq<u8>, reply: ReplyModel) -> (
    FinalizerModel,
    bool,
) {
    let size = match reply {
        ReplyModel::Size(n) => n,
        _ => 0,
    };
    let loaded = match reply {
        ReplyModel::Loaded(o) => o,
        _ => None,
    };
    match f.stage {
        Stage::CheckBin => (
            if size == 0 {
                failed(f, "failed to write ROM")
            } else {
                at(f, Stage::CheckMeta)
            },
            false,
        ),
        Stage::CheckMeta => (
            if size == 0 {
                failed(f, "ROM has no metadata")
            } else {
                at(f, Stage::CheckHashFile)
            },
            false,
        ),
        Stage::CheckHashFile => (
            if size == 0 {
                failed(f, "ROM has no hash")
            } else {
                at(f, Stage::CheckStatsFile)
            },
            false,
        ),
        Stage::CheckStatsFile => (
            if size == 0 {
                failed(f, "ROM has no achievements info")
            } else {
                at(f, Stage::LoadHash)
            },
            false,
        ),
        Stage::LoadHash => match loaded {
            None => (failed(f, "failed to read ROM hash"), false),
            Some(expected) => (
                if sha256_of(fed) != expected {
                    failed(f, "ROM is corrupted (hashsum mismatch)")
                } else {
                    at(f, Stage::CreateDataDir)
                },
                true,
            ),
        },
        Stage::CreateDataDir => (at(f, Stage::CreateEtcDir), false),
        Stage::CreateEtcDir => (at(f, Stage::CreateShotsDir), false),
        Stage::CreateShotsDir => (at(f, Stage::WriteTmp), false),
        Stage::WriteTmp => (at(f, Stage::CheckTmp), false),
        Stage::CheckTmp => (
            if size == 0 {
                failed(f, "failed to create app data dir")
            } else {
                at(f, Stage::RemoveTmp)
            },
            false,
        ),
        Stage::RemoveTmp => (at(f, Stage::CheckTmpRemoved), false),
        Stage::CheckTmpRemoved => (
            if size != 0 {
                failed(f, "failed to clean up app data dir")
            } else {
                at(f, Stage::LoadDefaultStats)
            },
            false,
        ),
        Stage::LoadDefaultStats => (
            match loaded {
                None => failed(f, "cannot access achievements info from the app"),
                Some(raw) => match stats_decoded(raw) {
                    None => failed(f, "failed to parse the app achievements info"),
                    Some(d) => FinalizerModel {
                        stage: Stage::CheckOldStats,
                        default_stats: Some(d),
                        ..f
                    },
                },
            },
            false,
        ),
        Stage::CheckOldStats => (
            if size == 0 {
                writing(
                    FinalizerModel { default_stats: None, ..f },
                    fresh_stats(f.default_stats->0, f.today),
                )
            } else {
                at(f, Stage::LoadOldStats)
            },
            false,
        ),
        Stage::LoadOldStats => (
            match loaded {
                None => failed(f, "failed to read app stats"),
                Some(raw) => match stats_decoded(raw) {
                    None => failed(f, "failed to parse app stats"),
                    Some(old) => writing(f, merged_stats(f.default_stats->0, old, f.today)),
                },
            },
            false,
        ),
        Stage::WriteStats => (at(f, Stage::CheckStatsWritten), false),
        Stage::CheckStatsWritten => (
            if size == 0 {
                failed(f, "failed to bootstrap app stats")
            } else {
                at(f, Stage::RemoveCache)
            },
            false,
        ),
        Stage::RemoveCache => (at(f, Stage::CheckCache), false),
        Stage::CheckCache => (
            if size != 0 {
                failed(f, "failed to reset launcher cache")
            } else {
                at(f, Stage::Finished(Ok(())))
            },
            false,
        ),
        Stage::Finished(r) => (f, false),
    }
}

/// The position of a stage in the order that finalization goes through.
pub open spec fn stage_rank(s: Stage) -> nat {
    match s {
        Stage::CheckBin => 0,
        Stage::CheckMeta => 1,
        Stage::CheckHashFile => 2,
        Stage::CheckStatsFile => 3,
        Stage::LoadHash => 4,
        Stage::CreateDataDir => 5,
        Stage::CreateEtcDir => 6,
        Stage::CreateShotsDir => 7,
        Stage::WriteTmp => 8,
        Stage::CheckTmp => 9,
        Stage::RemoveTmp => 10,
        Stage::CheckTmpRemoved => 11,
        Stage::LoadDefaultStats => 12,
        Stage::CheckOldStats => 13,
        Stage::LoadOldStats => 14,
        Stage::WriteStats => 15,
        Stage::CheckStatsWritten => 16,
        Stage::RemoveCache => 17,
        Stage::CheckCache => 18,
        Stage::Finished(_) => 19,
    }
}

/// Finalization always ends: whatever the reply, an unfinished finalizer
/// moves on to a later stage, so that it asks to finish after at most 19
/// replies; a finished one stays as it is.
pub proof fn lemma_advance_progresses(f: FinalizerModel, fed: Seq<u8>, reply: ReplyModel)
    ensures
        !(f.stage is Finished) ==> stage_rank(advanced(f, fed, reply).0.stage) > stage_rank(f.stage),
        f.stage is Finished ==> advanced(f, fed, reply) == (f, false),
{
}

/// The finalizer's own invariant: the stats template is known from the
/// moment it was read.
pub open spec fn finalizer_wf(f: FinalizerModel) -> bool {
    match f.stage {
        Stage::CheckOldStats | Stage::LoadOldStats => f.default_stats is Some,
        _ => true,
    }
}

/// `base` followed by `tail`.
fn joined(base: &String, tail: &str) -> (r: String)
    ensures
        r@ == base@ + tail@,
{
    let mut r = base.clone();
    r.append(tail);
    r
}

/// The stats of a fresh install, from the template of the ROM.
fn fresh_stats_of(default: StatsData, today: Date) -> (r: StatsData)
    ensures
        r@ == fresh_stats(default@, today),
{
    let r = StatsData {
        minutes: [0, 0, 0, 0],
        longest_play: [0, 0, 0, 0],
        launches: [0, 0, 0, 0],
        installed_on: today,
        updated_on: today,
        launched_on: (0, 0, 0),
        xp: 0,
        badges: default.badges,
        scores: default.scores,
    };
    assert(r@ =~= fresh_stats(default@, today));
    r
}

impl Finalizer {
    /// The file system operation that the current stage asks for.
    fn request(&self) -> (r: FsRequest)
        ensures
            r@ == request_for(self@),
    {
        match self.stage {
            Stage::CheckBin => FsRequest::FileSize(joined(&self.rom_path, "/_bin")),
            Stage::CheckMeta => FsRequest::FileSize(joined(&self.rom_path, "/_meta")),
            Stage::CheckHashFile => FsRequest::FileSize(joined(&self.rom_path, "/_hash")),
            Stage::CheckStatsFile => FsRequest::FileSize(joined(&self.rom_path, "/_stats")),
            Stage::LoadHash => FsRequest::LoadFile(joined(&self.rom_path, "/_hash")),
            Stage::CreateDataDir => FsRequest::CreateDir(self.data_path.clone()),
            Stage::CreateEtcDir => FsRequest::CreateDir(joined(&self.data_path, "/etc")),
            Stage::CreateShotsDir => FsRequest::CreateDir(joined(&self.data_path, "/shots")),
            Stage::WriteTmp => {
                let one: Vec<u8> = vec![1u8];
                assert(one@ =~= seq![1u8]);
                FsRequest::DumpFile(joined(&joined(&self.data_path, "/etc"), "/_tmp"), one)
            },
            Stage::CheckTmp => FsRequest::FileSize(
                joined(&joined(&self.data_path, "/etc"), "/_tmp"),
            ),
            Stage::RemoveTmp => FsRequest::RemoveFile(
                joined(&joined(&self.data_path, "/etc"), "/_tmp"),
            ),
            Stage::CheckTmpRemoved => FsRequest::FileSize(
                joined(&joined(&self.data_path, "/etc"), "/_tmp"),
            ),
            Stage::LoadDefaultStats => FsRequest::LoadFile(joined(&self.rom_path, "/_stats")),
            Stage::CheckOldStats => FsRequest::FileSize(joined(&self.data_path, "/stats")),
            Stage::LoadOldStats => FsRequest::LoadFile(joined(&self.data_path, "/stats")),
            Stage::WriteStats => {
                let mut bytes: Vec<u8> = Vec::new();
                let mut i: usize = 0;
                while i < self.pending.len()
                    invariant
                        0 <= i <= self.pending@.len(),
                        bytes@ == self.pending@.take(i as int),
                    decreases self.pending@.len() - i,
                {
                    bytes.push(self.pending[i]);
                    assert(bytes@ =~= self.pending@.take(i + 1));
                    i = i + 1;
                }
                assert(bytes@ =~= self.pending@);
                FsRequest::DumpFile(joined(&self.data_path, "/stats"), bytes)
            },
            Stage::CheckStatsWritten => FsRequest::FileSize(joined(&self.data_path, "/stats")),
            Stage::RemoveCache => FsRequest::RemoveFile("data/sys/launcher/etc/metas".to_owned()),
            Stage::CheckCache => FsRequest::FileSize("data/sys/launcher/etc/metas".to_owned()),
            Stage::Finished(r) => FsRequest::Finish(r),
        }
    }

    /// Starts finalizing the ROM that `installer` received, with the first
    /// file system operation to perform.
    pub fn start(installer: &Installer) -> (r: (Finalizer, FsRequest))
        requires
            installer@.headers is Some,
        ensures
            r.0@.stage == Stage::CheckBin,
            r.0@.rom == "roms/"@ + installer@.headers->0.author_id + "/"@ + installer@.headers->0.app_id,
            r.0@.data == "data/"@ + installer@.headers->0.author_id + "/"@ + installer@.headers->0.app_id,
            r.0@.today == installer@.headers->0.today,
            r.0@.default_stats is None,
            r.0@.pending == Seq::<u8>::empty(),
            r.1@ == request_for(r.0@),
    {
        let (author_id, app_id) = installer.get_id();
        let mut rom_path = "roms/".to_owned();
        rom_path.append(author_id);
        rom_path.append("/");
        rom_path.append(app_id);
        let mut data_path = "data/".to_owned();
        data_path.append(author_id);
        data_path.append("/");
        data_path.append(app_id);
        let f = Finalizer {
            stage: Stage::CheckBin,
            rom_path,
            data_path,
            today: installer.today(),
            default_stats: None,
            pending: Vec::new(),
        };
        let req = f.request();
        (f, req)
    }

    /// Takes the outcome of the last operation and answers with the next one.
    pub fn advance(&mut self, installer: &mut Installer, reply: FsReply) -> (r: FsRequest)
        requires
            finalizer_wf(old(self)@),
            reply_fits(old(self)@, reply@),
        ensures
            ({
                let (next, reset) = advanced(old(self)@, old(installer)@.fed, reply@);
                &&& final(self)@ == next
                &&& final(installer)@ == if reset {
                    InstallerModel { fed: Seq::empty(), ..old(installer)@ }
                } else {
                    old(installer)@
                }
            }),
            finalizer_wf(final(self)@),
            r@ == request_for(final(self)@),
    {
        let size = match &reply {
            FsReply::Size(n) => *n,
            _ => 0,
        };
        match self.stage {
            Stage::CheckBin => {
                self.stage = if size == 0 {
                    Stage::Finished(Err("failed to write ROM"))
                } else {
                    Stage::CheckMeta
                };
            },
            Stage::CheckMeta => {
                self.stage = if size == 0 {
                    Stage::Finished(Err("ROM has no metadata"))
                } else {
                    Stage::CheckHashFile
                };
            },
            Stage::CheckHashFile => {
                self.stage = if size == 0 {
                    Stage::Finished(Err("ROM has no hash"))
                } else {
                    Stage::CheckStatsFile
                };
            },
            Stage::CheckStatsFile => {
                self.stage = if size == 0 {
                    Stage::Finished(Err("ROM has no achievements info"))
                } else {
                    Stage::LoadHash
                };
            },
            Stage::LoadHash => {
                match reply {
                    FsReply::Loaded(Some(expected)) => {
                        self.stage = if !installer.check_hash(&expected) {
                            Stage::Finished(Err("ROM is corrupted (hashsum mismatch)"))
                        } else {
                            Stage::CreateDataDir
                        };
                    },
                    _ => {
                        self.stage = Stage::Finished(Err("failed to read ROM hash"));
                    },
                }
            },
            Stage::CreateDataDir => {
                self.stage = Stage::CreateEtcDir;
            },
            Stage::CreateEtcDir => {
                self.stage = Stage::CreateShotsDir;
            },
            Stage::CreateShotsDir => {
                self.stage = Stage::WriteTmp;
            },
            Stage::WriteTmp => {
                self.stage = Stage::CheckTmp;
            },
            Stage::CheckTmp => {
                self.stage = if size == 0 {
                    Stage::Finished(Err("failed to create app data dir"))
                } else {
                    Stage::RemoveTmp
                };
            },
            Stage::RemoveTmp => {
                self.stage = Stage::CheckTmpRemoved;
            },
            Stage::CheckTmpRemoved => {
                self.stage = if size != 0 {
                    Stage::Finished(Err("failed to clean up app data dir"))
                } else {
                    Stage::LoadDefaultStats
                };
            },
            Stage::LoadDefaultStats => {
                match reply {
                    FsReply::Loaded(Some(raw)) => match decode_stats(&raw) {
                        Some(d) => {
                            self.default_stats = Some(d);
                            self.stage = Stage::CheckOldStats;
                        },
                        None => {
                            self.stage = Stage::Finished(
                                Err("failed to parse the app achievements info"),
                            );
                        },
                    },
                    _ => {
                        self.stage = Stage::Finished(
                            Err("cannot access achievements info from the app"),
                        );
                    },
                }
            },
            Stage::CheckOldStats => {
                if size == 0 {
                    let default = self.default_stats.take().unwrap();
                    let stats = fresh_stats_of(default, self.today);
                    self.write(stats);
                } else {
                    self.stage = Stage::LoadOldStats;
                }
            },
            Stage::LoadOldStats => {
                let raw = match reply {
                    FsReply::Loaded(raw) => raw,
                    _ => None,
                };
                match update_stats(self.default_stats.as_ref().unwrap(), raw, self.today) {
                    Ok(stats) => self.write(stats),
                    Err(e) => {
                        self.stage = Stage::Finished(Err(e));
                    },
                }
            },
            Stage::WriteStats => {
                self.stage = Stage::CheckStatsWritten;
            },
            Stage::CheckStatsWritten => {
                self.stage = if size == 0 {
                    Stage::Finished(Err("failed to bootstrap app stats"))
                } else {
                    Stage::RemoveCache
                };
            },
            Stage::RemoveCache => {
                self.stage = Stage::CheckCache;
            },
            Stage::CheckCache => {
                self.stage = if size != 0 {
                    Stage::Finished(Err("failed to reset launcher cache"))
                } else {
                    Stage::Finished(Ok(()))
                };
            },
            Stage::Finished(_) => {},
        }
        self.request()
    }

    /// Encodes the stats to write next.
    fn write(&mut self, stats: StatsData)
        ensures
            final(self)@ == writing(old(self)@, stats@),
    {
        match encode_stats(&stats) {
            Some(raw) => {
                self.pending = raw;
                self.stage = Stage::WriteStats;
            },
            None => {
                self.stage = Stage::Finished(Err("failed to serialize achievements info"));
            },
        }
    }
}

} // verus!
