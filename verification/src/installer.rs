//! The download stream of a ROM: the HTTP response head, then a sequence of
//! files, each as a little-endian `u32` name length, the name, a little-endian
//! `u32` body size and the body.
//!
//! [`Installer::update`] takes the stream chunk by chunk and answers with the
//! file system work to do ([`Action`]); the caller performs it.

use std::collections::VecDeque;

use sha2::Sha256;
use vstd::prelude::*;
use vstd::string::*;
use vstd::utf8::*;

use crate::hash::{sha256_fed, sha256_finalize_reset, sha256_new, sha256_of, sha256_update};
use crate::headers::{headers_from, parsed, HeadersModel, RespHeaders};
use crate::text::{bytes_equal, string_from_utf8_or_empty, utf8_chars_or_empty};

verus! {

broadcast use vstd::std_specs::vecdeque::group_vec_dequeue_axioms;

pub const KB: u32 = 1024;

/// Keep partially downloaded file in RAM until it reaches at least that many bytes.
pub const FLUSH_EVERY: u32 = 64 * KB;

/// Where the parser stands in the file that is being received.
pub enum FileStatus {
    /// Less than 4 bytes received, cannot get file name length.
    Waiting,
    /// Received file name length, waiting for the file name to fully arrive.
    NameLen(u32),
    /// Received file name, waiting for the file size.
    Name(String),
    /// Got file size, waiting for the file body to arrive.
    BodySize {
        name: String,
        /// The total file size.
        size: u32,
        /// How much is yet to be dumped on the disk.
        /// Includes both buffered and not-yet-downloaded bytes.
        left: u32,
    },
}

/// [`FileStatus`] as plain values.
pub enum FileModel {
    Waiting,
    NameLen(u32),
    Name(Seq<char>),
    BodySize { name: Seq<char>, size: u32, left: u32 },
}

impl View for FileStatus {
    type V = FileModel;

    open spec fn view(&self) -> FileModel {
        match self {
            FileStatus::Waiting => FileModel::Waiting,
            FileStatus::NameLen(n) => FileModel::NameLen(*n),
            FileStatus::Name(name) => FileModel::Name(name@),
            FileStatus::BodySize { name, size, left } => FileModel::BodySize {
                name: name@,
                size: *size,
                left: *left,
            },
        }
    }
}

/// File system work that the stream asks for.
pub enum Action {
    /// Make `roms/<author_id>/<app_id>` an empty directory.
    CreateRomDir { author_id: String, app_id: String },
    /// Write `content` to the file at `path`, replacing what was there.
    DumpFile { path: String, content: Vec<u8> },
    /// Append `content` to the file at `path`.
    AppendFile { path: String, content: Vec<u8> },
}

/// [`Action`] as plain values.
pub enum ActionModel {
    CreateRomDir { author_id: Seq<char>, app_id: Seq<char> },
    DumpFile { path: Seq<char>, content: Seq<u8> },
    AppendFile { path: Seq<char>, content: Seq<u8> },
}

impl View for Action {
    type V = ActionModel;

    open spec fn view(&self) -> ActionModel {
        match self {
            Action::CreateRomDir { author_id, app_id } => ActionModel::CreateRomDir {
                author_id: author_id@,
                app_id: app_id@,
            },
            Action::DumpFile { path, content } => ActionModel::DumpFile {
                path: path@,
                content: content@,
            },
            Action::AppendFile { path, content } => ActionModel::AppendFile {
                path: path@,
                content: content@,
            },
        }
    }
}

/// The actions as plain values.
pub open spec fn actions_view(v: Seq<Action>) -> Seq<ActionModel> {
    v.map_values(|a: Action| a@)
}

/// Receives a ROM from the download stream.
pub struct Installer {
    pub headers: Option<RespHeaders>,
    pub received_size: u32,
    file: FileStatus,
    buf: VecDeque<u8>,
    hasher: Sha256,
    pub has_manual: bool,
}

/// [`Installer`] as plain values.
#[verifier::ext_equal]
pub struct InstallerModel {
    pub headers: Option<HeadersModel>,
    /// How many body bytes were taken from the stream.
    pub received: int,
    pub file: FileModel,
    /// Received bytes not parsed yet.
    pub buf: Seq<u8>,
    /// What the ROM hash has been computed over.
    pub fed: Seq<u8>,
    pub has_manual: bool,
}

impl View for Installer {
    type V = InstallerModel;

    closed spec fn view(&self) -> InstallerModel {
        InstallerModel {
            headers: match self.headers {
                Some(h) => Some(h@),
                None => None,
            },
            received: self.received_size as int,
            file: self.file@,
            buf: self.buf@,
            fed: sha256_fed(self.hasher),
            has_manual: self.has_manual,
        }
    }
}

/// `\r\n\r\n`, the end of the HTTP response head.
pub open spec fn head_end() -> Seq<u8> {
    seq![0x0d, 0x0a, 0x0d, 0x0a]
}

/// `_hash`, the file that holds the expected hash of the ROM.
pub open spec fn hash_file() -> Seq<u8> {
    seq!['_' as u8, 'h' as u8, 'a' as u8, 's' as u8, 'h' as u8]
}

/// `_manual`, the file that holds the app's manual.
pub open spec fn manual_file() -> Seq<u8> {
    seq!['_' as u8, 'm' as u8, 'a' as u8, 'n' as u8, 'u' as u8, 'a' as u8, 'l' as u8]
}

/// The file name `name` is the text whose UTF-8 bytes are `lit`.
pub open spec fn is_named(name: Seq<char>, lit: Seq<u8>) -> bool {
    encode_utf8(name) == lit
}

/// The little-endian `u32` in the first 4 bytes of `b`.
pub open spec fn le_u32(b: Seq<u8>) -> u32 {
    (b[0] as int + b[1] as int * 0x100 + b[2] as int * 0x10000 + b[3] as int * 0x1000000) as u32
}

/// The first index from `i` on at which `needle` occurs in `data`.
pub open spec fn find_window_from(data: Seq<u8>, needle: Seq<u8>, i: int) -> Option<int>
    decreases data.len() + 1 - i,
{
    if i < 0 || i + needle.len() > data.len() {
        None
    } else if data.subrange(i, i + needle.len()) == needle {
        Some(i)
    } else {
        find_window_from(data, needle, i + 1)
    }
}

/// The first index at which `needle` occurs in `data`.
pub open spec fn find_window(data: Seq<u8>, needle: Seq<u8>) -> Option<int> {
    find_window_from(data, needle, 0)
}

/// The path of a ROM file: `roms/<author_id>/<app_id>/<name>`.
pub open spec fn rom_file_path(h: HeadersModel, name: Seq<char>) -> Seq<char> {
    "roms/"@ + h.author_id + "/"@ + h.app_id + "/"@ + name
}

/// One step of the stream parser.
pub enum Step {
    /// Not enough bytes buffered to go on.
    Stop,
    /// The stream is invalid; the state that the failure leaves behind.
    Fail(&'static str, InstallerModel),
    /// The next state, and the actions that the step asks for.
    Next(InstallerModel, Seq<ActionModel>),
}

/// What parsing the buffered bytes one step further does.
pub open spec fn step(s: InstallerModel) -> Step {
    match s.headers {
        None => match find_window(s.buf, head_end()) {
            None => Step::Stop,
            Some(idx) => {
                let rest = InstallerModel { buf: s.buf.skip(idx + 4), ..s };
                match headers_from(s.buf.take(idx + 4)) {
                    Err(e) => Step::Fail(e, rest),
                    Ok(h) => Step::Next(
                        InstallerModel { headers: Some(h), ..rest },
                        seq![ActionModel::CreateRomDir { author_id: h.author_id, app_id: h.app_id }],
                    ),
                }
            },
        },
        Some(h) => match s.file {
            FileModel::Waiting => if s.buf.len() < 4 {
                Step::Stop
            } else {
                Step::Next(
                    InstallerModel {
                        file: FileModel::NameLen(le_u32(s.buf)),
                        buf: s.buf.skip(4),
                        ..s
                    },
                    seq![],
                )
            },
            FileModel::NameLen(size) => if s.buf.len() < size {
                Step::Stop
            } else {
                let name = utf8_chars_or_empty(s.buf.take(size as int));
                Step::Next(
                    InstallerModel {
                        file: FileModel::Name(name),
                        buf: s.buf.skip(size as int),
                        fed: if is_named(name, hash_file()) {
                            s.fed
                        } else {
                            s.fed + seq![0u8] + encode_utf8(name) + seq![0u8]
                        },
                        ..s
                    },
                    seq![],
                )
            },
            FileModel::Name(name) => if s.buf.len() < 4 {
                Step::Stop
            } else {
                let size = le_u32(s.buf);
                Step::Next(
                    InstallerModel {
                        file: FileModel::BodySize { name, size, left: size },
                        buf: s.buf.skip(4),
                        has_manual: s.has_manual || is_named(name, manual_file()),
                        ..s
                    },
                    seq![],
                )
            },
            FileModel::BodySize { name, size, left } => {
                let chunk = if left < FLUSH_EVERY {
                    left
                } else {
                    FLUSH_EVERY
                };
                if s.buf.len() < chunk {
                    Step::Stop
                } else {
                    let content = s.buf.take(chunk as int);
                    let path = rom_file_path(h, name);
                    Step::Next(
                        InstallerModel {
                            file: if left - chunk == 0 {
                                FileModel::Waiting
                            } else {
                                FileModel::BodySize { name, size, left: (left - chunk) as u32 }
                            },
                            buf: s.buf.skip(chunk as int),
                            fed: if is_named(name, hash_file()) {
                                s.fed
                            } else {
                                s.fed + content
                            },
                            received: s.received + chunk,
                            ..s
                        },
                        seq![
                            if left == size {
                                ActionModel::DumpFile { path, content }
                            } else {
                                ActionModel::AppendFile { path, content }
                            },
                        ],
                    )
                }
            },
        },
    }
}

/// A measure that every step that does not stop makes smaller.
pub open spec fn measure(s: InstallerModel) -> nat {
    2 * s.buf.len() + match s.file {
        FileModel::NameLen(_) => 1nat,
        FileModel::BodySize { .. } => 1nat,
        _ => 0nat,
    }
}

proof fn lemma_find_window_from_bounds(data: Seq<u8>, needle: Seq<u8>, i: int)
    ensures
        find_window_from(data, needle, i) matches Some(k) ==> i <= k && k + needle.len()
            <= data.len() && data.subrange(k, k + needle.len()) == needle,
    decreases data.len() + 1 - i,
{
    if !(i < 0 || i + needle.len() > data.len()) && data.subrange(i, i + needle.len()) != needle {
        lemma_find_window_from_bounds(data, needle, i + 1);
    }
}

pub proof fn lemma_step_decreases(s: InstallerModel)
    ensures
        step(s) matches Step::Next(t, _) ==> measure(t) < measure(s),
{
    if s.headers is None {
        lemma_find_window_from_bounds(s.buf, head_end(), 0);
    }
}

/// The outcome of parsing as far as the buffered bytes go: the final state,
/// the actions asked for on the way, and the failure, if any, that stopped it.
pub open spec fn run(s: InstallerModel) -> (InstallerModel, Seq<ActionModel>, Option<&'static str>)
    decreases measure(s),
{
    match step(s) {
        Step::Stop => (s, seq![], None),
        Step::Fail(e, t) => (t, seq![], Some(e)),
        Step::Next(t, acts) => {
            proof {
                lemma_step_decreases(s);
            }
            let (u, more, err) = run(t);
            (u, acts + more, err)
        },
    }
}

/// The state with `chunk` appended to the buffered bytes.
pub open spec fn fed_with(s: InstallerModel, chunk: Seq<u8>) -> InstallerModel {
    InstallerModel { buf: s.buf + chunk, ..s }
}


/// Finds the first occurrence of `needle` in `data`.
pub fn find_subslice(data: &[u8], needle: &[u8]) -> (r: Option<usize>)
    requires
        needle@.len() > 0,
    ensures
        r matches Some(i) ==> find_window(data@, needle@) == Some(i as int),
        r is None ==> find_window(data@, needle@) is None,
{
    let n = needle.len();
    if data.len() < n {
        return None;
    }
    let last = data.len() - n;
    let mut i: usize = 0;
    while i <= last
        invariant
            n == needle@.len(),
            n > 0,
            last + n == data@.len(),
            last + n == data.len(),
            i <= last + 1,
            find_window(data@, needle@) == find_window_from(data@, needle@, i as int),
        decreases last + 1 - i,
    {
        if bytes_equal(&data[i..i + n], needle) {
            return Some(i);
        }
        i = i + 1;
    }
    None
}

/// The result of one parser step.
enum StepOutcome {
    Stop,
    Fail(&'static str),
    Next,
}

/// The name of a file is the text whose UTF-8 bytes are `lit`.
fn named(name: &String, lit: &[u8]) -> (r: bool)
    ensures
        r == is_named(name@, lit@),
{
    bytes_equal(name.as_str().as_bytes(), lit)
}

/// `roms/<author_id>/<app_id>/<name>`
fn rom_path(h: &RespHeaders, name: &String) -> (p: String)
    ensures
        p@ == rom_file_path(h@, name@),
{
    let mut p = "roms/".to_owned();
    p.append(h.author_id.as_str());
    p.append("/");
    p.append(h.app_id.as_str());
    p.append("/");
    p.append(name.as_str());
    p
}

impl Installer {
    pub fn new() -> (r: Self)
        ensures
            r@ == (InstallerModel {
                headers: None,
                received: 0,
                file: FileModel::Waiting,
                buf: Seq::empty(),
                fed: Seq::empty(),
                has_manual: false,
            }),
    {
        Self {
            headers: None,
            received_size: 0,
            file: FileStatus::Waiting,
            buf: VecDeque::new(),
            hasher: sha256_new(),
            has_manual: false,
        }
    }

    /// Whether the whole ROM has arrived: every buffered byte was parsed and
    /// at least as many body bytes were received as the headers announced.
    pub fn done(&self) -> (r: bool)
        ensures
            r == (self@.buf.len() == 0 && match self@.headers {
                Some(h) => self@.received >= h.expected_size,
                None => false,
            }),
    {
        if self.buf.len() != 0 {
            return false;
        }
        match &self.headers {
            Some(headers) => self.received_size >= headers.expected_size,
            None => false,
        }
    }

    /// The author ID and the app ID of the ROM.
    pub fn get_id(&self) -> (r: (&str, &str))
        requires
            self@.headers is Some,
        ensures
            r.0@ == self@.headers->0.author_id,
            r.1@ == self@.headers->0.app_id,
    {
        let headers = self.headers.as_ref().unwrap();
        (headers.author_id.as_str(), headers.app_id.as_str())
    }

    /// The headers, once the response head was parsed.
    pub fn headers(&self) -> (r: &Option<RespHeaders>)
        ensures
            match r {
                Some(h) => self@.headers == Some(h@),
                None => self@.headers is None,
            },
    {
        &self.headers
    }

    /// How many body bytes were taken from the stream.
    pub fn received(&self) -> (r: u32)
        ensures
            r == self@.received,
    {
        self.received_size
    }

    /// Whether the ROM has a manual.
    pub fn has_manual(&self) -> (r: bool)
        ensures
            r == self@.has_manual,
    {
        self.has_manual
    }

    /// The date that the server sent as today's.
    pub fn today(&self) -> (r: (u16, u8, u8))
        requires
            self@.headers is Some,
        ensures
            r == self@.headers->0.today,
    {
        self.headers.as_ref().unwrap().today
    }

    /// Finishes the ROM hash and compares it with `expected`; the hash then
    /// starts over.
    pub fn check_hash(&mut self, expected: &[u8]) -> (r: bool)
        ensures
            r == (sha256_of(old(self)@.fed) == expected@),
            final(self)@ == (InstallerModel { fed: Seq::empty(), ..old(self)@ }),
    {
        let act_hash = sha256_finalize_reset(&mut self.hasher);
        bytes_equal(act_hash.as_slice(), expected)
    }

    fn pop_bytes(&mut self, size: u32) -> (r: Option<Vec<u8>>)
        ensures
            old(self)@.buf.len() < size ==> r is None && final(self)@ == old(self)@,
            old(self)@.buf.len() >= size ==> (r matches Some(v) && v@ == old(self)@.buf.take(
                size as int,
            ) && final(self)@ == (InstallerModel {
                buf: old(self)@.buf.skip(size as int),
                ..old(self)@
            })),
    {
        let size = size as usize;
        if self.buf.len() < size {
            return None;
        }
        let mut res: Vec<u8> = Vec::with_capacity(size);
        let ghost start = self.buf@;
        let mut i: usize = 0;
        while i < size
            invariant
                0 <= i <= size,
                size <= start.len(),
                res@ == start.take(i as int),
                self.buf@ == start.skip(i as int),
                self.headers == old(self).headers,
                self.received_size == old(self).received_size,
                self.file == old(self).file,
                self.hasher == old(self).hasher,
                self.has_manual == old(self).has_manual,
                start == old(self).buf@,
            decreases size - i,
        {
            let b = self.buf.pop_front().unwrap();
            res.push(b);
            assert(res@ =~= start.take(i + 1));
            assert(self.buf@ =~= start.skip(i + 1));
            i = i + 1;
        }
        Some(res)
    }

    fn pop_u32(&mut self) -> (r: Option<u32>)
        ensures
            old(self)@.buf.len() < 4 ==> r is None && final(self)@ == old(self)@,
            old(self)@.buf.len() >= 4 ==> r == Some(le_u32(old(self)@.buf)) && final(self)@ == (
            InstallerModel { buf: old(self)@.buf.skip(4), ..old(self)@ }),
    {
        if self.buf.len() < 4 {
            return None;
        }
        let raw = self.pop_bytes(4).unwrap();
        let n = raw[0] as u32 + raw[1] as u32 * 0x100 + raw[2] as u32 * 0x10000 + raw[3] as u32
            * 0x1000000;
        Some(n)
    }

    fn pop_string(&mut self, size: u32) -> (r: Option<String>)
        ensures
            old(self)@.buf.len() < size ==> r is None && final(self)@ == old(self)@,
            old(self)@.buf.len() >= size ==> (r matches Some(s) && s@ == utf8_chars_or_empty(
                old(self)@.buf.take(size as int),
            ) && final(self)@ == (InstallerModel {
                buf: old(self)@.buf.skip(size as int),
                ..old(self)@
            })),
    {
        let raw = self.pop_bytes(size)?;
        let s = string_from_utf8_or_empty(&raw);
        Some(s)
    }

    /// Copies the buffered bytes into one slice.
    fn contiguous(&self) -> (r: Vec<u8>)
        ensures
            r@ == self@.buf,
    {
        let mut res: Vec<u8> = Vec::with_capacity(self.buf.len());
        let mut i: usize = 0;
        while i < self.buf.len()
            invariant
                0 <= i <= self.buf@.len(),
                res@ == self.buf@.take(i as int),
            decreases self.buf@.len() - i,
        {
            res.push(self.buf[i]);
            assert(res@ =~= self.buf@.take(i + 1));
            i = i + 1;
        }
        assert(res@ =~= self.buf@);
        res
    }

    /// Parses the buffered bytes one step further.
    fn parse_step(&mut self, actions: &mut Vec<Action>) -> (r: StepOutcome)
        requires
            old(self)@.buf.len() <= u32::MAX,
            step(old(self)@) matches Step::Next(t, _) ==> t.received <= u32::MAX,
        ensures
            match step(old(self)@) {
                Step::Stop => r is Stop && final(self)@ == old(self)@ && final(actions)@ == old(
                    actions,
                )@,
                Step::Fail(e, t) => r == StepOutcome::Fail(e) && final(self)@ == t
                    && final(actions)@ == old(actions)@,
                Step::Next(t, acts) => r is Next && final(self)@ == t && actions_view(
                    final(actions)@,
                ) == actions_view(old(actions)@) + acts,
            },
    {
        let ghost s = self@;
        if self.headers.is_none() {
            let data = self.contiguous();
            let end: [u8; 4] = [0x0d, 0x0a, 0x0d, 0x0a];
            assert(end@ =~= head_end());
            let idx = match find_subslice(&data, &end) {
                Some(idx) => idx,
                None => return StepOutcome::Stop,
            };
            proof {
                lemma_find_window_from_bounds(s.buf, head_end(), 0);
            }
            let size = idx as u32 + 4;
            let raw = self.pop_bytes(size).unwrap();
            let headers = match RespHeaders::parse(&raw) {
                Ok(h) => h,
                Err(e) => return StepOutcome::Fail(e),
            };
            let ghost before = actions@;
            actions.push(
                Action::CreateRomDir {
                    author_id: headers.author_id.clone(),
                    app_id: headers.app_id.clone(),
                },
            );
            assert(actions_view(actions@) =~= actions_view(before) + step(s)->Next_1);
            self.headers = Some(headers);
            return StepOutcome::Next;
        }
        let hash_lit: [u8; 5] = ['_' as u8, 'h' as u8, 'a' as u8, 's' as u8, 'h' as u8];
        assert(hash_lit@ =~= hash_file());
        match &self.file {
            FileStatus::Waiting => {
                let size = match self.pop_u32() {
                    Some(size) => size,
                    None => return StepOutcome::Stop,
                };
                self.file = FileStatus::NameLen(size);
                assert(actions_view(actions@) =~= actions_view(actions@) + step(s)->Next_1);
                StepOutcome::Next
            },
            FileStatus::NameLen(size) => {
                let size = *size;
                let name = match self.pop_string(size) {
                    Some(name) => name,
                    None => return StepOutcome::Stop,
                };
                if !named(&name, &hash_lit) {
                    let zero: [u8; 1] = [0];
                    sha256_update(&mut self.hasher, &zero);
                    sha256_update(&mut self.hasher, name.as_str().as_bytes());
                    sha256_update(&mut self.hasher, &zero);
                    assert(zero@ =~= seq![0u8]);
                }
                self.file = FileStatus::Name(name);
                assert(actions_view(actions@) =~= actions_view(actions@) + step(s)->Next_1);
                assert(self@ =~= step(s)->Next_0);
                StepOutcome::Next
            },
            FileStatus::Name(name) => {
                let name = name.clone();
                let size = match self.pop_u32() {
                    Some(size) => size,
                    None => return StepOutcome::Stop,
                };
                let manual_lit: [u8; 7] = [
                    '_' as u8,
                    'm' as u8,
                    'a' as u8,
                    'n' as u8,
                    'u' as u8,
                    'a' as u8,
                    'l' as u8,
                ];
                assert(manual_lit@ =~= manual_file());
                let required_buf = if size < FLUSH_EVERY + 200 {
                    size
                } else {
                    FLUSH_EVERY + 200
                } as usize;
                if required_buf > self.buf.len() {
                    self.buf.reserve(required_buf - self.buf.len());
                }
                if named(&name, &manual_lit) {
                    self.has_manual = true;
                }
                self.file = FileStatus::BodySize { name, size, left: size };
                assert(actions_view(actions@) =~= actions_view(actions@) + step(s)->Next_1);
                StepOutcome::Next
            },
            FileStatus::BodySize { name, size, left } => {
                let name = name.clone();
                let size = *size;
                let left = *left;
                let chunk_size = if left < FLUSH_EVERY {
                    left
                } else {
                    FLUSH_EVERY
                };
                let content = match self.pop_bytes(chunk_size) {
                    Some(content) => content,
                    None => return StepOutcome::Stop,
                };
                if !named(&name, &hash_lit) {
                    sha256_update(&mut self.hasher, &content);
                }
                self.received_size = self.received_size + chunk_size;
                let path = rom_path(self.headers.as_ref().unwrap(), &name);
                let ghost before = actions@;
                if left == size {
                    actions.push(Action::DumpFile { path, content });
                } else {
                    actions.push(Action::AppendFile { path, content });
                }
                assert(actions_view(actions@) =~= actions_view(before) + step(s)->Next_1);
                let left = left - chunk_size;
                if left == 0 {
                    self.file = FileStatus::Waiting;
                } else {
                    self.file = FileStatus::BodySize { name, size, left };
                }
                StepOutcome::Next
            },
        }
    }
}

/// How the stream goes on from `s`: the final state agrees, and the
/// actions still to come complete those already taken.
pub proof fn lemma_run_step(s: InstallerModel)
    ensures
        step(s) matches Step::Next(t, acts) ==> run(t).0 == run(s).0 && run(t).2 == run(s).2
            && acts + run(t).1 == run(s).1,
        run(s).0.received >= s.received,
        run(s).0.buf.len() <= s.buf.len(),
    decreases measure(s),
{
    lemma_step_decreases(s);
    lemma_find_window_from_bounds(s.buf, head_end(), 0);
    if let Step::Next(t, acts) = step(s) {
        lemma_run_step(t);
    }
}

impl Installer {
    /// Add the chunk to the buffer and parse the parts of the buffer that can be parsed.
    ///
    /// On success, returns the file system work that the parsed part asks for,
    /// in order.
    pub fn update(&mut self, chunk: &[u8]) -> (r: Result<Vec<Action>, &'static str>)
        requires
            old(self)@.buf.len() + chunk@.len() <= u32::MAX,
            run(fed_with(old(self)@, chunk@)).0.received <= u32::MAX,
        ensures
            ({
                let (t, acts, err) = run(fed_with(old(self)@, chunk@));
                &&& final(self)@ == t
                &&& match err {
                    None => r matches Ok(v) && actions_view(v@) == acts,
                    Some(e) => r == Err::<Vec<Action>, &'static str>(e),
                }
            }),
    {
        let ghost start = self.buf@;
        let mut i: usize = 0;
        while i < chunk.len()
            invariant
                0 <= i <= chunk@.len(),
                self.buf@ == start + chunk@.take(i as int),
                self.headers == old(self).headers,
                self.received_size == old(self).received_size,
                self.file == old(self).file,
                self.hasher == old(self).hasher,
                self.has_manual == old(self).has_manual,
                start == old(self).buf@,
            decreases chunk@.len() - i,
        {
            self.buf.push_back(chunk[i]);
            assert(self.buf@ =~= start + chunk@.take(i + 1));
            i = i + 1;
        }
        assert(chunk@.take(chunk@.len() as int) =~= chunk@);
        assert(self@ == fed_with(old(self)@, chunk@));
        let ghost goal = run(self@);
        let mut actions: Vec<Action> = Vec::new();
        assert(actions_view(actions@) + run(self@).1 =~= goal.1);
        loop
            invariant_except_break
                goal == run(fed_with(old(self)@, chunk@)),
                run(self@).0 == goal.0,
                run(self@).2 == goal.2,
                actions_view(actions@) + run(self@).1 == goal.1,
                self@.buf.len() <= u32::MAX,
                goal.0.received <= u32::MAX,
            ensures
                goal == run(fed_with(old(self)@, chunk@)),
                run(self@).0 == goal.0,
                run(self@).2 == goal.2,
                actions_view(actions@) + run(self@).1 == goal.1,
                step(self@) is Stop,
            decreases measure(self@),
        {
            proof {
                lemma_run_step(self@);
                lemma_step_decreases(self@);
                if let Step::Next(t, _) = step(self@) {
                    lemma_run_step(t);
                }
            }
            let ghost prev = self@;
            match self.parse_step(&mut actions) {
                StepOutcome::Stop => break ,
                StepOutcome::Fail(e) => {
                    assert(run(prev) == (self@, Seq::<ActionModel>::empty(), Some(e)));
                    return Err(e);
                },
                StepOutcome::Next => {},
            }
        }
        Ok(actions)
    }
}

proof fn lemma_find_window_extend(d: Seq<u8>, needle: Seq<u8>, m: Seq<u8>, i: int)
    requires
        find_window_from(d, needle, i) is Some,
    ensures
        find_window_from(d + m, needle, i) == find_window_from(d, needle, i),
    decreases d.len() + 1 - i,
{
    if !(i < 0 || i + needle.len() > d.len()) {
        assert((d + m).subrange(i, i + needle.len()) =~= d.subrange(i, i + needle.len()));
        if d.subrange(i, i + needle.len()) != needle {
            lemma_find_window_extend(d, needle, m, i + 1);
        }
    }
}

proof fn lemma_skip_extend(d: Seq<u8>, m: Seq<u8>, k: int)
    requires
        0 <= k <= d.len(),
    ensures
        (d + m).skip(k) == d.skip(k) + m,
        (d + m).take(k) == d.take(k),
{
    assert((d + m).skip(k) =~= d.skip(k) + m);
    assert((d + m).take(k) =~= d.take(k));
}

/// A step that goes on without more bytes takes no notice of bytes that arrive later.
proof fn lemma_step_extend(s: InstallerModel, m: Seq<u8>)
    ensures
        step(s) matches Step::Next(t, acts) ==> step(fed_with(s, m)) == Step::Next(
            fed_with(t, m),
            acts,
        ),
        step(s) matches Step::Fail(e, t) ==> step(fed_with(s, m)) == Step::Fail(e, fed_with(t, m)),
{
    let sm = fed_with(s, m);
    match s.headers {
        None => {
            if let Some(idx) = find_window(s.buf, head_end()) {
                lemma_find_window_extend(s.buf, head_end(), m, 0);
                lemma_find_window_from_bounds(s.buf, head_end(), 0);
                lemma_skip_extend(s.buf, m, idx + 4);
                match step(s) {
                    Step::Next(t, acts) => {
                        assert(step(sm)->Next_0 =~= fed_with(t, m));
                    },
                    Step::Fail(e, t) => {
                        assert(step(sm)->Fail_1 =~= fed_with(t, m));
                    },
                    _ => {},
                }
            }
        },
        Some(h) => match s.file {
            FileModel::Waiting => {
                if s.buf.len() >= 4 {
                    lemma_skip_extend(s.buf, m, 4);
                    assert(le_u32(s.buf + m) == le_u32(s.buf));
                    assert(step(sm)->Next_0 =~= fed_with(step(s)->Next_0, m));
                }
            },
            FileModel::NameLen(size) => {
                if s.buf.len() >= size {
                    lemma_skip_extend(s.buf, m, size as int);
                    assert(step(sm)->Next_0 =~= fed_with(step(s)->Next_0, m));
                }
            },
            FileModel::Name(name) => {
                if s.buf.len() >= 4 {
                    lemma_skip_extend(s.buf, m, 4);
                    assert(le_u32(s.buf + m) == le_u32(s.buf));
                    assert(step(sm)->Next_0 =~= fed_with(step(s)->Next_0, m));
                }
            },
            FileModel::BodySize { name, size, left } => {
                let chunk = if left < FLUSH_EVERY {
                    left
                } else {
                    FLUSH_EVERY
                };
                if s.buf.len() >= chunk {
                    lemma_skip_extend(s.buf, m, chunk as int);
                    assert(step(sm)->Next_0 =~= fed_with(step(s)->Next_0, m));
                }
            },
        },
    }
}

/// Bytes that arrive after the parser stopped continue the stream where it
/// stopped; after a failure they are only buffered.
pub proof fn lemma_run_extend(s: InstallerModel, m: Seq<u8>)
    ensures
        ({
            let (t, acts, err) = run(s);
            match err {
                None => run(fed_with(s, m)) == (
                    run(fed_with(t, m)).0,
                    acts + run(fed_with(t, m)).1,
                    run(fed_with(t, m)).2,
                ),
                Some(e) => run(fed_with(s, m)) == (fed_with(t, m), acts, Some(e)),
            }
        }),
    decreases measure(s),
{
    lemma_step_extend(s, m);
    lemma_step_decreases(s);
    match step(s) {
        Step::Stop => {
            assert(seq![] + run(fed_with(s, m)).1 =~= run(fed_with(s, m)).1);
        },
        Step::Fail(e, t) => {},
        Step::Next(t, acts) => {
            lemma_step_decreases(fed_with(s, m));
            lemma_run_extend(t, m);
            let (u, more, err) = run(t);
            if err is None {
                assert(acts + (more + run(fed_with(u, m)).1) =~= (acts + more) + run(
                    fed_with(u, m),
                ).1);
            }
        },
    }
}

/// The download stream can be cut into chunks anywhere: feeding `a` and then
/// `b` leaves the installer in the state that feeding `a + b` at once does,
/// with the same file system work in the same order, and the same failure, if
/// any.
pub proof fn lemma_chunks_compose(s: InstallerModel, a: Seq<u8>, b: Seq<u8>)
    requires
        run(fed_with(s, a)).2 is None,
    ensures
        ({
            let (t, acts1, _) = run(fed_with(s, a));
            let (u, acts2, err) = run(fed_with(t, b));
            run(fed_with(s, a + b)) == (u, acts1 + acts2, err)
        }),
{
    lemma_run_extend(fed_with(s, a), b);
    assert(fed_with(fed_with(s, a), b) =~= fed_with(s, a + b));
}

/// The count of received bytes never shrinks.
pub proof fn lemma_run_grows(s: InstallerModel)
    ensures
        run(s).0.received >= s.received,
    decreases measure(s),
{
    if let Step::Next(t, _) = step(s) {
        lemma_step_decreases(s);
        lemma_run_grows(t);
    }
}

/// Where [`Installer::update`] may take `a + b` at once, it may also take `a`
/// and then, unless `a` failed, `b`: the bounds that it asks for hold for
/// both calls.
pub proof fn lemma_split_bounds(s: InstallerModel, a: Seq<u8>, b: Seq<u8>)
    requires
        s.buf.len() + a.len() + b.len() <= u32::MAX,
        run(fed_with(s, a + b)).0.received <= u32::MAX,
    ensures
        s.buf.len() + a.len() <= u32::MAX,
        run(fed_with(s, a)).0.received <= u32::MAX,
        run(fed_with(s, a)).2 is None ==> run(fed_with(s, a)).0.buf.len() + b.len() <= u32::MAX
            && run(fed_with(run(fed_with(s, a)).0, b)).0.received <= u32::MAX,
{
    let t = run(fed_with(s, a)).0;
    lemma_run_extend(fed_with(s, a), b);
    assert(fed_with(fed_with(s, a), b) =~= fed_with(s, a + b));
    lemma_run_grows(fed_with(t, b));
    lemma_run_grows(fed_with(s, a));
    lemma_run_received(fed_with(s, a));
}

/// Parsing takes body bytes only out of the buffered ones: the count of
/// received bytes plus the count of buffered bytes never grows.
pub proof fn lemma_run_received(s: InstallerModel)
    ensures
        run(s).0.received + run(s).0.buf.len() <= s.received + s.buf.len(),
    decreases measure(s),
{
    if s.headers is None {
        lemma_find_window_from_bounds(s.buf, head_end(), 0);
    }
    if let Step::Next(t, _) = step(s) {
        lemma_step_decreases(s);
        lemma_run_received(t);
    }
}

/// Once the response head was parsed, the stream can no longer fail: the
/// headers stay as they are and the count of received bytes only grows.
pub proof fn lemma_run_with_headers(s: InstallerModel)
    requires
        s.headers is Some,
    ensures
        run(s).2 is None,
        run(s).0.headers == s.headers,
        run(s).0.received >= s.received,
    decreases measure(s),
{
    if let Step::Next(t, _) = step(s) {
        lemma_step_decreases(s);
        lemma_run_with_headers(t);
    }
}

/// A write to a ROM file holds at most [`FLUSH_EVERY`] bytes.
pub open spec fn within_flush(a: ActionModel) -> bool {
    match a {
        ActionModel::DumpFile { content, .. } => content.len() <= FLUSH_EVERY,
        ActionModel::AppendFile { content, .. } => content.len() <= FLUSH_EVERY,
        ActionModel::CreateRomDir { .. } => true,
    }
}

/// A file body is kept in RAM only until [`FLUSH_EVERY`] bytes of it have
/// arrived: every write holds at most that many bytes, and when parsing
/// stops inside a file body, fewer than that many bytes are buffered.
pub proof fn lemma_run_flushes(s: InstallerModel)
    requires
        s.headers is None ==> s.file is Waiting,
    ensures
        ({
            let (t, acts, err) = run(s);
            &&& forall|i: int| 0 <= i < acts.len() ==> #[trigger] within_flush(acts[i])
            &&& (err is None && t.file is BodySize) ==> t.buf.len() < FLUSH_EVERY
        }),
    decreases measure(s),
{
    match step(s) {
        Step::Stop => {
            assert(run(s).1 =~= Seq::<ActionModel>::empty());
        },
        Step::Fail(_, _) => {
            assert(run(s).1 =~= Seq::<ActionModel>::empty());
        },
        Step::Next(t, acts) => {
            lemma_step_decreases(s);
            lemma_run_flushes(t);
            let more = run(t).1;
            assert forall|i: int| 0 <= i < acts.len() implies #[trigger] within_flush(acts[i]) by {}
            assert forall|i: int| 0 <= i < (acts + more).len() implies #[trigger] within_flush(
                (acts + more)[i],
            ) by {
                if i >= acts.len() {
                    assert((acts + more)[i] == more[i - acts.len()]);
                }
            }
        },
    }
}

/// The four little-endian bytes of `x`.
pub open spec fn le_bytes(x: u32) -> Seq<u8> {
    seq![
        (x % 0x100) as u8,
        (x / 0x100 % 0x100) as u8,
        (x / 0x10000 % 0x100) as u8,
        (x / 0x1000000) as u8,
    ]
}

/// One file of the stream: the length of its name, the name, the size of
/// its body, and the body.
pub open spec fn file_record(name: Seq<u8>, body: Seq<u8>) -> Seq<u8> {
    le_bytes(name.len() as u32) + name + le_bytes(body.len() as u32) + body
}

/// What a write action writes; nothing for the other actions.
pub open spec fn written_by(a: ActionModel) -> Seq<u8> {
    match a {
        ActionModel::DumpFile { content, .. } => content,
        ActionModel::AppendFile { content, .. } => content,
        ActionModel::CreateRomDir { .. } => seq![],
    }
}

/// Everything that the actions write, one after the other.
pub open spec fn written(acts: Seq<ActionModel>) -> Seq<u8>
    decreases acts.len(),
{
    if acts.len() == 0 {
        seq![]
    } else {
        written_by(acts[0]) + written(acts.drop_first())
    }
}

/// The writes of a file body to `path`, in blocks of [`FLUSH_EVERY`] bytes
/// and a last, shorter block: the first replaces the file when `first`, the
/// others append to it.
pub open spec fn body_writes(path: Seq<char>, body: Seq<u8>, first: bool) -> Seq<ActionModel>
    decreases body.len(),
{
    let n: int = if body.len() < FLUSH_EVERY {
        body.len() as int
    } else {
        FLUSH_EVERY as int
    };
    let w = if first {
        ActionModel::DumpFile { path, content: body.take(n) }
    } else {
        ActionModel::AppendFile { path, content: body.take(n) }
    };
    if body.len() <= FLUSH_EVERY {
        seq![w]
    } else {
        seq![w] + body_writes(path, body.skip(FLUSH_EVERY as int), false)
    }
}

/// What the ROM hash is computed over for one file: nothing for the hash
/// file, else the name between zero bytes, then the body.
pub open spec fn hashed(name: Seq<char>, body: Seq<u8>) -> Seq<u8> {
    if is_named(name, hash_file()) {
        seq![]
    } else {
        seq![0u8] + encode_utf8(name) + seq![0u8] + body
    }
}

proof fn lemma_le_u32(x: u32, rest: Seq<u8>)
    ensures
        le_u32(le_bytes(x) + rest) == x,
{
    let b = le_bytes(x) + rest;
    assert(b[0] == x % 0x100 && b[1] == x / 0x100 % 0x100 && b[2] == x / 0x10000 % 0x100 && b[3]
        == x / 0x1000000);
    let y = x as int;
    assert(y == y % 0x100 + (y / 0x100 % 0x100) * 0x100 + (y / 0x10000 % 0x100) * 0x10000 + (y
        / 0x1000000) * 0x1000000) by (nonlinear_arith)
        requires
            0 <= y < 0x1_0000_0000,
    ;
}

/// The rest of a file body, `left` bytes of it, all buffered.
proof fn lemma_run_body(s: InstallerModel, name: Seq<char>, size: u32, left: u32)
    requires
        s.headers is Some,
        s.file == (FileModel::BodySize { name, size, left }),
        s.buf.len() == left,
        left <= size,
    ensures
        run(s) == (
            InstallerModel {
                file: FileModel::Waiting,
                buf: seq![],
                received: s.received + left,
                fed: if is_named(name, hash_file()) {
                    s.fed
                } else {
                    s.fed + s.buf
                },
                ..s
            },
            body_writes(rom_file_path(s.headers->0, name), s.buf, left == size),
            None::<&'static str>,
        ),
    decreases left,
{
    let h = s.headers->0;
    let chunk: u32 = if left < FLUSH_EVERY {
        left
    } else {
        FLUSH_EVERY
    };
    let content = s.buf.take(chunk as int);
    let path = rom_file_path(h, name);
    let w = if left == size {
        ActionModel::DumpFile { path, content }
    } else {
        ActionModel::AppendFile { path, content }
    };
    let t1 = InstallerModel {
        file: if left - chunk == 0 {
            FileModel::Waiting
        } else {
            FileModel::BodySize { name, size, left: (left - chunk) as u32 }
        },
        buf: s.buf.skip(chunk as int),
        fed: if is_named(name, hash_file()) {
            s.fed
        } else {
            s.fed + content
        },
        received: s.received + chunk,
        ..s
    };
    assert(step(s) == Step::Next(t1, seq![w]));
    lemma_step_decreases(s);
    let more = run(t1).1;
    assert(run(s) == (run(t1).0, seq![w] + more, run(t1).2));
    if left - chunk == 0 {
        assert(t1.buf.len() == 0);
        assert(step(t1) == Step::Stop);
        assert(run(t1) == (t1, Seq::<ActionModel>::empty(), None::<&'static str>));
        assert(seq![w] + more =~= seq![w]);
        assert(content =~= s.buf);
        assert(t1.buf =~= Seq::<u8>::empty());
    } else {
        lemma_run_body(t1, name, size, (left - chunk) as u32);
        assert(s.fed + content + s.buf.skip(chunk as int) =~= s.fed + s.buf);
    }
}

/// A body's writes hold the whole body, in order, in full blocks of
/// [`FLUSH_EVERY`] bytes but the last.
pub proof fn lemma_body_writes(path: Seq<char>, body: Seq<u8>, first: bool)
    ensures
        written(body_writes(path, body, first)) == body,
        body_writes(path, body, first).len() >= 1,
        forall|i: int|
            0 <= i < body_writes(path, body, first).len() - 1 ==> (#[trigger] written_by(
                body_writes(path, body, first)[i],
            )).len() == FLUSH_EVERY,
    decreases body.len(),
{
    let acts = body_writes(path, body, first);
    if body.len() <= FLUSH_EVERY {
        assert(acts.drop_first() =~= Seq::<ActionModel>::empty());
        assert(body.take(body.len() as int) =~= body);
        assert(written_by(acts[0]) == body);
        assert(written(acts.drop_first()) == Seq::<u8>::empty());
        assert(written(acts) == written_by(acts[0]) + written(acts.drop_first()));
        assert(written(acts) =~= body);
    } else {
        let rest = body_writes(path, body.skip(FLUSH_EVERY as int), false);
        lemma_body_writes(path, body.skip(FLUSH_EVERY as int), false);
        assert(acts.drop_first() =~= rest);
        assert(body.take(FLUSH_EVERY as int) + body.skip(FLUSH_EVERY as int) =~= body);
        assert(written_by(acts[0]) == body.take(FLUSH_EVERY as int));
        assert(written(acts) == written_by(acts[0]) + written(acts.drop_first()));
        assert forall|i: int| 0 <= i < acts.len() - 1 implies (#[trigger] written_by(acts[i])).len()
            == FLUSH_EVERY by {
            if i > 0 {
                assert(acts[i] == rest[i - 1]);
            }
        }
    }
}

proof fn lemma_run_silent_step(s: InstallerModel, t: InstallerModel)
    requires
        step(s) == Step::Next(t, Seq::<ActionModel>::empty()),
    ensures
        run(s) == run(t),
{
    lemma_step_decreases(s);
    assert(Seq::<ActionModel>::empty() + run(t).1 =~= run(t).1);
}

/// The state once the head of a file record, up to its body, was parsed.
spec fn body_state(s: InstallerModel, name: Seq<char>, size: u32, body: Seq<u8>) -> InstallerModel {
    InstallerModel {
        file: FileModel::BodySize { name, size, left: size },
        buf: body,
        fed: if is_named(name, hash_file()) {
            s.fed
        } else {
            s.fed + seq![0u8] + encode_utf8(name) + seq![0u8]
        },
        has_manual: s.has_manual || is_named(name, manual_file()),
        ..s
    }
}

proof fn lemma_record_head(s: InstallerModel, name: Seq<char>, body: Seq<u8>)
    requires
        s.headers is Some,
        s.file is Waiting,
        s.buf.len() == 0,
        encode_utf8(name).len() <= u32::MAX,
        body.len() <= u32::MAX,
    ensures
        run(fed_with(s, file_record(encode_utf8(name), body))) == run(
            body_state(s, name, body.len() as u32, body),
        ),
{
    let n = encode_utf8(name);
    let nlen = n.len() as u32;
    let blen = body.len() as u32;
    let s0 = fed_with(s, file_record(n, body));
    let s1 = InstallerModel { file: FileModel::NameLen(nlen), buf: n + le_bytes(blen) + body, ..s };
    assert(s0.buf =~= le_bytes(nlen) + (n + le_bytes(blen) + body));
    lemma_le_u32(nlen, n + le_bytes(blen) + body);
    assert(s0.buf.skip(4) =~= n + le_bytes(blen) + body);
    assert(step(s0) == Step::Next(s1, Seq::<ActionModel>::empty()));
    lemma_run_silent_step(s0, s1);
    lemma_name_step(s, name, body);
}

proof fn lemma_name_step(s: InstallerModel, name: Seq<char>, body: Seq<u8>)
    requires
        s.headers is Some,
        encode_utf8(name).len() <= u32::MAX,
        body.len() <= u32::MAX,
    ensures
        ({
            let n = encode_utf8(name);
            let s1 = InstallerModel {
                file: FileModel::NameLen(n.len() as u32),
                buf: n + le_bytes(body.len() as u32) + body,
                ..s
            };
            run(s1) == run(body_state(s, name, body.len() as u32, body))
        }),
{
    let n = encode_utf8(name);
    let nlen = n.len() as u32;
    let blen = body.len() as u32;
    let s1 = InstallerModel { file: FileModel::NameLen(nlen), buf: n + le_bytes(blen) + body, ..s };
    let fed2 = if is_named(name, hash_file()) {
        s.fed
    } else {
        s.fed + seq![0u8] + n + seq![0u8]
    };
    let s2 = InstallerModel { file: FileModel::Name(name), buf: le_bytes(blen) + body, fed: fed2, ..s };
    vstd::utf8::encode_utf8_valid_utf8(name);
    vstd::utf8::encode_utf8_decode_utf8(name);
    assert(s1.buf.take(nlen as int) =~= n);
    assert(s1.buf.skip(nlen as int) =~= le_bytes(blen) + body);
    assert(step(s1) == Step::Next(s2, Seq::<ActionModel>::empty()));
    lemma_run_silent_step(s1, s2);
    lemma_le_u32(blen, body);
    assert(s2.buf.skip(4) =~= body);
    assert(step(s2) == Step::Next(body_state(s, name, blen, body), Seq::<ActionModel>::empty()));
    lemma_run_silent_step(s2, body_state(s, name, blen, body));
}

/// The state after one whole file was parsed.
pub open spec fn after_file(s: InstallerModel, name: Seq<char>, body: Seq<u8>) -> InstallerModel {
    InstallerModel {
        received: s.received + body.len(),
        fed: s.fed + hashed(name, body),
        has_manual: s.has_manual || is_named(name, manual_file()),
        ..s
    }
}

/// What the installer writes of a file is what the stream holds of it: fed
/// one whole file while waiting for the next, it writes the body to
/// `roms/<author_id>/<app_id>/<name>` in blocks of [`FLUSH_EVERY`] bytes (the
/// first replacing the file, the others appending; see [`lemma_body_writes`]),
/// counts the body as received, hashes the name and the body unless the file
/// is `_hash`, notes a `_manual`, and waits for the next file with nothing
/// buffered.
pub proof fn lemma_file_written(s: InstallerModel, name: Seq<char>, body: Seq<u8>)
    requires
        s.headers is Some,
        s.file is Waiting,
        s.buf.len() == 0,
        encode_utf8(name).len() <= u32::MAX,
        body.len() <= u32::MAX,
    ensures
        run(fed_with(s, file_record(encode_utf8(name), body))) == (
            after_file(s, name, body),
            body_writes(rom_file_path(s.headers->0, name), body, true),
            None::<&'static str>,
        ),
{
    let blen = body.len() as u32;
    lemma_record_head(s, name, body);
    let s3 = body_state(s, name, blen, body);
    lemma_run_body(s3, name, blen, blen);
    assert(s.buf =~= Seq::<u8>::empty());
    if !is_named(name, hash_file()) {
        assert(s3.fed + body =~= s.fed + hashed(name, body));
    }
    assert(run(s3).0 =~= after_file(s, name, body));
}

/// The records of several files, one after the other.
pub open spec fn file_records(files: Seq<(Seq<char>, Seq<u8>)>) -> Seq<u8>
    decreases files.len(),
{
    if files.len() == 0 {
        seq![]
    } else {
        file_record(encode_utf8(files[0].0), files[0].1) + file_records(files.drop_first())
    }
}

/// The writes of several files, one file after the other.
pub open spec fn files_writes(h: HeadersModel, files: Seq<(Seq<char>, Seq<u8>)>) -> Seq<ActionModel>
    decreases files.len(),
{
    if files.len() == 0 {
        seq![]
    } else {
        body_writes(rom_file_path(h, files[0].0), files[0].1, true) + files_writes(
            h,
            files.drop_first(),
        )
    }
}

/// The state after several whole files were parsed.
pub open spec fn after_files(s: InstallerModel, files: Seq<(Seq<char>, Seq<u8>)>) -> InstallerModel
    decreases files.len(),
{
    if files.len() == 0 {
        s
    } else {
        after_files(after_file(s, files[0].0, files[0].1), files.drop_first())
    }
}

/// A stream of whole files, however it is cut into chunks (see
/// [`lemma_chunks_compose`]), writes each file in turn as
/// [`lemma_file_written`] says, and leaves the installer waiting for the next
/// file with nothing buffered.
pub proof fn lemma_files_written(s: InstallerModel, files: Seq<(Seq<char>, Seq<u8>)>)
    requires
        s.headers is Some,
        s.file is Waiting,
        s.buf.len() == 0,
        forall|i: int|
            0 <= i < files.len() ==> encode_utf8((#[trigger] files[i]).0).len() <= u32::MAX
                && files[i].1.len() <= u32::MAX,
    ensures
        run(fed_with(s, file_records(files))) == (
            after_files(s, files),
            files_writes(s.headers->0, files),
            None::<&'static str>,
        ),
    decreases files.len(),
{
    if files.len() == 0 {
        assert(fed_with(s, file_records(files)) =~= s);
        assert(step(s) == Step::Stop);
    } else {
        let (name, body) = files[0];
        let rest = files.drop_first();
        assert(files[0] == (name, body));
        let r0 = file_record(encode_utf8(name), body);
        lemma_file_written(s, name, body);
        lemma_run_extend(fed_with(s, r0), file_records(rest));
        assert(fed_with(fed_with(s, r0), file_records(rest)) =~= fed_with(s, file_records(files)));
        let t0 = after_file(s, name, body);
        assert(fed_with(t0, file_records(rest)) == fed_with(t0, file_records(rest)));
        assert forall|i: int| 0 <= i < rest.len() implies encode_utf8((#[trigger] rest[i]).0).len()
            <= u32::MAX && rest[i].1.len() <= u32::MAX by {
            assert(rest[i] == files[i + 1]);
        }
        lemma_files_written(t0, rest);
    }
}

impl Installer {
    /// Whether `n` more bytes can be taken without the count of received
    /// bytes overflowing; if so, [`Installer::update`] takes any `n` bytes.
    pub fn can_take(&self, n: usize) -> (r: bool)
        ensures
            r == (self@.received + self@.buf.len() + n <= u32::MAX),
            forall|chunk: Seq<u8>|
                r && chunk.len() == n ==> self@.buf.len() + chunk.len() <= u32::MAX
                    && #[trigger] run(fed_with(self@, chunk)).0.received <= u32::MAX,
    {
        let buffered = self.buf.len();
        let r = if buffered > 0xffff_ffff || n > 0xffff_ffff {
            false
        } else {
            (self.received_size as u64) + (buffered as u64) + (n as u64) <= 0xffff_ffff
        };
        proof {
            assert forall|chunk: Seq<u8>|
                r && chunk.len() == n implies self@.buf.len() + chunk.len() <= u32::MAX
                    && #[trigger] run(fed_with(self@, chunk)).0.received <= u32::MAX by {
                lemma_run_received(fed_with(self@, chunk));
            }
        }
        r
    }
}

/// The paths that making the directory of a new ROM works with.
pub struct RomDirs {
    /// `roms/<author_id>`
    pub author_path: String,
    /// `roms/<author_id>/<app_id>`
    pub rom_path: String,
    /// `roms/<author_id>/<app_id>/_bin`, there when an old ROM is installed.
    pub bin_path: String,
}

/// The paths of the ROM directory; [`rom_dir_work`] says what to do with
/// them.
pub fn rom_dirs(author_id: &str, app_id: &str) -> (r: RomDirs)
    ensures
        r.author_path@ == "roms/"@ + author_id@,
        r.rom_path@ == r.author_path@ + "/"@ + app_id@,
        r.bin_path@ == r.rom_path@ + "/_bin"@,
{
    let mut author_path = "roms/".to_owned();
    author_path.append(author_id);
    let mut rom_path = author_path.clone();
    rom_path.append("/");
    rom_path.append(app_id);
    let mut bin_path = rom_path.clone();
    bin_path.append("/_bin");
    RomDirs { author_path, rom_path, bin_path }
}

/// `sys`
pub open spec fn sys_dir() -> Seq<u8> {
    seq!['s' as u8, 'y' as u8, 's' as u8]
}

/// Whether the author's directory is to be created: unless the path is `sys`.
pub fn creates_author_dir(author_path: &str) -> (r: bool)
    ensures
        r == (author_path.spec_bytes() != sys_dir()),
{
    let sys: [u8; 3] = ['s' as u8, 'y' as u8, 's' as u8];
    assert(sys@ =~= sys_dir());
    !bytes_equal(author_path.as_bytes(), &sys)
}


/// The file system work that prepares the directory of a new ROM: create
/// the directories of `create`, in order, then remove every file in the
/// directory at `clear`, so that it ends empty.
pub struct RomDirWork {
    pub create: Vec<String>,
    pub clear: String,
}

/// Remove the old ROM (if any) and create an empty dir for the new ROM.
///
/// An old ROM is there when its `_bin` file, of `bin_size` bytes, is not
/// empty; else the author's directory (unless it is `sys`) and the ROM
/// directory are created first. Either way, the files in the ROM directory
/// are removed, so that nothing of an earlier install is left; no other path
/// is touched.
pub fn rom_dir_work(dirs: RomDirs, bin_size: usize) -> (r: RomDirWork)
    ensures
        r.clear@ == dirs.rom_path@,
        bin_size != 0 ==> r.create@.len() == 0,
        bin_size == 0 ==> if encode_utf8(dirs.author_path@) != sys_dir() {
            r.create@.len() == 2 && r.create@[0]@ == dirs.author_path@ && r.create@[1]@
                == dirs.rom_path@
        } else {
            r.create@.len() == 1 && r.create@[0]@ == dirs.rom_path@
        },
{
    let mut create: Vec<String> = Vec::new();
    if bin_size == 0 {
        if creates_author_dir(dirs.author_path.as_str()) {
            create.push(dirs.author_path);
        }
        create.push(dirs.rom_path.clone());
    }
    RomDirWork { create, clear: dirs.rom_path }
}


/// What the ROM hash is computed over for several files, one after the other.
pub open spec fn files_hashed(files: Seq<(Seq<char>, Seq<u8>)>) -> Seq<u8>
    decreases files.len(),
{
    if files.len() == 0 {
        seq![]
    } else {
        hashed(files[0].0, files[0].1) + files_hashed(files.drop_first())
    }
}

proof fn lemma_after_files(s: InstallerModel, files: Seq<(Seq<char>, Seq<u8>)>)
    ensures
        after_files(s, files).fed == s.fed + files_hashed(files),
        after_files(s, files).headers == s.headers,
    decreases files.len(),
{
    if files.len() == 0 {
        assert(s.fed + files_hashed(files) =~= s.fed);
    } else {
        let t = after_file(s, files[0].0, files[0].1);
        lemma_after_files(t, files.drop_first());
        assert(t.fed + files_hashed(files.drop_first()) =~= s.fed + files_hashed(files));
    }
}

proof fn lemma_find_window_prefix(data: Seq<u8>, rest: Seq<u8>, needle: Seq<u8>, i: int)
    requires
        find_window_from(data, needle, i) is Some,
    ensures
        find_window_from(data + rest, needle, i) == find_window_from(data, needle, i),
    decreases data.len() + 1 - i,
{
    assert((data + rest).subrange(i, i + needle.len()) =~= data.subrange(i, i + needle.len()));
    if data.subrange(i, i + needle.len()) != needle {
        lemma_find_window_prefix(data, rest, needle, i + 1);
    }
}

/// The ROM hash is computed over the files alone: a download, whose response
/// head ends at its first blank line and parses, followed by whole files,
/// asks for the ROM directory and then writes each file in turn, and what the
/// hash was fed is, for each file in order, its name between zero bytes and
/// its body (nothing for `_hash`), and nothing of the response head.
pub proof fn lemma_download(s: InstallerModel, head: Seq<u8>, files: Seq<(Seq<char>, Seq<u8>)>)
    requires
        s.headers is None,
        s.file is Waiting,
        s.buf.len() == 0,
        head.len() >= 4,
        find_window(head, head_end()) == Some(head.len() - 4),
        headers_from(head) is Ok,
        forall|i: int|
            0 <= i < files.len() ==> encode_utf8((#[trigger] files[i]).0).len() <= u32::MAX
                && files[i].1.len() <= u32::MAX,
    ensures
        match headers_from(head) {
            Ok(h) => {
                let (t, acts, err) = run(fed_with(s, head + file_records(files)));
                &&& err is None
                &&& t.fed == s.fed + files_hashed(files)
                &&& t.headers == Some(h)
                &&& acts == seq![ActionModel::CreateRomDir { author_id: h.author_id, app_id: h.app_id }]
                    + files_writes(h, files)
            },
            Err(_) => false,
        },
{
    let h = match headers_from(head) {
        Ok(h) => h,
        Err(_) => arbitrary(),
    };
    let recs = file_records(files);
    let s0 = fed_with(s, head + recs);
    assert(s0.buf =~= head + recs);
    lemma_find_window_prefix(head, recs, head_end(), 0);
    let idx = head.len() - 4;
    assert(s0.buf.take(idx + 4) =~= head);
    assert(s0.buf.skip(idx + 4) =~= recs);
    let t1 = InstallerModel { buf: recs, headers: Some(h), ..s };
    let act = ActionModel::CreateRomDir { author_id: h.author_id, app_id: h.app_id };
    assert(step(s0) == Step::Next(t1, seq![act]));
    lemma_step_decreases(s0);
    let t0 = InstallerModel { headers: Some(h), ..s };
    assert(fed_with(t0, recs) == t1) by {
        assert(t0.buf + recs =~= recs);
    }
    lemma_files_written(t0, files);
    lemma_after_files(t0, files);
    assert(run(s0) == (run(t1).0, seq![act] + run(t1).1, run(t1).2));
}

} // verus!
