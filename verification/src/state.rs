//! The state of the installer app, its screens, and the stored Wi-Fi credentials.

use vstd::prelude::*;
use vstd::string::*;
use vstd::utf8::*;

use crate::installer::{Installer, InstallerModel};
use crate::text::{
    find_byte, is_ascii_ws, lemma_find_byte, lemma_find_byte_found, position_of, str_from_utf8, trim_ascii,
    trimmed, trimmed_end, trimmed_start,
};

verus! {

broadcast use vstd::utf8::encode_utf8_valid_utf8;

/// The screen that is shown.
#[derive(Clone, Copy, PartialEq, Eq, Structural, Debug)]
pub enum Scene {
    Points,
    Password,
    Connection,
}

#[derive(Clone, Copy, PartialEq, Eq, Structural, Debug)]
pub enum WifiState {
    NotConnected,
    Connecting,
    ObtainingIP,
    Connected,
    Failed,
}

#[derive(Clone, Copy, PartialEq, Eq, Structural, Debug)]
pub enum TcpState {
    NotConnected,
    Connecting,
    Connected,
    Failed,
}

#[derive(Clone, Copy, PartialEq, Eq, Debug)]
pub enum RomState {
    NoResponse,
    Downloading,
    Done,
    Failed(&'static str),
}

/// Everything the app's screens decide on.
pub struct State {
    /// The access points found so far; `None` until the first scan.
    pub points: Option<Vec<String>>,
    pub rendered_message: bool,
    pub session_id: String,
    pub scene: Scene,
    pub cursor: usize,
    pub installer: Installer,
    pub ssid: String,
    /// The text entered on the password keyboard.
    pub password: String,
    pub show_password: u8,
    pub saved: Option<(String, String)>,
    pub wifi_state: WifiState,
    pub wifi_wait: usize,
    pub tcp_state: TcpState,
    pub tcp_wait: usize,
    pub rom_state: RomState,
}

impl State {
    /// The state at launch. If there is already saved SSID+password for an
    /// AP, go to the connection directly. If that doesn't work, the user can
    /// always go back to the previous screens.
    pub fn new(saved: Option<(String, String)>) -> (r: State)
        ensures
            r.saved == saved,
            match saved {
                Some((ssid, pass)) => r.ssid@ == ssid@ && r.password@ == pass@ && r.scene
                    == Scene::Connection,
                None => r.ssid@ == Seq::<char>::empty() && r.password@ == Seq::<char>::empty()
                    && r.scene == Scene::Points,
            },
            r.points is None,
            !r.rendered_message,
            r.session_id@ == Seq::<char>::empty(),
            r.cursor == 0,
            r.show_password == 0,
            r.installer@ == (InstallerModel {
                headers: None,
                received: 0,
                file: crate::installer::FileModel::Waiting,
                buf: Seq::empty(),
                fed: Seq::empty(),
                has_manual: false,
            }),
            r.wifi_state == WifiState::NotConnected,
            r.wifi_wait == 0,
            r.tcp_state == TcpState::NotConnected,
            r.tcp_wait == 0,
            r.rom_state == RomState::NoResponse,
    {
        let mut ssid = String::new();
        let mut password = String::new();
        let mut scene = Scene::Points;
        if let Some((saved_ssid, saved_pass)) = saved.as_ref() {
            ssid = saved_ssid.clone();
            password = saved_pass.clone();
            scene = Scene::Connection;
        }
        State {
            points: None,
            rendered_message: false,
            ssid,
            password,
            saved,
            session_id: String::new(),
            scene,
            cursor: 0,
            show_password: 0,
            installer: Installer::new(),
            wifi_state: WifiState::NotConnected,
            wifi_wait: 0,
            tcp_state: TcpState::NotConnected,
            tcp_wait: 0,
            rom_state: RomState::NoResponse,
        }
    }

    /// Switches to another screen, with the per-screen counters reset.
    pub fn transition(&mut self, scene: Scene)
        ensures
            *final(self) == (State {
                rendered_message: false,
                cursor: 0,
                wifi_wait: 0,
                tcp_wait: 0,
                show_password: 0,
                scene,
                ..*old(self)
            }),
    {
        self.rendered_message = false;
        self.cursor = 0;
        self.wifi_wait = 0;
        self.tcp_wait = 0;
        self.show_password = 0;
        self.scene = scene;
    }
}

proof fn lemma_char_boundary(bytes: Seq<u8>, i: int)
    requires
        valid_utf8(bytes),
        0 <= i <= bytes.len(),
        i == bytes.len() || !is_continuation_byte(bytes[i]),
    ensures
        is_char_boundary(bytes, i),
    decreases bytes.len(),
{
    if i != 0 {
        let l = length_of_first_scalar(bytes);
        assert(valid_first_scalar(bytes));
        assert(1 <= l <= 4 && l <= bytes.len());
        assert(i >= l);
        let rest = pop_first_scalar(bytes);
        assert(rest.len() == bytes.len() - l);
        if i < bytes.len() {
            assert(rest[i - l] == bytes[i]);
        }
        lemma_char_boundary(rest, i - l);
    }
}

/// `s` cut before the first `sep`: the part before, and the rest from `sep` on.
pub open spec fn split_once_at(s: Seq<u8>, sep: u8) -> Option<(Seq<u8>, Seq<u8>)> {
    match find_byte(s, sep) {
        None => None,
        Some(i) => Some((s.take(i), s.skip(i))),
    }
}

/// Split the string once at the given character.
///
/// The second part starts with the separator.
pub fn split_by(input: &str, sep: char) -> (r: Option<(&str, &str)>)
    requires
        sep as u32 <= 0xff,
        !(is_continuation_byte(sep as u8) && input.spec_bytes().contains(sep as u8)),
    ensures
        match split_once_at(input.spec_bytes(), sep as u8) {
            None => r is None,
            Some((a, b)) => r matches Some((x, y)) && x.spec_bytes() == a && y.spec_bytes() == b,
        },
{
    let sep = sep as u32 as u8;
    let bytes = input.as_bytes();
    let split_at = match position_of(bytes, sep) {
        Some(i) => i,
        None => return None,
    };
    proof {
        lemma_find_byte_found(bytes@, sep);
        lemma_char_boundary(bytes@, split_at as int);
    }
    let (a, b) = input.split_at(split_at);
    assert(bytes@.take(split_at as int) =~= bytes@.subrange(0, split_at as int));
    assert(bytes@.skip(split_at as int) =~= bytes@.subrange(split_at as int, bytes@.len() as int));
    Some((a, b))
}

/// The credentials in the contents of the `creds` data file: the trimmed
/// contents, cut at the first line break into the SSID and the password. No
/// line break means an empty password; an empty file holds no credentials.
pub open spec fn creds_from(buf: Seq<u8>) -> Option<(Seq<char>, Seq<char>)> {
    let t = trimmed(buf);
    if t.len() == 0 || !valid_utf8(t) {
        None
    } else {
        match find_byte(t, 0x0a) {
            None => Some((decode_utf8(t), Seq::empty())),
            Some(i) => Some((decode_utf8(t.take(i)), decode_utf8(t.skip(i + 1)))),
        }
    }
}

/// Dropping a leading ASCII byte keeps UTF-8 valid.
proof fn lemma_skip_ascii(s: Seq<u8>)
    requires
        valid_utf8(s),
        s.len() > 0,
        s[0] < 0x80,
    ensures
        valid_utf8(s.skip(1)),
{
    assert(length_of_first_scalar(s) == 1);
    assert(pop_first_scalar(s) =~= s.skip(1));
}

/// Load the stored SSID+password, if any, for the latest wifi AP, from the
/// contents of the `creds` data file.
///
/// The password might be an empty string if the network is public.
pub fn load_creds(buf: &[u8]) -> (r: Option<(String, String)>)
    ensures
        match creds_from(buf@) {
            None => r is None,
            Some((ssid, pass)) => r matches Some((s, p)) && s@ == ssid && p@ == pass,
        },
{
    let raw = trim_ascii(buf);
    if raw.len() == 0 {
        return None;
    }
    let raw = match str_from_utf8(raw) {
        Some(s) => s,
        None => return None,
    };
    proof {
        encode_utf8_decode_utf8(raw@);
        lemma_find_byte_found(raw.spec_bytes(), 0x0a);
    }
    let (ssid, rest) = match split_by(raw, '\n') {
        Some(parts) => parts,
        None => return Some((raw.to_owned(), String::new())),
    };
    let rest_bytes = rest.as_bytes();
    proof {
        encode_utf8_decode_utf8(ssid@);
        lemma_skip_ascii(rest_bytes@);
    }
    let after = &rest_bytes[1..rest_bytes.len()];
    assert(after@ =~= rest_bytes@.skip(1));
    assert(after@ =~= raw.spec_bytes().skip(ssid.spec_bytes().len() + 1int));
    let pass = match str_from_utf8(after) {
        Some(p) => p,
        None => return None,
    };
    proof {
        encode_utf8_decode_utf8(pass@);
    }
    Some((ssid.to_owned(), pass.to_owned()))
}

/// What the app saves is what it loads on the next launch: the contents of
/// the `creds` data file for an SSID and a password read back as that SSID
/// and password, when the SSID is not empty, holds no line break and starts
/// without whitespace, and no whitespace ends the file.
pub proof fn lemma_creds_round_trip(ssid: Seq<char>, pass: Seq<char>)
    requires
        encode_utf8(ssid).len() > 0,
        !is_ascii_ws(encode_utf8(ssid)[0]),
        !encode_utf8(ssid).contains(0x0a),
        encode_utf8(pass).len() > 0 ==> !is_ascii_ws(encode_utf8(pass).last()),
        encode_utf8(pass).len() == 0 ==> !is_ascii_ws(encode_utf8(ssid).last()),
    ensures
        creds_from(encode_utf8(ssid) + seq![0x0au8] + encode_utf8(pass)) == Some((ssid, pass)),
{
    let a = encode_utf8(ssid);
    let b = encode_utf8(pass);
    let f = a + seq![0x0au8] + b;
    encode_utf8_valid_utf8(ssid);
    encode_utf8_valid_utf8(pass);
    encode_utf8_decode_utf8(ssid);
    encode_utf8_decode_utf8(pass);
    assert(trimmed_start(f) == f);
    if b.len() > 0 {
        assert(f.last() == b.last());
        assert(trimmed_end(f) == f);
        assert(valid_utf8(seq![0x0au8])) by {
            reveal_with_fuel(valid_utf8, 2);
            assert(pop_first_scalar(seq![0x0au8]) =~= Seq::<u8>::empty());
        }
        vstd::utf8::valid_utf8_concat(a, seq![0x0au8]);
        vstd::utf8::valid_utf8_concat(a + seq![0x0au8], b);
        assert forall|k: int| 0 <= k < a.len() implies f[k] != 0x0a by {
            assert(f[k] == a[k]);
        }
        lemma_find_byte(f, 0x0a, a.len() as int);
        assert(f.take(a.len() as int) =~= a);
        assert(f.skip(a.len() + 1int) =~= b);
    } else {
        assert(f.drop_last() =~= a);
        assert(trimmed_end(a) == a);
        assert(trimmed_end(f) == a);
        assert forall|k: int| 0 <= k < a.len() implies a[k] != 0x0a by {
            if a[k] == 0x0a {
                assert(a.contains(0x0a));
            }
        }
        lemma_find_byte(a, 0x0a, a.len() as int);
        assert(pass =~= Seq::<char>::empty()) by {
            if pass.len() > 0 {
                assert(encode_utf8(pass).len() > 0) by {
                    reveal_with_fuel(encode_utf8, 1);
                    vstd::utf8::encode_utf8_first_scalar(pass);
                }
            }
        }
    }
}

/// The contents of the `creds` data file for an SSID and password: the SSID,
/// a line break, and the password.
///
/// It will be loaded on the next launch by `load_creds`.
pub fn creds_file(ssid: &str, pass: &str) -> (buf: Vec<u8>)
    ensures
        buf@ == ssid.spec_bytes() + seq![0x0au8] + pass.spec_bytes(),
{
    let mut buf: Vec<u8> = Vec::new();
    let a = ssid.as_bytes();
    let b = pass.as_bytes();
    let mut i: usize = 0;
    while i < a.len()
        invariant
            0 <= i <= a@.len(),
            buf@ == a@.take(i as int),
        decreases a@.len() - i,
    {
        buf.push(a[i]);
        assert(buf@ =~= a@.take(i + 1));
        i = i + 1;
    }
    buf.push(0x0a);
    let ghost head = buf@;
    let mut j: usize = 0;
    while j < b.len()
        invariant
            0 <= j <= b@.len(),
            buf@ == head + b@.take(j as int),
        decreases b@.len() - j,
    {
        buf.push(b[j]);
        assert(buf@ =~= head + b@.take(j + 1));
        j = j + 1;
    }
    assert(a@.take(a@.len() as int) =~= a@);
    assert(b@.take(b@.len() as int) =~= b@);
    buf
}

} // verus!
