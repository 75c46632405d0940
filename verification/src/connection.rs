//! The connection screen: connect to the Wi-Fi access point, then to the
//! install server, open a download session, and receive the ROM.
//!
//! Each function here decides one part of a frame and names the outside work
//! that the caller has to do.

use vstd::prelude::*;
use vstd::string::*;

use crate::installer::{Action, Installer, InstallerModel, run, fed_with, actions_view};
use crate::state::{creds_file, RomState, Scene, State, TcpState, WifiState};
use crate::wifi::{Status, TcpStatus};

verus! {

/// A button press, as the UI input manager reports it.
#[derive(Clone, Copy, PartialEq, Eq, Structural, Debug)]
pub enum Input {
    Up,
    Down,
    Left,
    Right,
    Select,
    Back,
    /// No button was pressed.
    Nothing,
}

/// Outside work that a button press asks for.
pub enum InputAction {
    Nothing,
    /// Drop the Wi-Fi connection.
    Disconnect,
    /// Exit the app.
    Quit,
    /// Restart the app, to install another one.
    Restart,
    /// Launch the installed app.
    RunApp { author_id: String, app_id: String },
    /// Write `target` to the manual viewer's target file and launch the viewer.
    OpenManual { target: String },
    /// Connect to the Wi-Fi access point with the state's SSID and password.
    Connect,
}

/// The button press took the screen elsewhere.
pub open spec fn input_changes_state(s: State, input: Input) -> bool {
    match input {
        Input::Back => s.wifi_state != WifiState::Connected || !(s.rom_state is Downloading),
        Input::Select => s.rom_state is Done || s.wifi_state == WifiState::Failed,
        _ => false,
    }
}

/// The cursor after a button press: one of three buttons.
pub open spec fn moved_cursor(cursor: usize, input: Input) -> usize {
    match input {
        Input::Up => if cursor > 0 {
            (cursor - 1) as usize
        } else {
            cursor
        },
        Input::Down => if cursor < 2 {
            (cursor + 1) as usize
        } else {
            cursor
        },
        Input::Left => 0,
        Input::Right => 2,
        _ => cursor,
    }
}

/// Handles a button press on the connection screen. Returns whether the
/// press took the screen elsewhere, and the outside work to do.
pub fn handle_input(state: &mut State, input: Input) -> (r: (bool, InputAction))
    requires
        old(state).rom_state is Done && input == Input::Select && old(state).cursor == 1
            ==> old(state).installer@.headers is Some,
    ensures
        final(state).rom_state == old(state).rom_state,
        r.0 == input_changes_state(*old(state), input),
        match input {
            Input::Back => if old(state).wifi_state != WifiState::Connected {
                // If wifi connection in progress or failed,
                // go back to the password input.
                &&& r.1 == if old(state).wifi_state != WifiState::Failed {
                    InputAction::Disconnect
                } else {
                    InputAction::Nothing
                }
                &&& *final(state) == (State {
                    wifi_state: WifiState::NotConnected,
                    rendered_message: false,
                    cursor: 0,
                    wifi_wait: 0,
                    tcp_wait: 0,
                    show_password: 0,
                    scene: Scene::Password,
                    ..*old(state)
                })
            } else {
                // If there is no file download in progress
                // (either already downloaded or no file was sent),
                // going back just exits the app.
                &&& r.1 == if !(old(state).rom_state is Downloading) {
                    InputAction::Quit
                } else {
                    InputAction::Nothing
                }
                &&& *final(state) == *old(state)
            },
            Input::Select => if old(state).rom_state is Done {
                &&& *final(state) == *old(state)
                &&& match old(state).cursor {
                    0 => r.1 is Restart,
                    1 => {
                        let h = old(state).installer@.headers->0;
                        if old(state).installer@.has_manual {
                            r.1 matches InputAction::OpenManual { target } && target@ == h.author_id
                                + "."@ + h.app_id
                        } else {
                            r.1 matches InputAction::RunApp { author_id, app_id } && author_id@
                                == h.author_id && app_id@ == h.app_id
                        }
                    },
                    2 => r.1 is Quit,
                    _ => r.1 is Nothing,
                }
            } else if old(state).wifi_state == WifiState::Failed {
                &&& r.1 is Connect
                &&& *final(state) == (State {
                    wifi_wait: 0,
                    wifi_state: WifiState::Connecting,
                    ..*old(state)
                })
            } else {
                &&& r.1 is Nothing
                &&& *final(state) == *old(state)
            },
            _ => {
                &&& r.1 is Nothing
                &&& *final(state) == (State {
                    cursor: moved_cursor(old(state).cursor, input),
                    ..*old(state)
                })
            },
        },
{
    match input {
        Input::Back => {
            if state.wifi_state != WifiState::Connected {
                let action = if state.wifi_state != WifiState::Failed {
                    InputAction::Disconnect
                } else {
                    InputAction::Nothing
                };
                state.wifi_state = WifiState::NotConnected;
                state.transition(Scene::Password);
                return (true, action);
            }
            if !matches!(state.rom_state, RomState::Downloading) {
                return (true, InputAction::Quit);
            }
        },
        Input::Select => {
            let done = matches!(state.rom_state, RomState::Done);
            if done {
                let action = match state.cursor {
                    0 => InputAction::Restart,
                    1 => {
                        let (author_id, app_id) = state.installer.get_id();
                        if state.installer.has_manual() {
                            let mut target = author_id.to_owned();
                            target.append(".");
                            target.append(app_id);
                            InputAction::OpenManual { target }
                        } else {
                            InputAction::RunApp {
                                author_id: author_id.to_owned(),
                                app_id: app_id.to_owned(),
                            }
                        }
                    },
                    2 => InputAction::Quit,
                    _ => InputAction::Nothing,
                };
                return (true, action);
            }
            if state.wifi_state == WifiState::Failed {
                state.wifi_wait = 0;
                state.wifi_state = WifiState::Connecting;
                return (true, InputAction::Connect);
            }
        },
        Input::Up => {
            if state.cursor > 0 {
                state.cursor = state.cursor - 1;
            }
        },
        Input::Down => {
            if state.cursor < 2 {
                state.cursor = state.cursor + 1;
            }
        },
        Input::Left => state.cursor = 0,
        Input::Right => state.cursor = 2,
        Input::Nothing => {},
    }
    (false, InputAction::Nothing)
}

/// Outside work that the Wi-Fi part of a frame asks for.
pub enum WifiAction {
    Nothing,
    /// Connect to the access point with the state's SSID and password.
    Connect,
    /// Write these bytes to the `creds` data file.
    SaveCreds(Vec<u8>),
    /// Close the TCP connection.
    CloseTcp,
}

/// The Wi-Fi status must be polled in this state.
pub open spec fn wifi_status_needed(s: State) -> bool {
    s.wifi_state == WifiState::Connecting || s.wifi_state == WifiState::ObtainingIP
        || s.wifi_state == WifiState::Connected
}

/// The Wi-Fi status must be polled in this state.
pub fn needs_wifi_status(state: &State) -> (r: bool)
    ensures
        r == wifi_status_needed(*state),
{
    state.wifi_state == WifiState::Connecting || state.wifi_state == WifiState::ObtainingIP
        || state.wifi_state == WifiState::Connected
}

/// A wait counter one frame later; it stops at 400.
pub open spec fn ticked(wait: usize) -> usize {
    if wait + 1 < 400 {
        (wait + 1) as usize
    } else {
        400
    }
}

/// The Wi-Fi state after the access point reported `status`, for a
/// connection attempt that has waited `wait` frames.
pub open spec fn wifi_after(status: Status, wait: usize) -> WifiState {
    match status {
        Status::Error | Status::Other => WifiState::Failed,
        Status::Disconnected => if wait > 5 * 60 {
            WifiState::Failed
        } else {
            WifiState::Connecting
        },
        Status::Initializing => WifiState::ObtainingIP,
        Status::Connected => WifiState::Connected,
    }
}

/// Advances the Wi-Fi connection by one frame, given the status that the
/// host reports when [`needs_wifi_status`] says it is needed.
pub fn update_wifi(state: &mut State, status: Option<Status>) -> (r: WifiAction)
    requires
        old(state).wifi_wait < usize::MAX,
        wifi_status_needed(*old(state)) ==> status is Some,
    ensures
        final(state).rom_state == old(state).rom_state,
        ({
            let s = *old(state);
            let wait = ticked(s.wifi_wait);
            match s.wifi_state {
                WifiState::NotConnected => r is Connect && *final(state) == (State {
                    wifi_wait: 0,
                    wifi_state: WifiState::Connecting,
                    ..s
                }),
                WifiState::Connecting | WifiState::ObtainingIP => if wait < 60 {
                    r is Nothing && *final(state) == (State { wifi_wait: wait, ..s })
                } else {
                    let next = wifi_after(status->0, wait);
                    &&& *final(state) == (State { wifi_wait: wait, wifi_state: next, ..s })
                    &&& if status->0 == Status::Connected {
                        r matches WifiAction::SaveCreds(b) && b@ == vstd::utf8::encode_utf8(s.ssid@)
                            + seq![0x0au8] + vstd::utf8::encode_utf8(s.password@)
                    } else {
                        r is Nothing
                    }
                },
                WifiState::Connected => if status->0 != Status::Connected {
                    &&& r == if s.tcp_state != TcpState::NotConnected {
                        WifiAction::CloseTcp
                    } else {
                        WifiAction::Nothing
                    }
                    &&& *final(state) == (State {
                        wifi_wait: wait,
                        wifi_state: WifiState::Failed,
                        tcp_state: TcpState::NotConnected,
                        ..s
                    })
                } else {
                    r is Nothing && *final(state) == (State { wifi_wait: wait, ..s })
                },
                WifiState::Failed => r is Nothing && *final(state) == (State {
                    wifi_wait: wait,
                    ..s
                }),
            }
        }),
{
    state.wifi_wait = if state.wifi_wait + 1 < 400 {
        state.wifi_wait + 1
    } else {
        400
    };
    match state.wifi_state {
        WifiState::NotConnected => {
            state.wifi_wait = 0;
            state.wifi_state = WifiState::Connecting;
            WifiAction::Connect
        },
        WifiState::Connecting | WifiState::ObtainingIP => {
            let status = status.unwrap();
            if state.wifi_wait < 60 {
                return WifiAction::Nothing;
            }
            let mut action = WifiAction::Nothing;
            state.wifi_state = match status {
                Status::Error | Status::Other => WifiState::Failed,
                Status::Disconnected => {
                    if state.wifi_wait > 5 * 60 {
                        WifiState::Failed
                    } else {
                        WifiState::Connecting
                    }
                },
                Status::Initializing => WifiState::ObtainingIP,
                Status::Connected => {
                    action = WifiAction::SaveCreds(
                        creds_file(state.ssid.as_str(), state.password.as_str()),
                    );
                    WifiState::Connected
                },
            };
            action
        },
        WifiState::Connected => {
            let status = status.unwrap();
            let mut action = WifiAction::Nothing;
            if status != Status::Connected {
                state.wifi_state = WifiState::Failed;
                if state.tcp_state != TcpState::NotConnected {
                    action = WifiAction::CloseTcp;
                    state.tcp_state = TcpState::NotConnected;
                }
            }
            action
        },
        WifiState::Failed => WifiAction::Nothing,
    }
}

/// Outside work that the TCP part of a frame asks for.
pub enum TcpAction {
    Nothing,
    /// Connect to the install server; see [`crate::wifi::server_or_default`].
    Connect,
}

/// The TCP status must be polled in this state.
pub open spec fn tcp_status_needed(s: State) -> bool {
    s.tcp_state == TcpState::Connecting || s.tcp_state == TcpState::Connected
}

/// The TCP status must be polled in this state.
pub fn needs_tcp_status(state: &State) -> (r: bool)
    ensures
        r == tcp_status_needed(*state),
{
    state.tcp_state == TcpState::Connecting || state.tcp_state == TcpState::Connected
}

/// Advances the server connection by one frame, given the status that the
/// host reports when [`needs_tcp_status`] says it is needed.
pub fn update_tcp(state: &mut State, status: Option<TcpStatus>) -> (r: TcpAction)
    requires
        old(state).tcp_wait < usize::MAX,
        tcp_status_needed(*old(state)) ==> status is Some,
    ensures
        final(state).rom_state == old(state).rom_state,
        ({
            let s = *old(state);
            let wait = ticked(s.tcp_wait);
            match s.tcp_state {
                TcpState::NotConnected => r is Connect && *final(state) == (State {
                    tcp_wait: wait,
                    tcp_state: TcpState::Connecting,
                    ..s
                }),
                TcpState::Connecting => r is Nothing && *final(state) == (State {
                    tcp_wait: wait,
                    tcp_state: if wait < 30 {
                        TcpState::Connecting
                    } else if status->0 == TcpStatus::Error {
                        TcpState::Failed
                    } else if status->0 == TcpStatus::Established {
                        TcpState::Connected
                    } else {
                        TcpState::Connecting
                    },
                    ..s
                }),
                TcpState::Connected => r is Nothing && if status->0 == TcpStatus::Error {
                    &&& final(state).tcp_state == TcpState::Failed
                    &&& final(state).session_id@ == if s.rom_state is NoResponse {
                        Seq::<char>::empty()
                    } else {
                        s.session_id@
                    }
                    &&& *final(state) == (State {
                        tcp_wait: wait,
                        tcp_state: TcpState::Failed,
                        session_id: final(state).session_id,
                        ..s
                    })
                } else {
                    *final(state) == (State { tcp_wait: wait, ..s })
                },
                TcpState::Failed => r is Nothing && *final(state) == (State { tcp_wait: wait, ..s }),
            }
        }),
{
    state.tcp_wait = if state.tcp_wait + 1 < 400 {
        state.tcp_wait + 1
    } else {
        400
    };
    match state.tcp_state {
        TcpState::NotConnected => {
            state.tcp_state = TcpState::Connecting;
            TcpAction::Connect
        },
        TcpState::Connecting => {
            let status = status.unwrap();
            if state.tcp_wait < 30 {
                return TcpAction::Nothing;
            }
            state.tcp_state = match status {
                TcpStatus::Error => TcpState::Failed,
                TcpStatus::Established => TcpState::Connected,
                _ => TcpState::Connecting,
            };
            TcpAction::Nothing
        },
        TcpState::Connected => {
            let status = status.unwrap();
            if status == TcpStatus::Error {
                state.tcp_state = TcpState::Failed;
                if matches!(state.rom_state, RomState::NoResponse) {
                    state.session_id = String::new();
                }
            }
            TcpAction::Nothing
        },
        TcpState::Failed => TcpAction::Nothing,
    }
}

/// How many session IDs there are; new ones are drawn below this.
pub const SESSION_IDS: u32 = 100_000_000;

/// A new session ID from a random number.
///
/// What's the probability of two users having the same session ID? With
/// 70 000 devices and 100 000 000 IDs, negligibly small (the Birthday Paradox).
pub fn new_session_id(random: u32) -> (r: u32)
    ensures
        r == random % SESSION_IDS,
        r < SESSION_IDS,
{
    random % SESSION_IDS
}

/// The session ID stored in the 4 bytes of the `id` data file, little-endian.
pub open spec fn le_value(b: [u8; 4]) -> int {
    b[0] as int + b[1] as int * 0x100 + b[2] as int * 0x10000 + b[3] as int * 0x1000000
}

/// `u32::from_le_bytes`
pub fn session_id_from_le(b: [u8; 4]) -> (r: u32)
    ensures
        r == le_value(b),
{
    b[0] as u32 + b[1] as u32 * 0x100 + b[2] as u32 * 0x10000 + b[3] as u32 * 0x1000000
}

/// `u32::to_le_bytes`: the 4 bytes of the `id` data file for a session ID.
pub fn session_id_to_le(id: u32) -> (r: [u8; 4])
    ensures
        r[0] == id % 0x100,
        r[1] == (id / 0x100) % 0x100,
        r[2] == (id / 0x10000) % 0x100,
        r[3] == id / 0x1000000,
{
    [
        (id % 0x100) as u8,
        ((id / 0x100) % 0x100) as u8,
        ((id / 0x10000) % 0x100) as u8,
        (id / 0x1000000) as u8,
    ]
}

/// A stored session ID reads back as the ID that was stored.
pub proof fn lemma_session_id_round_trip(id: u32)
    ensures
        ({
            let b = [
                (id % 0x100) as u8,
                ((id / 0x100) % 0x100) as u8,
                ((id / 0x10000) % 0x100) as u8,
                (id / 0x1000000) as u8,
            ];
            le_value(b) == id
        }),
{
    let x = id as int;
    assert(x == x % 0x100 + (x / 0x100 % 0x100) * 0x100 + (x / 0x10000 % 0x100) * 0x10000 + (x
        / 0x1000000) * 0x1000000) by (nonlinear_arith)
        requires
            0 <= x < 0x1_0000_0000,
    ;
}

/// The decimal digits of `n`, most significant first, without leading zeros.
pub open spec fn decimal(n: nat) -> Seq<char>
    decreases n,
{
    if n < 10 {
        seq![(n + 48) as char]
    } else {
        decimal(n / 10) + seq![((n % 10) + 48) as char]
    }
}

/// `n` in decimal, padded on the left with zeros to at least `width`
/// characters (`format!("{n:0width$}")`).
pub open spec fn zero_padded(n: nat, width: nat) -> Seq<char> {
    let d = decimal(n);
    if d.len() < width {
        Seq::new((width - d.len()) as nat, |i: int| '0') + d
    } else {
        d
    }
}

/// The session ID as the screen shows it: 8 digits at least, with a space
/// after the fourth.
pub open spec fn session_label(id: u32) -> Seq<char> {
    let p = zero_padded(id as nat, 8);
    p.take(4) + seq![' '] + p.skip(4)
}

/// The HTTP request that opens the download for a session.
pub open spec fn download_request_text(id: u32) -> Seq<char> {
    "GET /download/"@ + zero_padded(id as nat, 8)
        + " HTTP/1.1\r\nHost: install.fireflyzero.com\r\n\r\n"@
}

/// The text of one decimal digit.
fn digit_str(d: u32) -> (r: &'static str)
    requires
        d < 10,
    ensures
        r@ == seq![(d + 48) as char],
{
    match d {
        0 => {
            proof {
                reveal_strlit("0");
            }
            "0"
        },
        1 => {
            proof {
                reveal_strlit("1");
            }
            "1"
        },
        2 => {
            proof {
                reveal_strlit("2");
            }
            "2"
        },
        3 => {
            proof {
                reveal_strlit("3");
            }
            "3"
        },
        4 => {
            proof {
                reveal_strlit("4");
            }
            "4"
        },
        5 => {
            proof {
                reveal_strlit("5");
            }
            "5"
        },
        6 => {
            proof {
                reveal_strlit("6");
            }
            "6"
        },
        7 => {
            proof {
                reveal_strlit("7");
            }
            "7"
        },
        8 => {
            proof {
                reveal_strlit("8");
            }
            "8"
        },
        _ => {
            proof {
                reveal_strlit("9");
            }
            "9"
        },
    }
}

proof fn lemma_decimal_len(n: nat)
    ensures
        decimal(n).len() >= 1,
        n < 10 ==> decimal(n).len() == 1,
        forall|i: int| 0 <= i < decimal(n).len() ==> '0' <= #[trigger] decimal(n)[i] <= '9',
    decreases n,
{
    if n >= 10 {
        lemma_decimal_len(n / 10);
    }
}

/// Appends the decimal digits of `n`.
fn append_decimal(s: &mut String, n: u32)
    ensures
        final(s)@ == old(s)@ + decimal(n as nat),
    decreases n,
{
    if n >= 10 {
        append_decimal(s, n / 10);
    }
    s.append(digit_str(n % 10));
}

/// How many decimal digits `n` has.
fn decimal_len(n: u32) -> (r: usize)
    ensures
        r == decimal(n as nat).len(),
        r <= 1 + n / 10,
    decreases n,
{
    proof {
        lemma_decimal_len(n as nat);
    }
    if n >= 10 {
        decimal_len(n / 10) + 1
    } else {
        1
    }
}

/// `format!("{n:08}")`
fn zero_padded_8(n: u32) -> (r: String)
    ensures
        r@ == zero_padded(n as nat, 8),
{
    let len = decimal_len(n);
    let mut r = String::new();
    let mut i = len;
    proof {
        reveal_strlit("0");
    }
    while i < 8
        invariant
            len <= i <= 8 || (len > 8 && i == len),
            r@ == Seq::new((i - len) as nat, |k: int| '0'),
        decreases 8 - i,
    {
        r.append("0");
        proof {
            reveal_strlit("0");
        }
        assert(r@ =~= Seq::new((i + 1 - len) as nat, |k: int| '0'));
        i = i + 1;
    }
    append_decimal(&mut r, n);
    assert(r@ =~= zero_padded(n as nat, 8));
    r
}

impl State {
    /// Opens a download session: the screen shows the session ID, and the
    /// returned request is to be sent to the server.
    pub fn start_session(&mut self, id: u32) -> (r: String)
        ensures
            final(self).rom_state == old(self).rom_state,
            final(self).session_id@ == session_label(id),
            *final(self) == (State { session_id: final(self).session_id, ..*old(self) }),
            r@ == download_request_text(id),
    {
        let padded = zero_padded_8(id);
        let mut request = "GET /download/".to_owned();
        request.append(padded.as_str());
        request.append(" HTTP/1.1\r\nHost: install.fireflyzero.com\r\n\r\n");
        proof {
            lemma_decimal_len(id as nat);
        }
        assert(padded@.len() >= 8);
        let mut label = String::new();
        let ghost p = padded@;
        // The digits are ASCII, so the space goes in after the fourth byte.
        let head = padded.as_str().substring_char(0, 4);
        let tail = padded.as_str().substring_char(4, padded.as_str().unicode_len());
        label.append(head);
        label.append(" ");
        label.append(tail);
        proof {
            reveal_strlit(" ");
        }
        assert(label@ =~= session_label(id));
        self.session_id = label;
        request
    }

    /// Whether the ROM is installed.
    pub fn rom_installed(&self) -> (r: bool)
        ensures
            r == (self.rom_state is Done),
    {
        matches!(self.rom_state, RomState::Done)
    }

    /// Whether a download session is open.
    pub fn has_session(&self) -> (r: bool)
        ensures
            r == (self.session_id@.len() > 0),
    {
        !self.session_id.as_str().is_empty()
    }

    /// Whether the ROM is being received: a chunk of the response is to be
    /// read and handed to [`State::receive`].
    pub fn receiving(&self) -> (r: bool)
        ensures
            r == (self.rom_state is NoResponse || self.rom_state is Downloading),
    {
        matches!(self.rom_state, RomState::NoResponse | RomState::Downloading)
    }

    /// Takes a chunk of the server's response. Returns the file system work
    /// to do, and whether the whole ROM has arrived and is to be finalized.
    ///
    /// Before the response starts, an empty chunk is no response yet.
    pub fn receive(&mut self, chunk: &[u8]) -> (r: (Vec<Action>, bool))
        requires
            old(self).rom_state is NoResponse || old(self).rom_state is Downloading,
            old(self).installer@.buf.len() + chunk@.len() <= u32::MAX,
            run(fed_with(old(self).installer@, chunk@)).0.received <= u32::MAX,
        ensures
            if old(self).rom_state is NoResponse && chunk@.len() == 0 {
                r.0@.len() == 0 && !r.1 && *final(self) == *old(self)
            } else {
                let (t, acts, err) = run(fed_with(old(self).installer@, chunk@));
                &&& final(self).installer@ == t
                &&& match err {
                    Some(e) => {
                        &&& final(self).rom_state == RomState::Failed(e)
                        &&& r.0@.len() == 0
                        &&& !r.1
                    },
                    None => {
                        &&& final(self).rom_state == RomState::Downloading
                        &&& actions_view(r.0@) == acts
                        &&& r.1 == (old(self).rom_state is Downloading && t.buf.len() == 0
                            && match t.headers {
                            Some(h) => t.received >= h.expected_size,
                            None => false,
                        })
                    },
                }
                &&& *final(self) == (State {
                    installer: final(self).installer,
                    rom_state: final(self).rom_state,
                    ..*old(self)
                })
            },
    {
        let first = matches!(self.rom_state, RomState::NoResponse);
        if first && chunk.len() == 0 {
            return (Vec::new(), false);
        }
        match self.installer.update(chunk) {
            Err(err) => {
                self.rom_state = RomState::Failed(err);
                (Vec::new(), false)
            },
            Ok(actions) => {
                self.rom_state = RomState::Downloading;
                let done = !first && self.installer.done();
                (actions, done)
            },
        }
    }

    /// Records the outcome of finalizing the ROM.
    pub fn finished(&mut self, result: Result<(), &'static str>)
        ensures
            *final(self) == (State {
                rom_state: match result {
                    Ok(()) => RomState::Done,
                    Err(e) => RomState::Failed(e),
                },
                ..*old(self)
            }),
    {
        self.rom_state = match result {
            Ok(()) => RomState::Done,
            Err(e) => RomState::Failed(e),
        };
    }
}

/// The first line on the connection screen.
pub open spec fn wifi_text(w: WifiState) -> &'static str {
    match w {
        WifiState::NotConnected | WifiState::Connecting => "1. Connecting to internet...",
        WifiState::ObtainingIP => "1. Obtaining IP address...",
        WifiState::Connected => "1. Connected to internet.",
        WifiState::Failed => "1. Failed to connect to internet.",
    }
}

/// The first line on the connection screen.
pub fn wifi_message(w: WifiState) -> (r: &'static str)
    ensures
        r == wifi_text(w),
{
    match w {
        WifiState::NotConnected | WifiState::Connecting => "1. Connecting to internet...",
        WifiState::ObtainingIP => "1. Obtaining IP address...",
        WifiState::Connected => "1. Connected to internet.",
        WifiState::Failed => "1. Failed to connect to internet.",
    }
}

/// The second line on the connection screen.
pub open spec fn tcp_text(t: TcpState) -> &'static str {
    match t {
        TcpState::NotConnected | TcpState::Connecting => "2. Connecting to server...",
        TcpState::Connected => "2. Connected to server.",
        TcpState::Failed => "2. Failed to connect to server.",
    }
}

/// The second line on the connection screen.
pub fn tcp_message(t: TcpState) -> (r: &'static str)
    ensures
        r == tcp_text(t),
{
    match t {
        TcpState::NotConnected | TcpState::Connecting => "2. Connecting to server...",
        TcpState::Connected => "2. Connected to server.",
        TcpState::Failed => "2. Failed to connect to server.",
    }
}

/// The line about the download, if there is one to show yet.
pub open spec fn rom_text(r: RomState) -> Option<&'static str> {
    match r {
        RomState::NoResponse => None,
        RomState::Downloading => Some("4. Downloading..."),
        RomState::Done => Some("4. Installed."),
        RomState::Failed(_) => Some("4. Download failed:"),
    }
}

/// The line about the download, if there is one to show yet.
pub fn rom_message(r: RomState) -> (m: Option<&'static str>)
    ensures
        m == rom_text(r),
{
    match r {
        RomState::NoResponse => None,
        RomState::Downloading => Some("4. Downloading..."),
        RomState::Done => Some("4. Installed."),
        RomState::Failed(_) => Some("4. Download failed:"),
    }
}

/// What the connection screen shows, top to bottom.
pub struct ScreenLines {
    /// The Wi-Fi connection.
    pub wifi: &'static str,
    /// The server connection, once on the Wi-Fi.
    pub tcp: Option<&'static str>,
    /// Whether the session line and the session ID are shown.
    pub session: bool,
    /// The download, once it is under way.
    pub rom: Option<&'static str>,
    /// Why the download failed.
    pub error: Option<&'static str>,
    /// Whether the progress bar is shown.
    pub progress: bool,
}

/// The lines of the connection screen: each one shows only once the one
/// above it reached its goal.
pub fn screen_lines(state: &State) -> (r: ScreenLines)
    ensures
        r.wifi == wifi_text(state.wifi_state),
        r.tcp == if state.wifi_state == WifiState::Connected {
            Some(tcp_text(state.tcp_state))
        } else {
            None
        },
        r.session == (state.wifi_state == WifiState::Connected && state.session_id@.len() > 0),
        r.rom == if r.session {
            rom_text(state.rom_state)
        } else {
            None
        },
        r.error == match state.rom_state {
            RomState::Failed(e) if r.session => Some(e),
            _ => None,
        },
        r.progress == (r.session && state.rom_state is Downloading),
{
    let wifi = wifi_message(state.wifi_state);
    if state.wifi_state != WifiState::Connected {
        return ScreenLines { wifi, tcp: None, session: false, rom: None, error: None, progress: false };
    }
    let tcp = Some(tcp_message(state.tcp_state));
    if !state.has_session() {
        return ScreenLines { wifi, tcp, session: false, rom: None, error: None, progress: false };
    }
    let error = match state.rom_state {
        RomState::Failed(e) => Some(e),
        _ => None,
    };
    ScreenLines {
        wifi,
        tcp,
        session: true,
        rom: rom_message(state.rom_state),
        error,
        progress: matches!(state.rom_state, RomState::Downloading),
    }
}

/// The label of the button that opens the installed app.
pub fn launch_label(has_manual: bool) -> (r: &'static str)
    ensures
        r == if has_manual {
            "read app manual"
        } else {
            "launch installed app"
        },
{
    if has_manual {
        "read app manual"
    } else {
        "launch installed app"
    }
}


/// The parts of a frame of the connection screen, in the order they run.
#[derive(Clone, Copy, PartialEq, Eq, Structural, Debug)]
pub enum FramePart {
    /// The button press ([`handle_input`]).
    Input,
    /// The Wi-Fi connection ([`update_wifi`]).
    Wifi,
    /// The server connection ([`update_tcp`]).
    Tcp,
    /// Opening the download session ([`State::start_session`]).
    Session,
    /// Taking a chunk of the response ([`State::receive`]).
    Receive,
    /// Nothing more this frame.
    Done,
}

/// The part of the frame that follows `part`, in the state that it left;
/// `changed` is whether the button press took the screen elsewhere.
pub open spec fn part_after(s: State, part: FramePart, changed: bool) -> FramePart {
    match part {
        FramePart::Input => if changed || s.rom_state is Done {
            // If an app is already installed, there is nothing else to do.
            FramePart::Done
        } else {
            FramePart::Wifi
        },
        FramePart::Wifi => if s.wifi_state != WifiState::Connected {
            FramePart::Done
        } else {
            FramePart::Tcp
        },
        FramePart::Tcp => if s.tcp_state != TcpState::Connected {
            FramePart::Done
        } else if s.session_id@.len() == 0 {
            FramePart::Session
        } else if s.rom_state is NoResponse || s.rom_state is Downloading {
            FramePart::Receive
        } else {
            FramePart::Done
        },
        _ => FramePart::Done,
    }
}

/// Which part of the connection screen's frame runs after `part`.
pub fn next_part(state: &State, part: FramePart, changed: bool) -> (r: FramePart)
    ensures
        r == part_after(*state, part, changed),
{
    match part {
        FramePart::Input => if changed || state.rom_installed() {
            FramePart::Done
        } else {
            FramePart::Wifi
        },
        FramePart::Wifi => if state.wifi_state != WifiState::Connected {
            FramePart::Done
        } else {
            FramePart::Tcp
        },
        FramePart::Tcp => if state.tcp_state != TcpState::Connected {
            FramePart::Done
        } else if !state.has_session() {
            FramePart::Session
        } else if state.receiving() {
            FramePart::Receive
        } else {
            FramePart::Done
        },
        _ => FramePart::Done,
    }
}


/// A finished download stays finished: once the ROM is installed or its
/// download failed, no part of a frame takes a chunk of the response, which
/// is the only step that could change that (the others keep the ROM state,
/// as their contracts say), and an installed ROM ends the frame right after
/// the button press.
pub proof fn lemma_rom_outcome_stays(s: State, part: FramePart, changed: bool)
    requires
        s.rom_state is Done || s.rom_state is Failed,
    ensures
        part_after(s, part, changed) != FramePart::Receive,
        s.rom_state is Done && part == FramePart::Input ==> part_after(s, part, changed)
            == FramePart::Done,
{
}

/// The session ID of this device, from the contents of the `id` data file
/// and a random number: the stored ID when the file holds 4 bytes, else a
/// new one, together with the 4 bytes to store for it. What is stored reads
/// back as the same ID on the next launch.
pub fn session_id_choice(stored: &[u8], random: u32) -> (r: (u32, Option<[u8; 4]>))
    ensures
        stored@.len() == 4 ==> r.1 is None && r.0 == stored@[0] as int + stored@[1] as int * 0x100
            + stored@[2] as int * 0x10000 + stored@[3] as int * 0x1000000,
        stored@.len() != 4 ==> r.0 == random % SESSION_IDS,
        stored@.len() != 4 ==> (r.1 matches Some(b) && le_value(b) == r.0),
{
    if stored.len() == 4 {
        let b: [u8; 4] = [stored[0], stored[1], stored[2], stored[3]];
        return (session_id_from_le(b), None);
    }
    let id = new_session_id(random);
    proof {
        lemma_session_id_round_trip(id);
    }
    (id, Some(session_id_to_le(id)))
}


/// Only a disconnected access point times out: after the first second, an
/// access point that is still handing out the address keeps the installer
/// waiting for it however long it took, a connected one is connected, and an
/// error fails; a disconnected one fails after five seconds of waiting.
pub proof fn lemma_wifi_status_outcome(status: Status, w1: usize, w2: usize)
    ensures
        status != Status::Disconnected ==> wifi_after(status, w1) == wifi_after(status, w2),
        wifi_after(Status::Initializing, w1) == WifiState::ObtainingIP,
        wifi_after(Status::Connected, w1) == WifiState::Connected,
        wifi_after(Status::Error, w1) == WifiState::Failed,
        wifi_after(Status::Other, w1) == WifiState::Failed,
        wifi_after(Status::Disconnected, w1) == if w1 > 300 {
            WifiState::Failed
        } else {
            WifiState::Connecting
        },
{
}

} // verus!
