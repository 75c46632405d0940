use installer::connection::{
    handle_input, launch_label, next_part, FramePart, needs_tcp_status, needs_wifi_status, new_session_id, rom_message,
    session_id_choice, session_id_from_le, session_id_to_le, tcp_message, update_tcp, update_wifi, wifi_message, Input,
    InputAction, TcpAction, WifiAction, SESSION_IDS, screen_lines,
};
use installer::headers::RespHeaders;
use installer::installer::Action;
use installer::state::{RomState, Scene, State, TcpState, WifiState};
use installer::wifi::{Status, TcpStatus};

fn headers(expected_size: u32) -> RespHeaders {
    RespHeaders {
        protocol: 1,
        author_id: "lux".to_string(),
        app_id: "snek".to_string(),
        today: (2024, 5, 17),
        expected_size,
    }
}

fn connecting() -> State {
    let mut s = State::new(Some(("home".to_string(), "pw".to_string())));
    s.wifi_state = WifiState::Connecting;
    s
}

fn installed(has_manual: bool) -> State {
    let mut s = State::new(None);
    s.scene = Scene::Connection;
    s.wifi_state = WifiState::Connected;
    s.tcp_state = TcpState::Connected;
    s.installer.headers = Some(headers(0));
    s.installer.has_manual = has_manual;
    s.rom_state = RomState::Done;
    s
}

fn record(name: &str, body: &[u8]) -> Vec<u8> {
    let mut out = Vec::new();
    out.extend_from_slice(&(name.len() as u32).to_le_bytes());
    out.extend_from_slice(name.as_bytes());
    out.extend_from_slice(&(body.len() as u32).to_le_bytes());
    out.extend_from_slice(body);
    out
}

#[test]
fn back_while_connecting_goes_to_the_password() {
    let mut s = connecting();
    s.cursor = 2;
    s.wifi_wait = 33;
    let (changed, action) = handle_input(&mut s, Input::Back);
    assert!(changed);
    assert!(matches!(action, InputAction::Disconnect));
    assert_eq!(s.wifi_state, WifiState::NotConnected);
    assert_eq!(s.scene, Scene::Password);
    assert_eq!((s.cursor, s.wifi_wait), (0, 0));
}

#[test]
fn back_after_a_failure_does_not_disconnect() {
    let mut s = connecting();
    s.wifi_state = WifiState::Failed;
    let (changed, action) = handle_input(&mut s, Input::Back);
    assert!(changed);
    assert!(matches!(action, InputAction::Nothing));
    assert_eq!(s.scene, Scene::Password);
}

#[test]
fn back_when_connected_quits_unless_downloading() {
    let mut s = installed(false);
    s.rom_state = RomState::NoResponse;
    let (changed, action) = handle_input(&mut s, Input::Back);
    assert!(changed);
    assert!(matches!(action, InputAction::Quit));

    s.rom_state = RomState::Downloading;
    let (changed, action) = handle_input(&mut s, Input::Back);
    assert!(!changed);
    assert!(matches!(action, InputAction::Nothing));
    assert_eq!(s.scene, Scene::Connection);
}

#[test]
fn select_after_install() {
    let mut s = installed(false);
    let (changed, action) = handle_input(&mut s, Input::Select);
    assert!(changed);
    assert!(matches!(action, InputAction::Restart));

    s.cursor = 1;
    match handle_input(&mut s, Input::Select) {
        (true, InputAction::RunApp { author_id, app_id }) => {
            assert_eq!((author_id.as_str(), app_id.as_str()), ("lux", "snek"))
        }
        _ => panic!("expected the app to run"),
    }

    s.cursor = 2;
    assert!(matches!(handle_input(&mut s, Input::Select), (true, InputAction::Quit)));
    s.cursor = 3;
    assert!(matches!(handle_input(&mut s, Input::Select), (true, InputAction::Nothing)));
}

#[test]
fn select_opens_the_manual_when_there_is_one() {
    let mut s = installed(true);
    s.cursor = 1;
    match handle_input(&mut s, Input::Select) {
        (true, InputAction::OpenManual { target }) => assert_eq!(target, "lux.snek"),
        _ => panic!("expected the manual to open"),
    }
    assert_eq!(launch_label(true), "read app manual");
    assert_eq!(launch_label(false), "launch installed app");
}

#[test]
fn select_retries_a_failed_connection() {
    let mut s = connecting();
    s.wifi_state = WifiState::Failed;
    s.wifi_wait = 400;
    let (changed, action) = handle_input(&mut s, Input::Select);
    assert!(changed);
    assert!(matches!(action, InputAction::Connect));
    assert_eq!(s.wifi_state, WifiState::Connecting);
    assert_eq!(s.wifi_wait, 0);

    let (changed, action) = handle_input(&mut s, Input::Select);
    assert!(!changed);
    assert!(matches!(action, InputAction::Nothing));
}

#[test]
fn arrows_move_the_cursor_over_three_buttons() {
    let mut s = installed(false);
    let mut step = |input: Input| {
        let (changed, _) = handle_input(&mut s, input);
        assert!(!changed);
        s.cursor
    };
    assert_eq!(step(Input::Up), 0);
    assert_eq!(step(Input::Down), 1);
    assert_eq!(step(Input::Down), 2);
    assert_eq!(step(Input::Down), 2);
    assert_eq!(step(Input::Up), 1);
    assert_eq!(step(Input::Left), 0);
    assert_eq!(step(Input::Right), 2);
    assert_eq!(step(Input::Nothing), 2);
}

#[test]
fn wifi_connects_first() {
    let mut s = State::new(None);
    s.wifi_wait = 50;
    assert!(!needs_wifi_status(&s));
    assert!(matches!(update_wifi(&mut s, None), WifiAction::Connect));
    assert_eq!(s.wifi_state, WifiState::Connecting);
    assert_eq!(s.wifi_wait, 0);
    assert!(needs_wifi_status(&s));
}

#[test]
fn wifi_status_is_ignored_for_the_first_second() {
    let mut s = connecting();
    s.wifi_wait = 10;
    assert!(matches!(update_wifi(&mut s, Some(Status::Error)), WifiAction::Nothing));
    assert_eq!(s.wifi_wait, 11);
    assert_eq!(s.wifi_state, WifiState::Connecting);
}

#[test]
fn wifi_connected_saves_the_credentials() {
    let mut s = connecting();
    s.wifi_wait = 59;
    match update_wifi(&mut s, Some(Status::Connected)) {
        WifiAction::SaveCreds(buf) => assert_eq!(buf, b"home\npw".to_vec()),
        _ => panic!("expected the credentials to be saved"),
    }
    assert_eq!(s.wifi_state, WifiState::Connected);
    assert_eq!(s.wifi_wait, 60);
}

#[test]
fn wifi_status_transitions() {
    let cases = [
        (Status::Error, 100, WifiState::Failed),
        (Status::Other, 100, WifiState::Failed),
        (Status::Disconnected, 100, WifiState::Connecting),
        (Status::Disconnected, 299, WifiState::Connecting),
        (Status::Disconnected, 300, WifiState::Failed),
        (Status::Initializing, 100, WifiState::ObtainingIP),
    ];
    for (status, wait, expected) in cases {
        let mut s = connecting();
        s.wifi_wait = wait;
        assert!(matches!(update_wifi(&mut s, Some(status)), WifiAction::Nothing));
        assert_eq!(s.wifi_state, expected, "{status:?} after {wait}");
        assert_eq!(s.wifi_wait, wait + 1);
    }
}

#[test]
fn wifi_wait_stops_at_400() {
    let mut s = connecting();
    s.wifi_state = WifiState::Failed;
    s.wifi_wait = 400;
    assert!(matches!(update_wifi(&mut s, None), WifiAction::Nothing));
    assert_eq!(s.wifi_wait, 400);
}

#[test]
fn wifi_lost_closes_the_server_connection() {
    let mut s = installed(false);
    s.rom_state = RomState::Downloading;
    assert!(matches!(update_wifi(&mut s, Some(Status::Connected)), WifiAction::Nothing));
    assert_eq!(s.wifi_state, WifiState::Connected);
    assert!(matches!(update_wifi(&mut s, Some(Status::Disconnected)), WifiAction::CloseTcp));
    assert_eq!(s.wifi_state, WifiState::Failed);
    assert_eq!(s.tcp_state, TcpState::NotConnected);

    let mut s = installed(false);
    s.tcp_state = TcpState::NotConnected;
    assert!(matches!(update_wifi(&mut s, Some(Status::Error)), WifiAction::Nothing));
    assert_eq!(s.wifi_state, WifiState::Failed);
}

#[test]
fn tcp_connects_then_waits_for_the_handshake() {
    let mut s = installed(false);
    s.rom_state = RomState::NoResponse;
    s.tcp_state = TcpState::NotConnected;
    assert!(!needs_tcp_status(&s));
    assert!(matches!(update_tcp(&mut s, None), TcpAction::Connect));
    assert_eq!(s.tcp_state, TcpState::Connecting);
    assert_eq!(s.tcp_wait, 1);
    assert!(needs_tcp_status(&s));

    s.tcp_wait = 10;
    update_tcp(&mut s, Some(TcpStatus::Established));
    assert_eq!(s.tcp_state, TcpState::Connecting);
    s.tcp_wait = 29;
    update_tcp(&mut s, Some(TcpStatus::SynSent));
    assert_eq!(s.tcp_state, TcpState::Connecting);
    update_tcp(&mut s, Some(TcpStatus::Established));
    assert_eq!(s.tcp_state, TcpState::Connected);
    assert_eq!(s.tcp_wait, 31);
}

#[test]
fn tcp_error_while_connecting_fails() {
    let mut s = installed(false);
    s.tcp_state = TcpState::Connecting;
    s.tcp_wait = 40;
    update_tcp(&mut s, Some(TcpStatus::Error));
    assert_eq!(s.tcp_state, TcpState::Failed);
    assert!(matches!(update_tcp(&mut s, None), TcpAction::Nothing));
    assert_eq!(s.tcp_state, TcpState::Failed);
}

#[test]
fn tcp_error_before_the_response_drops_the_session() {
    let mut s = installed(false);
    s.rom_state = RomState::NoResponse;
    s.session_id = "0000 0042".to_string();
    update_tcp(&mut s, Some(TcpStatus::Established));
    assert_eq!(s.tcp_state, TcpState::Connected);
    update_tcp(&mut s, Some(TcpStatus::Error));
    assert_eq!(s.tcp_state, TcpState::Failed);
    assert!(s.session_id.is_empty());

    let mut s = installed(false);
    s.rom_state = RomState::Downloading;
    s.session_id = "0000 0042".to_string();
    update_tcp(&mut s, Some(TcpStatus::Error));
    assert_eq!(s.tcp_state, TcpState::Failed);
    assert_eq!(s.session_id, "0000 0042");
}

#[test]
fn session_ids() {
    assert_eq!(SESSION_IDS, 100_000_000);
    assert_eq!(new_session_id(42), 42);
    assert_eq!(new_session_id(123_456_789), 23_456_789);
    assert_eq!(new_session_id(u32::MAX), 94_967_295);
    assert_eq!(session_id_to_le(0x1234_5678), [0x78, 0x56, 0x34, 0x12]);
    assert_eq!(session_id_from_le([0x78, 0x56, 0x34, 0x12]), 0x1234_5678);
    for id in [0, 1, 255, 256, 99_999_999, u32::MAX] {
        assert_eq!(session_id_from_le(session_id_to_le(id)), id);
        assert_eq!(session_id_to_le(id), id.to_le_bytes());
    }
}

#[test]
fn session_request_and_label() {
    let mut s = installed(false);
    s.session_id.clear();
    assert!(!s.has_session());
    let request = s.start_session(42);
    assert_eq!(request, "GET /download/00000042 HTTP/1.1\r\nHost: install.fireflyzero.com\r\n\r\n");
    assert_eq!(s.session_id, "0000 0042");
    assert!(s.has_session());

    let request = s.start_session(12_345_678);
    assert_eq!(request, "GET /download/12345678 HTTP/1.1\r\nHost: install.fireflyzero.com\r\n\r\n");
    assert_eq!(s.session_id, "1234 5678");

    let request = s.start_session(1_234_567_890);
    assert_eq!(request, "GET /download/1234567890 HTTP/1.1\r\nHost: install.fireflyzero.com\r\n\r\n");
    assert_eq!(s.session_id, "1234 567890");

    s.start_session(0);
    assert_eq!(s.session_id, "0000 0000");
}

#[test]
fn nothing_received_is_no_response_yet() {
    let mut s = installed(false);
    s.rom_state = RomState::NoResponse;
    assert!(s.receiving());
    let (acts, finalize) = s.receive(&[]);
    assert!(acts.is_empty());
    assert!(!finalize);
    assert_eq!(s.rom_state, RomState::NoResponse);
}

#[test]
fn receiving_a_rom() {
    let mut s = installed(false);
    s.installer.headers = Some(headers(6));
    s.rom_state = RomState::NoResponse;
    let stream = record("_bin", b"abcdef");

    // The first chunk starts the download; it is never finalized right away.
    // The body is written once all of it (up to 64 KB) has arrived.
    let (acts, finalize) = s.receive(&stream[..14]);
    assert!(!finalize);
    assert!(acts.is_empty());
    assert_eq!(s.rom_state, RomState::Downloading);

    let (acts, finalize) = s.receive(&stream[14..]);
    assert_eq!(acts.len(), 1);
    assert!(matches!(&acts[0], Action::DumpFile { path, content } if path == "roms/lux/snek/_bin" && content == b"abcdef"));
    assert!(finalize);

    s.finished(Ok(()));
    assert_eq!(s.rom_state, RomState::Done);
    assert!(s.rom_installed());
    assert!(!s.receiving());
}

#[test]
fn a_bad_response_fails_the_download() {
    let mut s = installed(false);
    s.installer.headers = None;
    s.rom_state = RomState::NoResponse;
    let (acts, finalize) = s.receive(b"HTTP/1.1 404 Not Found\r\n\r\n");
    assert!(acts.is_empty());
    assert!(!finalize);
    assert_eq!(s.rom_state, RomState::Failed("protocol not specified"));
    assert!(!s.receiving());
}

#[test]
fn finalization_failure_is_shown() {
    let mut s = installed(false);
    s.rom_state = RomState::Downloading;
    s.finished(Err("ROM has no hash"));
    assert_eq!(s.rom_state, RomState::Failed("ROM has no hash"));
    assert_eq!(rom_message(s.rom_state), Some("4. Download failed:"));
}

#[test]
fn screen_messages() {
    assert_eq!(wifi_message(WifiState::NotConnected), "1. Connecting to internet...");
    assert_eq!(wifi_message(WifiState::Connecting), "1. Connecting to internet...");
    assert_eq!(wifi_message(WifiState::ObtainingIP), "1. Obtaining IP address...");
    assert_eq!(wifi_message(WifiState::Connected), "1. Connected to internet.");
    assert_eq!(wifi_message(WifiState::Failed), "1. Failed to connect to internet.");
    assert_eq!(tcp_message(TcpState::NotConnected), "2. Connecting to server...");
    assert_eq!(tcp_message(TcpState::Connecting), "2. Connecting to server...");
    assert_eq!(tcp_message(TcpState::Connected), "2. Connected to server.");
    assert_eq!(tcp_message(TcpState::Failed), "2. Failed to connect to server.");
    assert_eq!(rom_message(RomState::NoResponse), None);
    assert_eq!(rom_message(RomState::Downloading), Some("4. Downloading..."));
    assert_eq!(rom_message(RomState::Done), Some("4. Installed."));
}

#[test]
fn frame_parts_run_in_order() {
    let mut s = connecting();
    assert_eq!(next_part(&s, FramePart::Input, true), FramePart::Done);
    assert_eq!(next_part(&s, FramePart::Input, false), FramePart::Wifi);
    assert_eq!(next_part(&s, FramePart::Wifi, false), FramePart::Done);
    s.wifi_state = WifiState::Connected;
    assert_eq!(next_part(&s, FramePart::Wifi, false), FramePart::Tcp);
    assert_eq!(next_part(&s, FramePart::Tcp, false), FramePart::Done);
    s.tcp_state = TcpState::Connected;
    assert_eq!(next_part(&s, FramePart::Tcp, false), FramePart::Session);
    assert_eq!(next_part(&s, FramePart::Session, false), FramePart::Done);
    s.session_id = "0000 0042".to_string();
    assert_eq!(next_part(&s, FramePart::Tcp, false), FramePart::Receive);
    assert_eq!(next_part(&s, FramePart::Receive, false), FramePart::Done);
    s.rom_state = RomState::Failed("x");
    assert_eq!(next_part(&s, FramePart::Tcp, false), FramePart::Done);
    s.rom_state = RomState::Done;
    assert_eq!(next_part(&s, FramePart::Input, false), FramePart::Done);
}

#[test]
fn session_id_is_stored_once() {
    let (id, store) = session_id_choice(&[], 4_000_000_123);
    assert_eq!(id, 123);
    let bytes = store.unwrap();
    assert_eq!(bytes, 123u32.to_le_bytes());
    let (again, store) = session_id_choice(&bytes, 77);
    assert_eq!(again, 123);
    assert!(store.is_none());
    let (other, store) = session_id_choice(&[1, 2, 3], 5);
    assert_eq!((other, store), (5, Some([5, 0, 0, 0])));
}

#[test]
fn screen_lines_show_what_was_reached() {
    let mut s = connecting();
    let l = screen_lines(&s);
    assert_eq!((l.wifi, l.tcp, l.session, l.rom, l.error, l.progress), ("1. Connecting to internet...", None, false, None, None, false));
    s.wifi_state = WifiState::Connected;
    let l = screen_lines(&s);
    assert_eq!((l.wifi, l.tcp, l.session), ("1. Connected to internet.", Some("2. Connecting to server..."), false));
    s.session_id = "0000 0042".to_string();
    s.rom_state = RomState::Downloading;
    let l = screen_lines(&s);
    assert_eq!((l.session, l.rom, l.error, l.progress), (true, Some("4. Downloading..."), None, true));
    s.rom_state = RomState::Failed("ROM has no hash");
    let l = screen_lines(&s);
    assert_eq!((l.rom, l.error, l.progress), (Some("4. Download failed:"), Some("ROM has no hash"), false));
    s.rom_state = RomState::NoResponse;
    assert_eq!(screen_lines(&s).rom, None);
}
