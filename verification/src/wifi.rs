//! The plain-value side of the device's Wi-Fi and TCP host API: status codes,
//! the access point list, and the server address.

use vstd::prelude::*;
use vstd::string::*;

use crate::text::{str_from_utf8, string_from_utf8_or_empty, trim_ascii, utf8_chars_or_empty};

verus! {

/// Wi-Fi connection status.
#[derive(Clone, Copy, PartialEq, Eq, Structural, Debug)]
pub enum Status {
    Error,
    /// Unknown status.
    Other,
    /// Not connected (or failed to connect) to an Access Point.
    Disconnected,
    /// Connected to the Access Point, obtaining IP address.
    Initializing,
    /// IP address is obtained, ready to go.
    Connected,
}

/// TCP connection status.
///
/// The descriptions for each status are from [IBM docs][ref].
///
/// [ref]: https://www.ibm.com/docs/en/zos/2.1.0?topic=SSLTBW_2.1.0/com.ibm.zos.v2r1.halu101/constatus.html
#[derive(Clone, Copy, PartialEq, Eq, Structural, Debug)]
pub enum TcpStatus {
    /// TCP status cannot be retrieved.
    Error,
    /// Represents no connection state at all.
    Closed,
    /// Waiting for a connection request from a remote TCP application.
    ///
    /// This is the state in which you can find the listening socket
    /// of a local TCP server.
    Listen,
    /// Waiting for an acknowledgment from the remote endpoint
    /// after having sent a connection request. Results after step 1
    /// of the three-way TCP handshake.
    SynSent,
    /// This endpoint has received a connection request and sent an acknowledgment.
    ///
    /// This endpoint is waiting for final acknowledgment that the other endpoint
    /// did receive this endpoint's acknowledgment of the original connection
    /// request. Results after step 2 of the three-way TCP handshake.
    SynReceived,
    /// Represents a fully established connection.
    ///
    /// This is the normal state for the data transfer phase of the connection.
    Established,
    /// Waiting for an acknowledgment of the connection termination
    /// request or for a simultaneous connection termination request
    /// from the remote TCP. This state is normally of short duration.
    FinWait1,
    /// Waiting for a connection termination request from the remote
    /// TCP after this endpoint has sent its connection termination request.
    FinWait2,
    /// This endpoint has received a close request from the remote endpoint
    /// and this TCP is now waiting for a connection termination request
    /// from the local application.
    CloseWait,
    /// Waiting for a connection termination request acknowledgment from the remote TCP.
    Closing,
    /// Waiting for an acknowledgment of the connection termination
    /// request previously sent to the remote TCP.
    LastAck,
    /// Waiting for enough time to pass to be sure the remote TCP
    /// received the acknowledgment of its connection termination request.
    TimeWait,
}

/// The Wi-Fi status that the host reports with `code`.
pub open spec fn status_of(code: u32) -> Status {
    if code == 0 {
        Status::Error
    } else if code == 2 {
        Status::Disconnected
    } else if code == 3 {
        Status::Initializing
    } else if code == 4 {
        Status::Connected
    } else {
        Status::Other
    }
}

/// Decodes the Wi-Fi status code of the host.
pub fn status_from_code(code: u32) -> (r: Status)
    ensures
        r == status_of(code),
{
    match code {
        0 => Status::Error,
        2 => Status::Disconnected,
        3 => Status::Initializing,
        4 => Status::Connected,
        _ => Status::Other,
    }
}

/// The TCP status that the host reports with `code`.
pub open spec fn tcp_status_of(code: u32) -> TcpStatus {
    if code == 1 {
        TcpStatus::Closed
    } else if code == 2 {
        TcpStatus::Listen
    } else if code == 3 {
        TcpStatus::SynSent
    } else if code == 4 {
        TcpStatus::SynReceived
    } else if code == 5 {
        TcpStatus::Established
    } else if code == 6 {
        TcpStatus::FinWait1
    } else if code == 7 {
        TcpStatus::FinWait2
    } else if code == 8 {
        TcpStatus::CloseWait
    } else if code == 9 {
        TcpStatus::Closing
    } else if code == 10 {
        TcpStatus::LastAck
    } else if code == 11 {
        TcpStatus::TimeWait
    } else {
        TcpStatus::Error
    }
}

/// Decodes the TCP status code of the host.
pub fn tcp_status_from_code(code: u32) -> (r: TcpStatus)
    ensures
        r == tcp_status_of(code),
{
    match code {
        1 => TcpStatus::Closed,
        2 => TcpStatus::Listen,
        3 => TcpStatus::SynSent,
        4 => TcpStatus::SynReceived,
        5 => TcpStatus::Established,
        6 => TcpStatus::FinWait1,
        7 => TcpStatus::FinWait2,
        8 => TcpStatus::CloseWait,
        9 => TcpStatus::Closing,
        10 => TcpStatus::LastAck,
        11 => TcpStatus::TimeWait,
        _ => TcpStatus::Error,
    }
}

/// The SSIDs in a scan result: each is one length byte followed by that many
/// bytes of name; a name that is not UTF-8 reads as empty, and an entry cut
/// short ends the list.
pub open spec fn scan_names(raw: Seq<u8>) -> Seq<Seq<char>>
    decreases raw.len(),
{
    if raw.len() == 0 {
        seq![]
    } else {
        let len = raw[0] as int;
        if 1 + len > raw.len() {
            seq![]
        } else {
            seq![utf8_chars_or_empty(raw.subrange(1, 1 + len))] + scan_names(raw.skip(1 + len))
        }
    }
}

/// The names as plain values.
pub open spec fn names_view(v: Seq<String>) -> Seq<Seq<char>> {
    v.map_values(|s: String| s@)
}

/// Reads the SSIDs out of the scan result that the host wrote.
pub fn parse_scan(raw: &[u8]) -> (points: Vec<String>)
    ensures
        names_view(points@) == scan_names(raw@),
{
    let mut points: Vec<String> = Vec::new();
    let mut pos: usize = 0;
    assert(raw@.skip(0) =~= raw@);
    while pos < raw.len()
        invariant
            0 <= pos <= raw@.len(),
            names_view(points@) + scan_names(raw@.skip(pos as int)) == scan_names(raw@),
        decreases raw@.len() - pos,
    {
        let ghost rest = raw@.skip(pos as int);
        let len = raw[pos] as usize;
        if len >= raw.len() - pos {
            assert(scan_names(rest) == Seq::<Seq<char>>::empty());
            assert(names_view(points@) + Seq::<Seq<char>>::empty() =~= names_view(points@));
            return points;
        }
        let name = string_from_utf8_or_empty(&raw[pos + 1..pos + 1 + len]);
        assert(raw@.subrange(pos + 1, pos + 1 + len) =~= rest.subrange(1, 1 + len));
        assert(rest.skip(1 + len) =~= raw@.skip(pos + 1 + len));
        let ghost before = points@;
        points.push(name);
        assert(names_view(points@) =~= names_view(before) + seq![name@]);
        assert(names_view(points@) + scan_names(raw@.skip(pos + 1 + len)) =~= names_view(before)
            + scan_names(rest));
        pos = pos + 1 + len;
    }
    assert(scan_names(raw@.skip(pos as int)) == Seq::<Seq<char>>::empty());
    assert(names_view(points@) + Seq::<Seq<char>>::empty() =~= names_view(points@));
    points
}

/// The address and port that the host's TCP connect call takes: the IPv4
/// octets as a big-endian number, and the port.
pub fn tcp_args(octets: [u8; 4], port: u16) -> (r: (u32, u32))
    ensures
        r.0 == octets[0] as int * 0x1000000 + octets[1] as int * 0x10000 + octets[2] as int
            * 0x100 + octets[3] as int,
        r.1 == port,
{
    let ip = octets[0] as u32 * 0x1000000 + octets[1] as u32 * 0x10000 + octets[2] as u32 * 0x100
        + octets[3] as u32;
    (ip, port as u32)
}

/// The address of install.fireflyzero.com, port 80.
pub open spec fn default_server() -> ([u8; 4], u16) {
    ([116u8, 203, 135, 82], 80u16)
}

/// The text of the `addr` data file, as the address parser gets it: without
/// surrounding whitespace, when it is UTF-8.
pub fn addr_text(raw: &[u8]) -> (r: Option<String>)
    ensures
        r is Some <==> vstd::utf8::valid_utf8(crate::text::trimmed(raw@)),
        r matches Some(s) ==> s@ == vstd::utf8::decode_utf8(crate::text::trimmed(raw@)),
{
    let buf = trim_ascii(raw);
    match str_from_utf8(buf) {
        Some(s) => {
            proof {
                vstd::utf8::encode_utf8_decode_utf8(s@);
            }
            Some(s.to_owned())
        },
        None => None,
    }
}

/// The server to connect to: the address read from the `addr` data file, if
/// it held one, else install.fireflyzero.com, port 80.
pub fn server_or_default(parsed: Option<([u8; 4], u16)>) -> (r: ([u8; 4], u16))
    ensures
        r == match parsed {
            Some(a) => a,
            None => default_server(),
        },
{
    match parsed {
        Some(a) => a,
        None => {
            let ip: [u8; 4] = [116, 203, 135, 82];
            assert(ip =~= default_server().0);
            (ip, 80)
        },
    }
}

} // verus!
