//! The custom HTTP response headers that the install server sends before the
//! ROM files.

use vstd::prelude::*;
use vstd::string::*;
use vstd::utf8::*;

use crate::text::{
    is_ascii_ws, trimmed_end, trimmed_start,
    all_digits, digits_value, is_digit, lemma_find_byte, without_plus,
    bytes_equal, find_byte, lemma_find_byte_found, parse_unsigned, parse_unsigned_bytes, position_of, str_from_utf8,
    trim_ascii, trimmed,
};

verus! {

/// Container for custom HTTP response headers.
pub struct RespHeaders {
    /// The custom installer protocol version.
    ///
    /// Bumped on breaking changes, to ensure that the server and the client are compatible.
    pub protocol: u8,
    pub author_id: String,
    pub app_id: String,
    pub today: (u16, u8, u8),
    pub expected_size: u32,
}

/// The headers as plain values.
pub struct HeadersModel {
    pub protocol: u8,
    pub author_id: Seq<char>,
    pub app_id: Seq<char>,
    pub today: (u16, u8, u8),
    pub expected_size: u32,
}

impl View for RespHeaders {
    type V = HeadersModel;

    open spec fn view(&self) -> HeadersModel {
        HeadersModel {
            protocol: self.protocol,
            author_id: self.author_id@,
            app_id: self.app_id@,
            today: self.today,
            expected_size: self.expected_size,
        }
    }
}

/// The headers before any line was read: every field empty or zero.
pub open spec fn empty_headers() -> HeadersModel {
    HeadersModel {
        protocol: 0,
        author_id: Seq::empty(),
        app_id: Seq::empty(),
        today: (0, 0, 0),
        expected_size: 0,
    }
}

/// `X-F0-`, the prefix of every header that the installer reads.
pub open spec fn header_prefix() -> Seq<u8> {
    seq!['X' as u8, '-' as u8, 'F' as u8, '0' as u8, '-' as u8]
}

/// `protocol`
pub open spec fn key_protocol() -> Seq<u8> {
    seq!['p' as u8, 'r' as u8, 'o' as u8, 't' as u8, 'o' as u8, 'c' as u8, 'o' as u8, 'l' as u8]
}

/// `author-id`
pub open spec fn key_author_id() -> Seq<u8> {
    seq![
        'a' as u8,
        'u' as u8,
        't' as u8,
        'h' as u8,
        'o' as u8,
        'r' as u8,
        '-' as u8,
        'i' as u8,
        'd' as u8,
    ]
}

/// `app-id`
pub open spec fn key_app_id() -> Seq<u8> {
    seq!['a' as u8, 'p' as u8, 'p' as u8, '-' as u8, 'i' as u8, 'd' as u8]
}

/// `today`
pub open spec fn key_today() -> Seq<u8> {
    seq!['t' as u8, 'o' as u8, 'd' as u8, 'a' as u8, 'y' as u8]
}

/// `expected-size`
pub open spec fn key_expected_size() -> Seq<u8> {
    seq![
        'e' as u8,
        'x' as u8,
        'p' as u8,
        'e' as u8,
        'c' as u8,
        't' as u8,
        'e' as u8,
        'd' as u8,
        '-' as u8,
        's' as u8,
        'i' as u8,
        'z' as u8,
        'e' as u8,
    ]
}

/// The byte with ASCII upper-case letters mapped to lower case.
pub open spec fn lower_byte(b: u8) -> u8 {
    if 0x41 <= b <= 0x5a {
        (b + 0x20) as u8
    } else {
        b
    }
}

/// `<[u8]>::to_ascii_lowercase`
pub open spec fn lowercase(s: Seq<u8>) -> Seq<u8> {
    s.map_values(|b: u8| lower_byte(b))
}

/// The date of a `YYYY-MM-DD` text, or the message for what is wrong with it.
pub open spec fn date_from(s: Seq<u8>) -> Result<(u16, u8, u8), &'static str> {
    match find_byte(s, '-' as u8) {
        None => Err("invalid date format"),
        Some(i) => {
            let year = s.take(i);
            let rest = s.skip(i + 1);
            match find_byte(rest, '-' as u8) {
                None => Err("invalid date format"),
                Some(j) => {
                    let month = rest.take(j);
                    let day = rest.skip(j + 1);
                    match parse_unsigned(year, 0xffff) {
                        None => Err("invalid year"),
                        Some(y) => match parse_unsigned(month, 0xff) {
                            None => Err("invalid month"),
                            Some(m) => match parse_unsigned(day, 0xff) {
                                None => Err("invalid day"),
                                Some(d) => if !(2024 <= y && y <= 3000) {
                                    Err("invalid year")
                                } else if m == 0 || m > 12 {
                                    Err("invalid month")
                                } else if d == 0 || d > 31 {
                                    Err("invalid day")
                                } else {
                                    Ok((y as u16, m as u8, d as u8))
                                },
                            },
                        },
                    }
                },
            }
        },
    }
}

/// Parses a `YYYY-MM-DD` date into its year, month and day.
///
/// Each part is a number as `str::parse` reads it; the year must lie in
/// 2024..=3000, the month in 1..=12 and the day in 1..=31.
pub fn parse_date(raw: &str) -> (res: Result<(u16, u8, u8), &'static str>)
    ensures
        res == date_from(raw.spec_bytes()),
        res matches Ok((y, m, d)) ==> 2024 <= y <= 3000 && 1 <= m <= 12 && 1 <= d <= 31,
{
    let s = raw.as_bytes();
    let ghost b = s@;
    let i = match position_of(s, '-' as u8) {
        Some(i) => i,
        None => return Err("invalid date format"),
    };
    proof {
        lemma_find_byte_found(b, '-' as u8);
    }
    assert(i < s.len());
    let year = &s[0..i];
    let rest = &s[i + 1..s.len()];
    assert(year@ =~= b.take(i as int));
    assert(rest@ =~= b.skip(i + 1));
    let j = match position_of(rest, '-' as u8) {
        Some(j) => j,
        None => return Err("invalid date format"),
    };
    proof {
        lemma_find_byte_found(rest@, '-' as u8);
    }
    assert(j < rest.len());
    let month = &rest[0..j];
    let day = &rest[j + 1..rest.len()];
    assert(month@ =~= rest@.take(j as int));
    assert(day@ =~= rest@.skip(j + 1));
    let year = match parse_unsigned_bytes(year, 0xffff) {
        Some(y) => y,
        None => return Err("invalid year"),
    };
    let month = match parse_unsigned_bytes(month, 0xff) {
        Some(m) => m,
        None => return Err("invalid month"),
    };
    let day = match parse_unsigned_bytes(day, 0xff) {
        Some(d) => d,
        None => return Err("invalid day"),
    };
    if !(2024 <= year && year <= 3000) {
        return Err("invalid year");
    }
    if month == 0 || month > 12 {
        return Err("invalid month");
    }
    if day == 0 || day > 31 {
        return Err("invalid day");
    }
    Ok((year as u16, month as u8, day as u8))
}


/// What one header line does to the headers read so far: lines without the
/// `X-F0-` prefix are skipped, the others must be `key: value` with a known
/// key and a UTF-8 value.
///
/// The value is the text after the colon, without surrounding whitespace.
pub open spec fn apply_line(line: Seq<u8>, acc: HeadersModel) -> Result<
    HeadersModel,
    &'static str,
> {
    let line = trimmed(line);
    if !(line.len() >= 5 && line.take(5) == header_prefix()) {
        Ok(acc)
    } else {
        let line = line.skip(5);
        match find_byte(line, ':' as u8) {
            None => Err("invalid header received"),
            Some(idx) => {
                let key = lowercase(trimmed(line.take(idx)));
                let value = trimmed(line.skip(idx + 1));
                if !valid_utf8(value) {
                    Err("invalid header encoding")
                } else if key == key_protocol() {
                    if value != seq!['1' as u8] {
                        Err("unsupported protocol")
                    } else {
                        Ok(HeadersModel { protocol: 1, ..acc })
                    }
                } else if key == key_author_id() {
                    Ok(HeadersModel { author_id: decode_utf8(value), ..acc })
                } else if key == key_app_id() {
                    Ok(HeadersModel { app_id: decode_utf8(value), ..acc })
                } else if key == key_today() {
                    match date_from(value) {
                        Ok(d) => Ok(HeadersModel { today: d, ..acc }),
                        Err(e) => Err(e),
                    }
                } else if key == key_expected_size() {
                    Ok(acc)
                } else {
                    Err("unsupported header received")
                }
            },
        }
    }
}

/// The lines of `raw`, separated by `\n`, applied one after the other to `acc`.
pub open spec fn apply_lines(raw: Seq<u8>, acc: HeadersModel) -> Result<
    HeadersModel,
    &'static str,
>
    decreases raw.len(),
{
    match find_byte(raw, 0x0a) {
        None => apply_line(raw, acc),
        Some(i) => {
            proof {
                lemma_find_byte_found(raw, 0x0a);
            }
            match apply_line(raw.take(i), acc) {
                Err(e) => Err(e),
                Ok(next) => apply_lines(raw.skip(i + 1), next),
            }
        },
    }
}

/// The headers of a response, or the message for what is wrong with them.
pub open spec fn headers_from(raw: Seq<u8>) -> Result<HeadersModel, &'static str> {
    match apply_lines(raw, empty_headers()) {
        Err(e) => Err(e),
        Ok(h) => if h.protocol == 0 {
            Err("protocol not specified")
        } else if h.today.0 == 0 {
            Err("current date not specified")
        } else if h.author_id.len() == 0 {
            Err("author ID not specified")
        } else if h.app_id.len() == 0 {
            Err("author ID not specified")
        } else {
            Ok(h)
        },
    }
}

/// The parse result as plain values.
pub open spec fn parsed(r: Result<RespHeaders, &'static str>) -> Result<HeadersModel, &'static str> {
    match r {
        Ok(h) => Ok(h@),
        Err(e) => Err(e),
    }
}

/// `lowercase(s) == lower`
fn lowercase_equals(s: &[u8], lower: &[u8]) -> (r: bool)
    ensures
        r == (lowercase(s@) == lower@),
{
    if s.len() != lower.len() {
        assert(lowercase(s@).len() != lower@.len());
        return false;
    }
    let mut i: usize = 0;
    while i < s.len()
        invariant
            s@.len() == lower@.len(),
            0 <= i <= s@.len(),
            forall|k: int| 0 <= k < i ==> lower_byte(s@[k]) == lower@[k],
        decreases s@.len() - i,
    {
        let b = s[i];
        let l = if 0x41 <= b && b <= 0x5a {
            b + 0x20
        } else {
            b
        };
        if l != lower[i] {
            assert(lowercase(s@)[i as int] != lower@[i as int]);
            return false;
        }
        i = i + 1;
    }
    assert(lowercase(s@) =~= lower@);
    true
}

impl RespHeaders {
    fn apply_line(&mut self, line: &[u8]) -> (r: Result<(), &'static str>)
        ensures
            match apply_line(line@, old(self)@) {
                Ok(m) => r is Ok && final(self)@ == m,
                Err(e) => r == Err::<(), &'static str>(e),
            },
    {
        let line = trim_ascii(line);
        let prefix: [u8; 5] = ['X' as u8, '-' as u8, 'F' as u8, '0' as u8, '-' as u8];
        assert(prefix@ =~= header_prefix());
        if !(line.len() >= 5 && bytes_equal(&line[0..5], &prefix)) {
            return Ok(());
        }
        let line = &line[5..line.len()];
        let idx = match position_of(line, ':' as u8) {
            Some(idx) => idx,
            None => return Err("invalid header received"),
        };
        proof {
            lemma_find_byte_found(line@, ':' as u8);
        }
        assert(idx < line.len());
        let key = trim_ascii(&line[0..idx]);
        let value_bytes = trim_ascii(&line[idx + 1..line.len()]);
        assert(line@.take(idx as int) =~= line@.subrange(0, idx as int));
        assert(line@.skip(idx + 1) =~= line@.subrange(idx + 1, line@.len() as int));
        let value = match str_from_utf8(value_bytes) {
            Some(v) => v,
            None => return Err("invalid header encoding"),
        };
        proof {
            encode_utf8_decode_utf8(value@);
        }
        let k_protocol: [u8; 8] = [
            'p' as u8,
            'r' as u8,
            'o' as u8,
            't' as u8,
            'o' as u8,
            'c' as u8,
            'o' as u8,
            'l' as u8,
        ];
        let k_author: [u8; 9] = [
            'a' as u8,
            'u' as u8,
            't' as u8,
            'h' as u8,
            'o' as u8,
            'r' as u8,
            '-' as u8,
            'i' as u8,
            'd' as u8,
        ];
        let k_app: [u8; 6] = ['a' as u8, 'p' as u8, 'p' as u8, '-' as u8, 'i' as u8, 'd' as u8];
        let k_today: [u8; 5] = ['t' as u8, 'o' as u8, 'd' as u8, 'a' as u8, 'y' as u8];
        let k_size: [u8; 13] = [
            'e' as u8,
            'x' as u8,
            'p' as u8,
            'e' as u8,
            'c' as u8,
            't' as u8,
            'e' as u8,
            'd' as u8,
            '-' as u8,
            's' as u8,
            'i' as u8,
            'z' as u8,
            'e' as u8,
        ];
        let one: [u8; 1] = ['1' as u8];
        assert(k_protocol@ =~= key_protocol());
        assert(k_author@ =~= key_author_id());
        assert(k_app@ =~= key_app_id());
        assert(k_today@ =~= key_today());
        assert(k_size@ =~= key_expected_size());
        assert(one@ =~= seq!['1' as u8]);
        if lowercase_equals(key, &k_protocol) {
            if !bytes_equal(value_bytes, &one) {
                return Err("unsupported protocol");
            }
            self.protocol = 1;
        } else if lowercase_equals(key, &k_author) {
            self.author_id = value.to_owned();
        } else if lowercase_equals(key, &k_app) {
            self.app_id = value.to_owned();
        } else if lowercase_equals(key, &k_today) {
            self.today = parse_date(value)?;
        } else if lowercase_equals(key, &k_size) {
        } else {
            return Err("unsupported header received");
        }
        Ok(())
    }

    /// Parses the custom headers out of a raw HTTP response head.
    ///
    /// Every line that starts with `X-F0-` must be a known header, and the
    /// protocol, the current date, the author ID and the app ID must all be set.
    pub fn parse(raw: &[u8]) -> (res: Result<Self, &'static str>)
        ensures
            parsed(res) == headers_from(raw@),
    {
        let mut res = Self {
            protocol: 0,
            author_id: String::new(),
            app_id: String::new(),
            today: (0, 0, 0),
            expected_size: 0,
        };
        assert(res@ =~= empty_headers());
        let mut pos: usize = 0;
        assert(raw@.skip(0) =~= raw@);
        loop
            invariant_except_break
                0 <= pos <= raw@.len(),
                apply_lines(raw@, empty_headers()) == apply_lines(raw@.skip(pos as int), res@),
            ensures
                apply_lines(raw@, empty_headers()) == Ok::<HeadersModel, &'static str>(res@),
            decreases raw@.len() - pos,
        {
            let rest = &raw[pos..raw.len()];
            assert(rest@ =~= raw@.skip(pos as int));
            proof {
                lemma_find_byte_found(rest@, 0x0a);
            }
            match position_of(rest, 0x0a) {
                None => {
                    res.apply_line(rest)?;
                    break ;
                },
                Some(i) => {
                    assert(i < rest.len());
                    let line = &rest[0..i];
                    assert(line@ =~= rest@.take(i as int));
                    res.apply_line(line)?;
                    assert(rest@.skip(i + 1) =~= raw@.skip(pos + i + 1));
                    pos = pos + i + 1;
                },
            }
        }
        if res.protocol == 0 {
            return Err("protocol not specified");
        }
        if res.today.0 == 0 {
            return Err("current date not specified");
        }
        if res.author_id.as_str().is_empty() {
            return Err("author ID not specified");
        }
        if res.app_id.as_str().is_empty() {
            return Err("author ID not specified");
        }
        Ok(res)
    }
}

/// The headers read so far hold nothing invalid: the protocol is unset or 1,
/// and the date is unset or a valid one.
pub open spec fn headers_sound(h: HeadersModel) -> bool {
    &&& (h.protocol == 0 || h.protocol == 1)
    &&& (h.today == (0u16, 0u8, 0u8) || (2024 <= h.today.0 <= 3000 && 1 <= h.today.1 <= 12 && 1
        <= h.today.2 <= 31))
}

proof fn lemma_date_from_sound(s: Seq<u8>)
    ensures
        date_from(s) matches Ok((y, m, d)) ==> 2024 <= y <= 3000 && 1 <= m <= 12 && 1 <= d <= 31,
{
}

proof fn lemma_apply_lines_sound(raw: Seq<u8>, acc: HeadersModel)
    requires
        headers_sound(acc),
    ensures
        apply_lines(raw, acc) matches Ok(h) ==> headers_sound(h),
    decreases raw.len(),
{
    lemma_find_byte_found(raw, 0x0a);
    match find_byte(raw, 0x0a) {
        None => {
            let t = trimmed(raw);
            if t.len() >= 5 {
                let rest = t.skip(5);
                if let Some(idx) = find_byte(rest, ':' as u8) {
                    lemma_date_from_sound(trimmed(rest.skip(idx + 1)));
                }
            }
        },
        Some(i) => {
            let t = trimmed(raw.take(i));
            if t.len() >= 5 {
                let rest = t.skip(5);
                if let Some(idx) = find_byte(rest, ':' as u8) {
                    lemma_date_from_sound(trimmed(rest.skip(idx + 1)));
                }
            }
            if let Ok(next) = apply_line(raw.take(i), acc) {
                lemma_apply_lines_sound(raw.skip(i + 1), next);
            }
        },
    }
}

/// Headers that parse are complete: protocol 1, a date from 2024 to 3000
/// with a valid month and day, and a non-empty author ID and app ID.
pub proof fn lemma_parsed_headers_complete(raw: Seq<u8>)
    ensures
        headers_from(raw) matches Ok(h) ==> {
            &&& h.protocol == 1
            &&& 2024 <= h.today.0 <= 3000 && 1 <= h.today.1 <= 12 && 1 <= h.today.2 <= 31
            &&& h.author_id.len() > 0
            &&& h.app_id.len() > 0
        },
{
    lemma_apply_lines_sound(raw, empty_headers());
}


/// A valid date written as digits, a `-`, digits, a `-` and digits reads back
/// as that date: printed with `{y}-{m}-{d}` (see
/// [`crate::text::lemma_decimal_bytes`]), or zero-padded as `{y:04}-{m:02}-{d:02}`
/// (see [`crate::text::lemma_leading_zeros`]).
#[verifier::spinoff_prover]
pub proof fn lemma_date_round_trip(ys: Seq<u8>, ms: Seq<u8>, ds: Seq<u8>, y: u16, m: u8, d: u8)
    requires
        ys.len() > 0 && all_digits(ys) && digits_value(ys) == y,
        ms.len() > 0 && all_digits(ms) && digits_value(ms) == m,
        ds.len() > 0 && all_digits(ds) && digits_value(ds) == d,
        2024 <= y <= 3000,
        1 <= m <= 12,
        1 <= d <= 31,
    ensures
        date_from(ys + seq!['-' as u8] + ms + seq!['-' as u8] + ds) == Ok::<(u16, u8, u8), &'static str>(
            (y, m, d),
        ),
{
    let rest = ms + seq!['-' as u8] + ds;
    let t = ys + seq!['-' as u8] + rest;
    assert(t =~= ys + seq!['-' as u8] + ms + seq!['-' as u8] + ds);
    assert(find_byte(t, '-' as u8) == Some(ys.len() as int)) by {
        assert forall|k: int| 0 <= k < ys.len() implies t[k] != '-' as u8 by {
            assert(t[k] == ys[k]);
            assert(is_digit(ys[k]));
        }
        lemma_find_byte(t, '-' as u8, ys.len() as int);
    }
    assert(t.take(ys.len() as int) =~= ys);
    assert(t.skip(ys.len() + 1int) =~= rest);
    assert(find_byte(rest, '-' as u8) == Some(ms.len() as int)) by {
        assert forall|k: int| 0 <= k < ms.len() implies rest[k] != '-' as u8 by {
            assert(rest[k] == ms[k]);
            assert(is_digit(ms[k]));
        }
        lemma_find_byte(rest, '-' as u8, ms.len() as int);
    }
    assert(rest.take(ms.len() as int) =~= ms);
    assert(rest.skip(ms.len() + 1int) =~= ds);
    assert(parse_unsigned(ys, 0xffff) == Some(y as nat)) by {
        assert(is_digit(ys[0]));
        assert(without_plus(ys) == ys);
    }
    assert(parse_unsigned(ms, 0xff) == Some(m as nat)) by {
        assert(is_digit(ms[0]));
        assert(without_plus(ms) == ms);
    }
    assert(parse_unsigned(ds, 0xff) == Some(d as nat)) by {
        assert(is_digit(ds[0]));
        assert(without_plus(ds) == ds);
    }
}


/// A line that does not start with `X-F0-` changes nothing, wherever it is
/// put between the lines of a response head: other HTTP lines are ignored.
pub proof fn lemma_other_line_ignored(pre: Seq<u8>, line: Seq<u8>, rest: Seq<u8>, acc: HeadersModel)
    requires
        pre.len() == 0 || pre.last() == 0x0a,
        !line.contains(0x0a),
        !(trimmed(line).len() >= 5 && trimmed(line).take(5) == header_prefix()),
    ensures
        apply_lines(pre + line + seq![0x0au8] + rest, acc) == apply_lines(pre + rest, acc),
        headers_from(pre + line + seq![0x0au8] + rest) == headers_from(pre + rest),
    decreases pre.len(),
{
    lemma_other_line_ignored_from(pre, line, rest, acc);
    lemma_other_line_ignored_from(pre, line, rest, empty_headers());
}

proof fn lemma_other_line_ignored_from(pre: Seq<u8>, line: Seq<u8>, rest: Seq<u8>, acc: HeadersModel)
    requires
        pre.len() == 0 || pre.last() == 0x0a,
        !line.contains(0x0a),
        !(trimmed(line).len() >= 5 && trimmed(line).take(5) == header_prefix()),
    ensures
        apply_lines(pre + line + seq![0x0au8] + rest, acc) == apply_lines(pre + rest, acc),
    decreases pre.len(),
{
    let a = pre + line + seq![0x0au8] + rest;
    let b = pre + rest;
    if pre.len() == 0 {
        assert(a =~= line + seq![0x0au8] + rest);
        assert(b =~= rest);
        assert forall|k: int| 0 <= k < line.len() implies a[k] != 0x0a by {
            assert(a[k] == line[k]);
            if line[k] == 0x0a {
                assert(line.contains(0x0a));
            }
        }
        lemma_find_byte(a, 0x0a, line.len() as int);
        assert(a.take(line.len() as int) =~= line);
        assert(a.skip(line.len() + 1int) =~= rest);
        lemma_find_byte_found(a, 0x0a);
    } else {
        lemma_find_byte_found(pre, 0x0a);
        let i = find_byte(pre, 0x0a)->0;
        assert forall|k: int| 0 <= k < i implies a[k] != 0x0a by {
            assert(a[k] == pre[k]);
        }
        assert forall|k: int| 0 <= k < i implies b[k] != 0x0a by {
            assert(b[k] == pre[k]);
        }
        lemma_find_byte(a, 0x0a, i);
        lemma_find_byte(b, 0x0a, i);
        lemma_find_byte_found(a, 0x0a);
        lemma_find_byte_found(b, 0x0a);
        assert(a.take(i) =~= pre.take(i));
        assert(b.take(i) =~= pre.take(i));
        let pre2 = pre.skip(i + 1);
        assert(a.skip(i + 1) =~= pre2 + line + seq![0x0au8] + rest);
        assert(b.skip(i + 1) =~= pre2 + rest);
        if pre2.len() > 0 {
            assert(pre2.last() == pre.last());
        }
        if let Ok(next) = apply_line(pre.take(i), acc) {
            lemma_other_line_ignored_from(pre2, line, rest, next);
        }
    }
}


proof fn lemma_trimmed_end_concat(x: Seq<u8>, y: Seq<u8>)
    requires
        x.len() > 0,
        !is_ascii_ws(x.last()),
    ensures
        trimmed_end(x + y) == x + trimmed_end(y),
    decreases y.len(),
{
    if y.len() == 0 {
        assert(x + y =~= x);
        assert(x + trimmed_end(y) =~= x);
    } else {
        assert((x + y).last() == y.last());
        if is_ascii_ws(y.last()) {
            assert((x + y).drop_last() =~= x + y.drop_last());
            lemma_trimmed_end_concat(x, y.drop_last());
        }
    }
}

/// The parts of a header line `X-F0-<key>:<value>` whose key has no colon
/// and no surrounding whitespace.
proof fn lemma_header_line_parts(k: Seq<u8>, v: Seq<u8>)
    requires
        trimmed(k) == k,
        !k.contains(':' as u8),
    ensures
        ({
            let t = trimmed(header_prefix() + k + seq![':' as u8] + v);
            &&& t.len() >= 5
            &&& t.take(5) == header_prefix()
            &&& find_byte(t.skip(5), ':' as u8) == Some(k.len() as int)
            &&& t.skip(5).take(k.len() as int) == k
            &&& t.skip(5).skip(k.len() + 1int) == trimmed_end(v)
        }),
{
    let x = header_prefix() + k + seq![':' as u8];
    let line = x + v;
    assert(line =~= header_prefix() + k + seq![':' as u8] + v);
    assert(line[0] == 'X' as u8);
    assert(trimmed_start(line) == line);
    assert(x.last() == ':' as u8);
    lemma_trimmed_end_concat(x, v);
    let t = x + trimmed_end(v);
    assert(t.take(5) =~= header_prefix());
    let r = t.skip(5);
    assert(r =~= k + seq![':' as u8] + trimmed_end(v));
    assert forall|i: int| 0 <= i < k.len() implies r[i] != ':' as u8 by {
        assert(r[i] == k[i]);
        if k[i] == ':' as u8 {
            assert(k.contains(':' as u8));
        }
    }
    lemma_find_byte(r, ':' as u8, k.len() as int);
    assert(r.take(k.len() as int) =~= k);
    assert(r.skip(k.len() + 1int) =~= trimmed_end(v));
}

/// Custom header keys are read without regard to ASCII letter case: two
/// header lines whose keys differ only in case do the same.
pub proof fn lemma_key_case(k1: Seq<u8>, k2: Seq<u8>, v: Seq<u8>, acc: HeadersModel)
    requires
        lowercase(k1) == lowercase(k2),
        trimmed(k1) == k1,
        trimmed(k2) == k2,
        !k1.contains(':' as u8),
        !k2.contains(':' as u8),
    ensures
        apply_line(header_prefix() + k1 + seq![':' as u8] + v, acc) == apply_line(
            header_prefix() + k2 + seq![':' as u8] + v,
            acc,
        ),
{
    lemma_header_line_parts(k1, v);
    lemma_header_line_parts(k2, v);
}


/// A line of a response head can be swapped for one that does the same to
/// any headers read so far.
proof fn lemma_line_swap(pre: Seq<u8>, l1: Seq<u8>, l2: Seq<u8>, rest: Seq<u8>, acc: HeadersModel)
    requires
        pre.len() == 0 || pre.last() == 0x0a,
        rest.len() == 0 || rest[0] == 0x0a,
        !l1.contains(0x0a),
        !l2.contains(0x0a),
        forall|h: HeadersModel| #[trigger] apply_line(l1, h) == apply_line(l2, h),
    ensures
        apply_lines(pre + l1 + rest, acc) == apply_lines(pre + l2 + rest, acc),
    decreases pre.len(),
{
    let a = pre + l1 + rest;
    let b = pre + l2 + rest;
    if pre.len() == 0 {
        assert(a =~= l1 + rest);
        assert(b =~= l2 + rest);
        assert forall|k: int| 0 <= k < l1.len() implies a[k] != 0x0a by {
            assert(a[k] == l1[k]);
            if l1[k] == 0x0a {
                assert(l1.contains(0x0a));
            }
        }
        assert forall|k: int| 0 <= k < l2.len() implies b[k] != 0x0a by {
            assert(b[k] == l2[k]);
            if l2[k] == 0x0a {
                assert(l2.contains(0x0a));
            }
        }
        lemma_find_byte(a, 0x0a, l1.len() as int);
        lemma_find_byte(b, 0x0a, l2.len() as int);
        assert(apply_line(l1, acc) == apply_line(l2, acc));
        if rest.len() == 0 {
            assert(a =~= l1);
            assert(b =~= l2);
        } else {
            assert(a[l1.len() as int] == 0x0a);
            assert(b[l2.len() as int] == 0x0a);
            assert(a.take(l1.len() as int) =~= l1);
            assert(b.take(l2.len() as int) =~= l2);
            assert(a.skip(l1.len() + 1int) =~= rest.skip(1));
            assert(b.skip(l2.len() + 1int) =~= rest.skip(1));
        }
        lemma_find_byte_found(a, 0x0a);
        lemma_find_byte_found(b, 0x0a);
    } else {
        lemma_find_byte_found(pre, 0x0a);
        let i = find_byte(pre, 0x0a)->0;
        assert forall|k: int| 0 <= k < i implies a[k] != 0x0a by {
            assert(a[k] == pre[k]);
        }
        assert forall|k: int| 0 <= k < i implies b[k] != 0x0a by {
            assert(b[k] == pre[k]);
        }
        lemma_find_byte(a, 0x0a, i);
        lemma_find_byte(b, 0x0a, i);
        lemma_find_byte_found(a, 0x0a);
        lemma_find_byte_found(b, 0x0a);
        assert(a.take(i) =~= pre.take(i));
        assert(b.take(i) =~= pre.take(i));
        let pre2 = pre.skip(i + 1);
        assert(a.skip(i + 1) =~= pre2 + l1 + rest);
        assert(b.skip(i + 1) =~= pre2 + l2 + rest);
        if pre2.len() > 0 {
            assert(pre2.last() == pre.last());
        }
        if let Ok(next) = apply_line(pre.take(i), acc) {
            lemma_line_swap(pre2, l1, l2, rest, next);
        }
    }
}

/// Changing the ASCII letter case of a custom header's key anywhere in a
/// response head changes nothing about what it parses to.
pub proof fn lemma_key_case_in_head(pre: Seq<u8>, k1: Seq<u8>, k2: Seq<u8>, v: Seq<u8>, rest: Seq<u8>)
    requires
        pre.len() == 0 || pre.last() == 0x0a,
        rest.len() == 0 || rest[0] == 0x0a,
        lowercase(k1) == lowercase(k2),
        trimmed(k1) == k1,
        trimmed(k2) == k2,
        !k1.contains(':' as u8) && !k1.contains(0x0a),
        !k2.contains(':' as u8) && !k2.contains(0x0a),
        !v.contains(0x0a),
    ensures
        headers_from(pre + (header_prefix() + k1 + seq![':' as u8] + v) + rest) == headers_from(
            pre + (header_prefix() + k2 + seq![':' as u8] + v) + rest,
        ),
{
    let l1 = header_prefix() + k1 + seq![':' as u8] + v;
    let l2 = header_prefix() + k2 + seq![':' as u8] + v;
    assert forall|h: HeadersModel| #[trigger] apply_line(l1, h) == apply_line(l2, h) by {
        lemma_key_case(k1, k2, v, h);
    }
    assert(!l1.contains(0x0a)) by {
        if l1.contains(0x0a) {
            let k = choose|k: int| 0 <= k < l1.len() && l1[k] == 0x0a;
            if k < 5 {
            } else if k < 5 + k1.len() {
                assert(k1[k - 5] == l1[k]);
                assert(k1.contains(0x0a));
            } else if k == 5 + k1.len() {
            } else {
                assert(v[k - 6 - k1.len()] == l1[k]);
                assert(v.contains(0x0a));
            }
        }
    }
    assert(!l2.contains(0x0a)) by {
        if l2.contains(0x0a) {
            let k = choose|k: int| 0 <= k < l2.len() && l2[k] == 0x0a;
            if k < 5 {
            } else if k < 5 + k2.len() {
                assert(k2[k - 5] == l2[k]);
                assert(k2.contains(0x0a));
            } else if k == 5 + k2.len() {
            } else {
                assert(v[k - 6 - k2.len()] == l2[k]);
                assert(v.contains(0x0a));
            }
        }
    }
    lemma_line_swap(pre, l1, l2, rest, empty_headers());
}

} // verus!
