//! Parsing of EN 62056-21 telegrams into OBIS readings.

use vstd::prelude::*;
use vstd::string::StringSliceAdditionalSpecFns;
use vstd::utf8::{decode_utf8, encode_utf8_decode_utf8, valid_utf8};
use vstd::string::StringExecFns;
use crate::number::{
    decimal_text, float_literal, hex_text, is_float_literal, parse_hex, parse_hex_spec,
    push_decimal, push_hex,
};
use crate::text::{
    chars_equal_str, chars_of, find_char, find_char_in, line_bounds, pieces, string_of, text_lines,
    trim, trim_bounds,
};

verus! {

/// One OBIS reading of a telegram.
///
/// Decimal quantities hold the text of their value, which the caller of the
/// parser forms from the literal the meter sent (see `parse_telegram`).
#[derive(Debug, PartialEq)]
pub enum Reading {
    /// 1-0:0.0.0*255: meter identification string
    MeterId(String),
    /// 1-0:96.1.0*255: serial number
    SerialNumber(String),
    /// 1-0:1.8.0*255: cumulative active energy import (kWh)
    EnergyImport(String),
    /// 1-0:2.8.0*255: cumulative active energy export (kWh)
    EnergyExport(String),
    /// 1-0:16.7.0*255: instantaneous total active power (W)
    PowerTotal(String),
    /// 1-0:36.7.0*255: instantaneous L1 active power (W)
    PowerL1(String),
    /// 1-0:56.7.0*255: instantaneous L2 active power (W)
    PowerL2(String),
    /// 1-0:76.7.0*255: instantaneous L3 active power (W)
    PowerL3(String),
    /// 1-0:96.5.0*255: meter status flags (hex-decoded)
    StatusFlags(u32),
    /// 0-0:96.8.0*255: operating time in seconds (hex-decoded)
    OperatingTime(u32),
    /// An OBIS code this library does not interpret.
    Unknown { code: String, value: String, unit: Option<String> },
}

/// The mathematical value of a `Reading`.
pub enum ReadingModel {
    MeterId(Seq<char>),
    SerialNumber(Seq<char>),
    EnergyImport(Seq<char>),
    EnergyExport(Seq<char>),
    PowerTotal(Seq<char>),
    PowerL1(Seq<char>),
    PowerL2(Seq<char>),
    PowerL3(Seq<char>),
    StatusFlags(u32),
    OperatingTime(u32),
    Unknown { code: Seq<char>, value: Seq<char>, unit: Option<Seq<char>> },
}

/// The view of an optional string.
pub open spec fn opt_view(s: Option<String>) -> Option<Seq<char>> {
    match s {
        Some(t) => Some(t@),
        None => None,
    }
}

impl View for Reading {
    type V = ReadingModel;

    open spec fn view(&self) -> ReadingModel {
        match self {
            Reading::MeterId(v) => ReadingModel::MeterId(v@),
            Reading::SerialNumber(v) => ReadingModel::SerialNumber(v@),
            Reading::EnergyImport(v) => ReadingModel::EnergyImport(v@),
            Reading::EnergyExport(v) => ReadingModel::EnergyExport(v@),
            Reading::PowerTotal(v) => ReadingModel::PowerTotal(v@),
            Reading::PowerL1(v) => ReadingModel::PowerL1(v@),
            Reading::PowerL2(v) => ReadingModel::PowerL2(v@),
            Reading::PowerL3(v) => ReadingModel::PowerL3(v@),
            Reading::StatusFlags(v) => ReadingModel::StatusFlags(*v),
            Reading::OperatingTime(v) => ReadingModel::OperatingTime(*v),
            Reading::Unknown { code, value, unit } => ReadingModel::Unknown {
                code: code@,
                value: value@,
                unit: opt_view(*unit),
            },
        }
    }
}

/// A parsed telegram: the device id from its identification line and its
/// readings in the order of their lines.
#[derive(Debug, PartialEq)]
pub struct Telegram {
    pub device_id: String,
    pub readings: Vec<Reading>,
}

/// The mathematical value of a `Telegram`.
pub struct TelegramModel {
    pub device_id: Seq<char>,
    pub readings: Seq<ReadingModel>,
}

/// The views of a sequence of readings.
pub open spec fn readings_view(rs: Seq<Reading>) -> Seq<ReadingModel> {
    rs.map_values(|r: Reading| r@)
}

impl View for Telegram {
    type V = TelegramModel;

    open spec fn view(&self) -> TelegramModel {
        TelegramModel { device_id: self.device_id@, readings: readings_view(self.readings@) }
    }
}

/// Why a telegram could not be parsed.
#[derive(Debug, PartialEq)]
pub enum ParseError {
    InvalidUtf8,
    MissingHeader,
    MalformedLine(String),
}

/// The mathematical value of a `ParseError`.
pub enum ParseErrorModel {
    InvalidUtf8,
    MissingHeader,
    MalformedLine(Seq<char>),
}

impl View for ParseError {
    type V = ParseErrorModel;

    open spec fn view(&self) -> ParseErrorModel {
        match self {
            ParseError::InvalidUtf8 => ParseErrorModel::InvalidUtf8,
            ParseError::MissingHeader => ParseErrorModel::MissingHeader,
            ParseError::MalformedLine(l) => ParseErrorModel::MalformedLine(l@),
        }
    }
}

/// The code, value and optional unit of a data line `code(value*unit)` or
/// `code(value)`: the code ends at the first `(`, the line ends with `)`, and
/// the unit starts after the first `*` inside the parentheses.
pub open spec fn split_reading_parts_spec(line: Seq<char>) -> Option<
    (Seq<char>, Seq<char>, Option<Seq<char>>),
> {
    match find_char(line, '(') {
        None => None,
        Some(p) => {
            let rest = line.skip(p + 1);
            if rest.len() > 0 && rest.last() == ')' {
                let inner = rest.drop_last();
                match find_char(inner, '*') {
                    None => Some((line.take(p), inner, None)),
                    Some(q) => Some((line.take(p), inner.take(q), Some(inner.skip(q + 1)))),
                }
            } else {
                None
            }
        },
    }
}

/// A data line is rebuilt from its parts: the code, `(`, the value, `*` and
/// the unit when there is a unit, and `)`. The code holds no `(` and the
/// value no `*`.
pub proof fn lemma_reading_parts_rebuild(
    line: Seq<char>,
    code: Seq<char>,
    value: Seq<char>,
    unit: Option<Seq<char>>,
)
    requires
        split_reading_parts_spec(line) == Some((code, value, unit)),
    ensures
        line == code + seq!['('] + value + match unit {
            Some(u) => seq!['*'] + u,
            None => Seq::<char>::empty(),
        } + seq![')'],
        !code.contains('('),
        !value.contains('*'),
{
    crate::text::lemma_find_char(line, '(');
    let p = find_char(line, '(')->0;
    let rest = line.skip(p + 1);
    let inner = rest.drop_last();
    crate::text::lemma_find_char(inner, '*');
    assert(line =~= line.take(p) + seq!['('] + rest);
    assert(rest =~= inner + seq![')']);
    match find_char(inner, '*') {
        Some(q) => {
            assert(inner =~= inner.take(q) + seq!['*'] + inner.skip(q + 1));
        },
        None => {
            assert(inner + Seq::<char>::empty() =~= inner);
        },
    }
}

/// The reading a decimal quantity yields, or the error for its line: the
/// reading holds the literal, which must be a floating-point literal.
pub open spec fn decimal_reading(
    line: Seq<char>,
    value: Seq<char>,
    kind: spec_fn(Seq<char>) -> ReadingModel,
) -> Result<ReadingModel, ParseErrorModel> {
    if is_float_literal(value) {
        Ok(kind(value))
    } else {
        Err(ParseErrorModel::MalformedLine(line))
    }
}

/// The reading a hexadecimal counter yields, or the error for its line.
pub open spec fn hex_reading(line: Seq<char>, value: Seq<char>, kind: spec_fn(u32) -> ReadingModel) -> Result<
    ReadingModel,
    ParseErrorModel,
> {
    match parse_hex_spec(value) {
        Some(v) => Ok(kind(v)),
        None => Err(ParseErrorModel::MalformedLine(line)),
    }
}

/// The reading of one trimmed data line.
pub open spec fn reading_spec(line: Seq<char>) -> Result<ReadingModel, ParseErrorModel> {
    match split_reading_parts_spec(line) {
        None => Err(ParseErrorModel::MalformedLine(line)),
        Some((code, value, unit)) => {
            if code == "1-0:0.0.0*255"@ {
                Ok(ReadingModel::MeterId(value))
            } else if code == "1-0:96.1.0*255"@ {
                Ok(ReadingModel::SerialNumber(value))
            } else if code == "1-0:1.8.0*255"@ {
                decimal_reading(line, value, |v| ReadingModel::EnergyImport(v))
            } else if code == "1-0:2.8.0*255"@ {
                decimal_reading(line, value, |v| ReadingModel::EnergyExport(v))
            } else if code == "1-0:16.7.0*255"@ {
                decimal_reading(line, value, |v| ReadingModel::PowerTotal(v))
            } else if code == "1-0:36.7.0*255"@ {
                decimal_reading(line, value, |v| ReadingModel::PowerL1(v))
            } else if code == "1-0:56.7.0*255"@ {
                decimal_reading(line, value, |v| ReadingModel::PowerL2(v))
            } else if code == "1-0:76.7.0*255"@ {
                decimal_reading(line, value, |v| ReadingModel::PowerL3(v))
            } else if code == "1-0:96.5.0*255"@ {
                hex_reading(line, value, |v| ReadingModel::StatusFlags(v))
            } else if code == "0-0:96.8.0*255"@ {
                hex_reading(line, value, |v| ReadingModel::OperatingTime(v))
            } else {
                Ok(ReadingModel::Unknown { code, value, unit })
            }
        },
    }
}


/// Where the parts of the data line `chars[from..to]` lie: the position of
/// its first `(` and, if the value has a unit, the position of the first `*`
/// inside the parentheses.
fn split_reading_parts(chars: &Vec<char>, from: usize, to: usize) -> (r: Option<(usize, Option<usize>)>)
    requires
        from <= to <= chars@.len(),
    ensures
        ({
            let line = chars@.subrange(from as int, to as int);
            match r {
                None => split_reading_parts_spec(line) is None,
                Some((p, q)) => {
                    &&& from <= p < to
                    &&& to >= 1
                    &&& p + 1 <= to - 1
                    &&& match q {
                        None => split_reading_parts_spec(line) == Some(
                            (
                                chars@.subrange(from as int, p as int),
                                chars@.subrange(p + 1, to - 1),
                                None::<Seq<char>>,
                            ),
                        ),
                        Some(q) => {
                            &&& p + 1 <= q < to - 1
                            &&& split_reading_parts_spec(line) == Some(
                                (
                                    chars@.subrange(from as int, p as int),
                                    chars@.subrange(p + 1, q as int),
                                    Some(chars@.subrange(q + 1, to - 1)),
                                ),
                            )
                        },
                    }
                },
            }
        }),
{
    let ghost line = chars@.subrange(from as int, to as int);
    let open = match find_char_in(chars, from, to, '(') {
        None => return None,
        Some(k) => from + k,
    };
    let ghost rest = line.skip(open - from + 1);
    assert(rest =~= chars@.subrange(open + 1, to as int));
    if !(open + 1 < to && chars[to - 1] == ')') {
        return None;
    }
    let close = to - 1;
    let ghost inner = rest.drop_last();
    assert(inner =~= chars@.subrange(open + 1, close as int));
    assert(line.take(open - from) =~= chars@.subrange(from as int, open as int));
    match find_char_in(chars, open + 1, close, '*') {
        None => Some((open, None)),
        Some(k) => {
            let star = open + 1 + k;
            assert(inner.take(k as int) =~= chars@.subrange(open + 1, star as int));
            assert(inner.skip(k + 1) =~= chars@.subrange(star + 1, close as int));
            Some((open, Some(star)))
        },
    }
}

/// The error for the malformed data line `chars[from..to]`.
fn malformed_line(chars: &Vec<char>, from: usize, to: usize) -> (e: ParseError)
    requires
        from <= to <= chars@.len(),
    ensures
        e@ == ParseErrorModel::MalformedLine(chars@.subrange(from as int, to as int)),
{
    ParseError::MalformedLine(string_of(chars, from, to))
}

/// `value_text` accepts every floating-point literal.
pub open spec fn accepts_literals<F: Fn(&str) -> String>(value_text: F) -> bool {
    forall|a: &str| is_float_literal(a@) ==> #[trigger] value_text.requires((a,))
}

/// `v` is a text that `value_text` gives for the literal `lit`.
pub open spec fn gives_value_text<F: Fn(&str) -> String>(
    value_text: F,
    lit: Seq<char>,
    v: Seq<char>,
) -> bool {
    exists|a: &str, r: String|
        #![trigger value_text.ensures((a,), r)]
        a@ == lit && r@ == v && value_text.ensures((a,), r)
}

/// The text of the decimal value in `chars[vfrom..vto]`, as `value_text`
/// gives it for the literal, or the error for the line `chars[from..to]` when
/// the value is not a floating-point literal.
fn parse_decimal_value<F: Fn(&str) -> String>(
    chars: &Vec<char>,
    from: usize,
    to: usize,
    vfrom: usize,
    vto: usize,
    value_text: &F,
) -> (r: Result<String, ParseError>)
    requires
        from <= to <= chars@.len(),
        vfrom <= vto <= chars@.len(),
        accepts_literals(*value_text),
    ensures
        match r {
            Ok(v) => is_float_literal(chars@.subrange(vfrom as int, vto as int))
                && gives_value_text(*value_text, chars@.subrange(vfrom as int, vto as int), v@),
            Err(e) => !is_float_literal(chars@.subrange(vfrom as int, vto as int))
                && e@ == ParseErrorModel::MalformedLine(chars@.subrange(from as int, to as int)),
        },
{
    if float_literal(chars, vfrom, vto) {
        let literal = string_of(chars, vfrom, vto);
        let a = literal.as_str();
        let v = value_text(a);
        assert(value_text.ensures((a,), v));
        Ok(v)
    } else {
        Err(malformed_line(chars, from, to))
    }
}

/// The hexadecimal value in `chars[vfrom..vto]`, or the error for the line
/// `chars[from..to]` when it is not a base-16 `u32`.
fn parse_hex_value(chars: &Vec<char>, from: usize, to: usize, vfrom: usize, vto: usize) -> (r:
    Result<u32, ParseError>)
    requires
        from <= to <= chars@.len(),
        vfrom <= vto <= chars@.len(),
    ensures
        match r {
            Ok(v) => parse_hex_spec(chars@.subrange(vfrom as int, vto as int)) == Some(v),
            Err(e) => parse_hex_spec(chars@.subrange(vfrom as int, vto as int)) is None
                && e@ == ParseErrorModel::MalformedLine(chars@.subrange(from as int, to as int)),
        },
{
    match parse_hex(chars, vfrom, vto) {
        Some(v) => Ok(v),
        None => Err(malformed_line(chars, from, to)),
    }
}

/// The reading `r` is the reading `m` of a line, with a decimal literal
/// replaced by a text that `value_text` gives for it.
pub open spec fn reading_with_value<F: Fn(&str) -> String>(
    value_text: F,
    m: ReadingModel,
    r: ReadingModel,
) -> bool {
    match m {
        ReadingModel::EnergyImport(l) => r matches ReadingModel::EnergyImport(v)
            && gives_value_text(value_text, l, v),
        ReadingModel::EnergyExport(l) => r matches ReadingModel::EnergyExport(v)
            && gives_value_text(value_text, l, v),
        ReadingModel::PowerTotal(l) => r matches ReadingModel::PowerTotal(v) && gives_value_text(
            value_text,
            l,
            v,
        ),
        ReadingModel::PowerL1(l) => r matches ReadingModel::PowerL1(v) && gives_value_text(
            value_text,
            l,
            v,
        ),
        ReadingModel::PowerL2(l) => r matches ReadingModel::PowerL2(v) && gives_value_text(
            value_text,
            l,
            v,
        ),
        ReadingModel::PowerL3(l) => r matches ReadingModel::PowerL3(v) && gives_value_text(
            value_text,
            l,
            v,
        ),
        _ => r == m,
    }
}

/// The outcome `r` of parsing a line is what `spec` says, with the decimal
/// literal of a reading replaced by a text that `value_text` gives for it.
pub open spec fn reading_outcome<F: Fn(&str) -> String>(
    value_text: F,
    spec: Result<ReadingModel, ParseErrorModel>,
    r: Result<Reading, ParseError>,
) -> bool {
    match spec {
        Ok(m) => r matches Ok(x) && reading_with_value(value_text, m, x@),
        Err(e) => r matches Err(err) && err@ == e,
    }
}

/// The reading of the trimmed data line `chars[from..to]`.
fn parse_reading<F: Fn(&str) -> String>(
    chars: &Vec<char>,
    from: usize,
    to: usize,
    value_text: &F,
) -> (r: Result<Reading, ParseError>)
    requires
        from <= to <= chars@.len(),
        accepts_literals(*value_text),
    ensures
        reading_outcome(*value_text, reading_spec(chars@.subrange(from as int, to as int)), r),
{
    let (open, star) = match split_reading_parts(chars, from, to) {
        None => return Err(malformed_line(chars, from, to)),
        Some(parts) => parts,
    };
    let close = to - 1;
    let vend = match star {
        Some(q) => q,
        None => close,
    };
    let vstart = open + 1;
    if chars_equal_str(chars, from, open, "1-0:0.0.0*255") {
        Ok(Reading::MeterId(string_of(chars, vstart, vend)))
    } else if chars_equal_str(chars, from, open, "1-0:96.1.0*255") {
        Ok(Reading::SerialNumber(string_of(chars, vstart, vend)))
    } else if chars_equal_str(chars, from, open, "1-0:1.8.0*255") {
        Ok(Reading::EnergyImport(parse_decimal_value(chars, from, to, vstart, vend, value_text)?))
    } else if chars_equal_str(chars, from, open, "1-0:2.8.0*255") {
        Ok(Reading::EnergyExport(parse_decimal_value(chars, from, to, vstart, vend, value_text)?))
    } else if chars_equal_str(chars, from, open, "1-0:16.7.0*255") {
        Ok(Reading::PowerTotal(parse_decimal_value(chars, from, to, vstart, vend, value_text)?))
    } else if chars_equal_str(chars, from, open, "1-0:36.7.0*255") {
        Ok(Reading::PowerL1(parse_decimal_value(chars, from, to, vstart, vend, value_text)?))
    } else if chars_equal_str(chars, from, open, "1-0:56.7.0*255") {
        Ok(Reading::PowerL2(parse_decimal_value(chars, from, to, vstart, vend, value_text)?))
    } else if chars_equal_str(chars, from, open, "1-0:76.7.0*255") {
        Ok(Reading::PowerL3(parse_decimal_value(chars, from, to, vstart, vend, value_text)?))
    } else if chars_equal_str(chars, from, open, "1-0:96.5.0*255") {
        Ok(Reading::StatusFlags(parse_hex_value(chars, from, to, vstart, vend)?))
    } else if chars_equal_str(chars, from, open, "0-0:96.8.0*255") {
        Ok(Reading::OperatingTime(parse_hex_value(chars, from, to, vstart, vend)?))
    } else {
        let unit = match star {
            Some(q) => Some(string_of(chars, q + 1, close)),
            None => None,
        };
        Ok(
            Reading::Unknown {
                code: string_of(chars, from, open),
                value: string_of(chars, vstart, vend),
                unit,
            },
        )
    }
}


/// The device id of an identification line `/XXXX`: the text after the
/// slash, trimmed.
pub open spec fn header_device_id(header: Seq<char>) -> Option<Seq<char>> {
    if header.len() > 0 && header[0] == '/' {
        Some(trim(header.drop_first()))
    } else {
        None
    }
}

/// What a line after the identification line contributes: nothing when it is
/// blank or starts with `!` once trimmed, else the reading of the trimmed
/// line or the error for it.
pub open spec fn line_reading(line: Seq<char>) -> Option<Result<ReadingModel, ParseErrorModel>> {
    let t = trim(line);
    if t.len() == 0 || t[0] == '!' {
        None
    } else {
        Some(reading_spec(t))
    }
}

/// The readings of the data lines, in order, or the error of the first line
/// that is malformed.
pub open spec fn readings_spec(lines: Seq<Seq<char>>) -> Result<Seq<ReadingModel>, ParseErrorModel>
    decreases lines.len(),
{
    if lines.len() == 0 {
        Ok(Seq::empty())
    } else {
        match line_reading(lines[0]) {
            None => readings_spec(lines.drop_first()),
            Some(Err(e)) => Err(e),
            Some(Ok(r)) => match readings_spec(lines.drop_first()) {
                Ok(rs) => Ok(seq![r] + rs),
                Err(e) => Err(e),
            },
        }
    }
}

/// The telegram that `text` holds: its first line must be the identification
/// line, and every other line is a data line, blank, or starts with `!`.
pub open spec fn parse_text_spec(text: Seq<char>) -> Result<TelegramModel, ParseErrorModel> {
    let lines = text_lines(text);
    if lines.len() == 0 {
        Err(ParseErrorModel::MissingHeader)
    } else {
        match header_device_id(lines[0]) {
            None => Err(ParseErrorModel::MissingHeader),
            Some(id) => match readings_spec(lines.drop_first()) {
                Ok(rs) => Ok(TelegramModel { device_id: id, readings: rs }),
                Err(e) => Err(e),
            },
        }
    }
}

/// The telegram that the bytes `data` hold, which must be UTF-8.
pub open spec fn parse_telegram_spec(data: Seq<u8>) -> Result<TelegramModel, ParseErrorModel> {
    if valid_utf8(data) {
        parse_text_spec(decode_utf8(data))
    } else {
        Err(ParseErrorModel::InvalidUtf8)
    }
}

/// Prepends readings already found to the outcome for the remaining lines.
pub open spec fn prepend_readings(
    found: Seq<ReadingModel>,
    rest: Result<Seq<ReadingModel>, ParseErrorModel>,
) -> Result<Seq<ReadingModel>, ParseErrorModel> {
    match rest {
        Ok(rs) => Ok(found + rs),
        Err(e) => Err(e),
    }
}

/// The device id of the identification line `chars[from..to]`.
fn parse_device_id(chars: &Vec<char>, from: usize, to: usize) -> (r: Result<String, ParseError>)
    requires
        from <= to <= chars@.len(),
    ensures
        match header_device_id(chars@.subrange(from as int, to as int)) {
            Some(id) => r matches Ok(d) && d@ == id,
            None => r matches Err(e) && e@ == ParseErrorModel::MissingHeader,
        },
{
    if !(from < to && chars[from] == '/') {
        return Err(ParseError::MissingHeader);
    }
    let (d0, d1) = trim_bounds(chars, from + 1, to);
    assert(chars@.subrange(from as int, to as int).drop_first() =~= chars@.subrange(
        from + 1,
        to as int,
    ));
    Ok(string_of(chars, d0, d1))
}

/// Calls `std::str::from_utf8`, which succeeds exactly on valid UTF-8 and
/// then views the same bytes as a string slice.
#[verifier::external_body]
fn str_from_utf8(data: &[u8]) -> (r: Option<&str>)
    ensures
        r is Some <==> valid_utf8(data@),
        r matches Some(s) ==> s.spec_bytes() == data@,
{
    std::str::from_utf8(data).ok()
}

/// The telegram `t` is the telegram `m`, with each decimal literal replaced
/// by a text that `value_text` gives for it.
pub open spec fn telegram_with_values<F: Fn(&str) -> String>(
    value_text: F,
    m: TelegramModel,
    t: TelegramModel,
) -> bool {
    &&& t.device_id == m.device_id
    &&& t.readings.len() == m.readings.len()
    &&& forall|i: int|
        0 <= i < m.readings.len() ==> #[trigger] reading_with_value(
            value_text,
            m.readings[i],
            t.readings[i],
        )
}

/// The outcome `r` of parsing is what `spec` says, with each decimal literal
/// replaced by a text that `value_text` gives for it.
pub open spec fn parse_outcome<F: Fn(&str) -> String>(
    value_text: F,
    spec: Result<TelegramModel, ParseErrorModel>,
    r: Result<Telegram, ParseError>,
) -> bool {
    match spec {
        Ok(m) => r matches Ok(t) && telegram_with_values(value_text, m, t@),
        Err(e) => r matches Err(err) && err@ == e,
    }
}

/// Parses the text of a telegram; `value_text` gives the text of the value
/// of each decimal literal.
pub fn parse_telegram_text<F: Fn(&str) -> String>(text: &str, value_text: &F) -> (r: Result<
    Telegram,
    ParseError,
>)
    requires
        accepts_literals(*value_text),
    ensures
        parse_outcome(*value_text, parse_text_spec(text@), r),
{
    let chars = chars_of(text);
    let bounds = line_bounds(&chars);
    let ghost lines = text_lines(chars@);
    assert(lines == pieces(chars@, bounds@));
    if bounds.len() == 0 {
        return Err(ParseError::MissingHeader);
    }
    let (h0, h1) = bounds[0];
    assert(lines[0] == chars@.subrange(h0 as int, h1 as int));
    let device_id = parse_device_id(&chars, h0, h1)?;
    let mut readings: Vec<Reading> = Vec::new();
    let ghost mut found: Seq<ReadingModel> = Seq::empty();
    let mut k: usize = 1;
    assert(lines.drop_first() =~= lines.subrange(1, lines.len() as int));
    assert(found + readings_spec(lines.drop_first())->Ok_0 =~= readings_spec(
        lines.drop_first(),
    )->Ok_0);
    while k < bounds.len()
        invariant
            1 <= k <= bounds@.len(),
            lines == pieces(chars@, bounds@),
            lines == text_lines(text@),
            lines.len() > 0,
            header_device_id(lines[0]) == Some(device_id@),
            accepts_literals(*value_text),
            forall|j: int| 0 <= j < bounds@.len() ==> #[trigger] bounds@[j].0 <= bounds@[j].1 <= chars@.len(),
            readings_spec(lines.drop_first()) == prepend_readings(
                found,
                readings_spec(lines.subrange(k as int, lines.len() as int)),
            ),
            found.len() == readings@.len(),
            forall|j: int|
                0 <= j < found.len() ==> #[trigger] reading_with_value(
                    *value_text,
                    found[j],
                    readings@[j]@,
                ),
        decreases bounds.len() - k,
    {
        let (l0, l1) = bounds[k];
        let ghost rest = lines.subrange(k as int, lines.len() as int);
        assert(rest[0] == chars@.subrange(l0 as int, l1 as int));
        assert(rest.drop_first() =~= lines.subrange(k + 1, lines.len() as int));
        let (t0, t1) = trim_bounds(&chars, l0, l1);
        if t0 == t1 || chars[t0] == '!' {
            k = k + 1;
        } else {
            assert(chars@.subrange(t0 as int, t1 as int)[0] == chars@[t0 as int]);
            assert(line_reading(rest[0]) == Some(
                reading_spec(chars@.subrange(t0 as int, t1 as int)),
            ));
            match parse_reading(&chars, t0, t1, value_text) {
                Ok(reading) => {
                    let ghost m = reading_spec(chars@.subrange(t0 as int, t1 as int))->Ok_0;
                    let ghost before = found;
                    readings.push(reading);
                    proof {
                        found = found.push(m);
                    }
                    assert(before.push(m) + readings_spec(rest.drop_first())->Ok_0 =~= before + (
                    seq![m] + readings_spec(rest.drop_first())->Ok_0));
                    assert forall|j: int| 0 <= j < found.len() implies #[trigger] reading_with_value(
                        *value_text,
                        found[j],
                        readings@[j]@,
                    ) by {
                        if j < before.len() {
                            assert(found[j] == before[j]);
                        }
                    }
                    k = k + 1;
                },
                Err(e) => {
                    assert(readings_spec(rest) == Err::<Seq<ReadingModel>, ParseErrorModel>(e@));
                    return Err(e);
                },
            }
        }
    }
    assert(lines.subrange(k as int, lines.len() as int) =~= Seq::<Seq<char>>::empty());
    assert(found + Seq::<ReadingModel>::empty() =~= found);
    let t = Telegram { device_id, readings };
    assert(t@.readings.len() == found.len());
    assert forall|i: int| 0 <= i < found.len() implies #[trigger] reading_with_value(
        *value_text,
        found[i],
        t@.readings[i],
    ) by {
        assert(t@.readings[i] == t.readings@[i]@);
    }
    Ok(t)
}

/// Parses a raw telegram as read from the meter. The value of each decimal
/// quantity is held as the text that `value_text` gives for its literal,
/// which the parser has checked to be a floating-point literal.
pub fn parse_telegram<F: Fn(&str) -> String>(data: &[u8], value_text: &F) -> (r: Result<
    Telegram,
    ParseError,
>)
    requires
        accepts_literals(*value_text),
    ensures
        parse_outcome(*value_text, parse_telegram_spec(data@), r),
{
    match str_from_utf8(data) {
        None => Err(ParseError::InvalidUtf8),
        Some(text) => {
            proof {
                encode_utf8_decode_utf8(text@);
            }
            parse_telegram_text(text, value_text)
        },
    }
}


/// The value of the first `MeterId` reading, if there is one.
pub open spec fn first_meter_id(rs: Seq<ReadingModel>) -> Option<Seq<char>>
    decreases rs.len(),
{
    if rs.len() == 0 {
        None
    } else {
        match rs[0] {
            ReadingModel::MeterId(v) => Some(v),
            _ => first_meter_id(rs.drop_first()),
        }
    }
}

/// Putting value texts in place of decimal literals keeps the meter id.
pub proof fn lemma_values_keep_meter_id<F: Fn(&str) -> String>(
    value_text: F,
    m: Seq<ReadingModel>,
    t: Seq<ReadingModel>,
)
    requires
        m.len() == t.len(),
        forall|i: int| 0 <= i < m.len() ==> #[trigger] reading_with_value(value_text, m[i], t[i]),
    ensures
        first_meter_id(t) == first_meter_id(m),
    decreases m.len(),
{
    if m.len() > 0 {
        assert(reading_with_value(value_text, m[0], t[0]));
        assert forall|i: int| 0 <= i < m.drop_first().len() implies #[trigger] reading_with_value(
            value_text,
            m.drop_first()[i],
            t.drop_first()[i],
        ) by {
            assert(reading_with_value(value_text, m[i + 1], t[i + 1]));
        }
        lemma_values_keep_meter_id(value_text, m.drop_first(), t.drop_first());
    }
}

impl Telegram {
    /// The meter id that the telegram reports, from its first `MeterId`
    /// reading.
    pub fn meter_id(&self) -> (r: Option<&str>)
        ensures
            match r {
                Some(id) => first_meter_id(self@.readings) == Some(id@),
                None => first_meter_id(self@.readings) is None,
            },
    {
        let ghost rs = self@.readings;
        assert(rs.skip(0) =~= rs);
        let mut i: usize = 0;
        while i < self.readings.len()
            invariant
                i <= self.readings@.len(),
                rs == readings_view(self.readings@),
                first_meter_id(rs) == first_meter_id(rs.skip(i as int)),
            decreases self.readings.len() - i,
        {
            assert(rs.skip(i as int)[0] == self.readings@[i as int]@);
            assert(rs.skip(i as int).drop_first() =~= rs.skip(i + 1));
            match &self.readings[i] {
                Reading::MeterId(value) => {
                    return Some(value.as_str());
                },
                _ => {},
            }
            i = i + 1;
        }
        assert(rs.skip(i as int).len() == 0);
        None
    }
}

/// How a reading is shown in the log.
pub open spec fn describe_spec(r: ReadingModel) -> Seq<char> {
    match r {
        ReadingModel::MeterId(v) => "Meter ID (0.0.0) = "@ + v,
        ReadingModel::SerialNumber(v) => "Serial Number (96.1.0) = "@ + v,
        ReadingModel::EnergyImport(v) => "Energy Import (1.8.0) = "@ + v + " kWh"@,
        ReadingModel::EnergyExport(v) => "Energy Export (2.8.0) = "@ + v + " kWh"@,
        ReadingModel::PowerTotal(v) => "Power Total (16.7.0) = "@ + v + " W"@,
        ReadingModel::PowerL1(v) => "Power L1 (36.7.0) = "@ + v + " W"@,
        ReadingModel::PowerL2(v) => "Power L2 (56.7.0) = "@ + v + " W"@,
        ReadingModel::PowerL3(v) => "Power L3 (76.7.0) = "@ + v + " W"@,
        ReadingModel::StatusFlags(v) => "Status Flags (96.5.0) = 0x"@ + hex_text(v as nat, 8),
        ReadingModel::OperatingTime(v) => "Operating Time (96.8.0) = "@ + decimal_text(v as nat)
            + " s"@,
        ReadingModel::Unknown { code, value, unit } => match unit {
            Some(u) => code + " = "@ + value + " "@ + u,
            None => code + " = "@ + value,
        },
    }
}

/// `prefix` followed by `value`.
fn prefixed(prefix: &str, value: &str) -> (s: String)
    ensures
        s@ == prefix@ + value@,
{
    let mut s = String::from_str(prefix);
    s.append(value);
    s
}

/// `prefix` followed by `value` and `suffix`.
fn framed(prefix: &str, value: &str, suffix: &str) -> (s: String)
    ensures
        s@ == prefix@ + value@ + suffix@,
{
    let mut s = String::from_str(prefix);
    s.append(value);
    s.append(suffix);
    s
}

impl Reading {
    /// The reading as a log line, e.g. `Power L2 (56.7.0) = 15.64 W`.
    pub fn describe(&self) -> (s: String)
        ensures
            s@ == describe_spec(self@),
    {
        match self {
            Reading::MeterId(v) => prefixed("Meter ID (0.0.0) = ", v.as_str()),
            Reading::SerialNumber(v) => prefixed("Serial Number (96.1.0) = ", v.as_str()),
            Reading::EnergyImport(v) => framed("Energy Import (1.8.0) = ", v.as_str(), " kWh"),
            Reading::EnergyExport(v) => framed("Energy Export (2.8.0) = ", v.as_str(), " kWh"),
            Reading::PowerTotal(v) => framed("Power Total (16.7.0) = ", v.as_str(), " W"),
            Reading::PowerL1(v) => framed("Power L1 (36.7.0) = ", v.as_str(), " W"),
            Reading::PowerL2(v) => framed("Power L2 (56.7.0) = ", v.as_str(), " W"),
            Reading::PowerL3(v) => framed("Power L3 (76.7.0) = ", v.as_str(), " W"),
            Reading::StatusFlags(v) => {
                let mut s = String::from_str("Status Flags (96.5.0) = 0x");
                push_hex(&mut s, *v, 8);
                s
            },
            Reading::OperatingTime(v) => {
                let mut s = String::from_str("Operating Time (96.8.0) = ");
                push_decimal(&mut s, *v);
                s.append(" s");
                s
            },
            Reading::Unknown { code, value, unit } => {
                let mut s = framed(code.as_str(), " = ", value.as_str());
                match unit {
                    Some(u) => {
                        s.append(" ");
                        s.append(u.as_str());
                    },
                    None => {},
                }
                s
            },
        }
    }
}

/// The Rust debug rendering of a string: quoted, with escapes.
pub uninterp spec fn debug_string(s: Seq<char>) -> Seq<char>;

/// Formats `s` with `{:?}`, the `Debug` implementation of `str`; the result
/// is named `debug_string`.
#[verifier::external_body]
fn debug_quoted(s: &str) -> (r: String)
    ensures
        r@ == debug_string(s@),
{
    format!("{:?}", s)
}

/// The message of a parse error.
pub open spec fn parse_error_message_spec(e: ParseErrorModel) -> Seq<char> {
    match e {
        ParseErrorModel::InvalidUtf8 => "invalid UTF-8 in telegram"@,
        ParseErrorModel::MissingHeader => "telegram does not start with '/'"@,
        ParseErrorModel::MalformedLine(l) => "malformed data line: "@ + debug_string(l),
    }
}

impl ParseError {
    /// The error as a message, e.g. `telegram does not start with '/'`.
    pub fn message(&self) -> (s: String)
        ensures
            s@ == parse_error_message_spec(self@),
    {
        match self {
            ParseError::InvalidUtf8 => String::from_str("invalid UTF-8 in telegram"),
            ParseError::MissingHeader => String::from_str("telegram does not start with '/'"),
            ParseError::MalformedLine(l) => {
                let q = debug_quoted(l.as_str());
                prefixed("malformed data line: ", q.as_str())
            },
        }
    }
}


/// A line that starts with `!` once trimmed (the end marker, with or
/// without a checksum behind it) adds nothing to the readings, wherever it
/// stands.
pub proof fn lemma_end_marker_line_ignored(before: Seq<Seq<char>>, marker: Seq<char>, after: Seq<Seq<char>>)
    requires
        trim(marker).len() > 0,
        trim(marker)[0] == '!',
    ensures
        readings_spec(before + seq![marker] + after) == readings_spec(before + after),
    decreases before.len(),
{
    if before.len() == 0 {
        assert(before + seq![marker] + after =~= seq![marker] + after);
        assert((seq![marker] + after).drop_first() =~= after);
        assert(before + after =~= after);
    } else {
        lemma_end_marker_line_ignored(before.drop_first(), marker, after);
        assert((before + seq![marker] + after).drop_first() =~= before.drop_first() + seq![marker]
            + after);
        assert((before + after).drop_first() =~= before.drop_first() + after);
        assert((before + seq![marker] + after)[0] == before[0]);
        assert((before + after)[0] == before[0]);
    }
}

} // verus!
