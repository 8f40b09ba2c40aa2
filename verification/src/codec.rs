//! Wire protocol: span identifiers, durations, the framed binary command
//! stream and the fixed-size hello block.

use vstd::prelude::*;

verus! {

/// Composite span identifier: a stable definition id and one activation.
/// `id = 0` is reserved for the synthetic root span.
#[derive(Clone, Copy, Debug, PartialEq, Eq, Structural)]
pub struct SpanId {
    pub id: u32,
    pub instance: u32,
}

/// A duration as carried on the wire: whole seconds and nanoseconds.
#[derive(Clone, Copy, Debug, PartialEq, Eq, Structural)]
pub struct Duration {
    pub seconds: u32,
    pub nano_seconds: u32,
}

/// Total nanoseconds of a wire duration.
pub open spec fn duration_ns(d: Duration) -> int {
    d.seconds as int * 1_000_000_000 + d.nano_seconds as int
}

impl Duration {
    /// Converts to total nanoseconds.
    pub fn as_nanos(&self) -> (r: u64)
        ensures
            r as int == duration_ns(*self),
    {
        self.seconds as u64 * 1_000_000_000 + self.nano_seconds as u64
    }
}

/// The value of four little-endian bytes.
pub open spec fn le32(s: Seq<u8>, pos: int) -> u32 {
    (s[pos] as int + s[pos + 1] as int * 0x100 + s[pos + 2] as int * 0x1_0000 + s[pos + 3] as int
        * 0x100_0000) as u32
}

/// The value of eight little-endian bytes.
pub open spec fn le64(s: Seq<u8>, pos: int) -> u64 {
    (s[pos] as int + s[pos + 1] as int * 0x100 + s[pos + 2] as int * 0x1_0000 + s[pos + 3] as int
        * 0x100_0000 + s[pos + 4] as int * 0x1_0000_0000 + s[pos + 5] as int * 0x100_0000_0000 + s[
        pos + 6] as int * 0x1_0000_0000_0000 + s[pos + 7] as int * 0x100_0000_0000_0000) as u64
}

/// Parses a little-endian `u32`.
pub open spec fn parse_u32(s: Seq<u8>, pos: int) -> Option<(u32, int)> {
    if 0 <= pos && pos + 4 <= s.len() {
        Some((le32(s, pos), pos + 4))
    } else {
        None
    }
}

/// Parses a little-endian `u64`.
pub open spec fn parse_u64(s: Seq<u8>, pos: int) -> Option<(u64, int)> {
    if 0 <= pos && pos + 8 <= s.len() {
        Some((le64(s, pos), pos + 8))
    } else {
        None
    }
}

/// Parses a little-endian `i64`, two's complement.
pub open spec fn parse_i64(s: Seq<u8>, pos: int) -> Option<(i64, int)> {
    match parse_u64(s, pos) {
        Some((v, p)) => Some((v as i64, p)),
        None => None,
    }
}

/// Parses one byte as a boolean: `0` or `1`, anything else is an error.
pub open spec fn parse_bool(s: Seq<u8>, pos: int) -> Option<(bool, int)> {
    if 0 <= pos && pos + 1 <= s.len() {
        if s[pos] == 0 {
            Some((false, pos + 1))
        } else if s[pos] == 1 {
            Some((true, pos + 1))
        } else {
            None
        }
    } else {
        None
    }
}

/// Parses a length-prefixed UTF-8 string: a little-endian `u64` byte count
/// followed by that many bytes of valid UTF-8.
pub open spec fn parse_string(s: Seq<u8>, pos: int) -> Option<(Seq<char>, int)> {
    match parse_u64(s, pos) {
        Some((len, p)) => {
            if p + len <= s.len() && vstd::utf8::valid_utf8(s.subrange(p, p + len)) {
                Some((vstd::utf8::decode_utf8(s.subrange(p, p + len)), p + len as int))
            } else {
                None
            }
        },
        None => None,
    }
}

/// Reads a little-endian `u32` at a position.
pub fn read_u32(buf: &Vec<u8>, pos: usize) -> (r: Option<(u32, usize)>)
    ensures
        match r {
            Some(vp) => parse_u32(buf@, pos as int) == Some((vp.0, vp.1 as int)),
            None => parse_u32(buf@, pos as int) is None,
        },
{
    if pos <= buf.len() && buf.len() - pos >= 4 {
        let b0 = buf[pos] as u32;
        let b1 = buf[pos + 1] as u32;
        let b2 = buf[pos + 2] as u32;
        let b3 = buf[pos + 3] as u32;
        let v = b0 + b1 * 0x100 + b2 * 0x1_0000 + b3 * 0x100_0000;
        Some((v, pos + 4))
    } else {
        None
    }
}

/// Reads a little-endian `u64` at a position.
pub fn read_u64(buf: &Vec<u8>, pos: usize) -> (r: Option<(u64, usize)>)
    ensures
        match r {
            Some(vp) => parse_u64(buf@, pos as int) == Some((vp.0, vp.1 as int)),
            None => parse_u64(buf@, pos as int) is None,
        },
{
    if pos <= buf.len() && buf.len() - pos >= 8 {
        let b0 = buf[pos] as u64;
        let b1 = buf[pos + 1] as u64;
        let b2 = buf[pos + 2] as u64;
        let b3 = buf[pos + 3] as u64;
        let b4 = buf[pos + 4] as u64;
        let b5 = buf[pos + 5] as u64;
        let b6 = buf[pos + 6] as u64;
        let b7 = buf[pos + 7] as u64;
        let v = b0 + b1 * 0x100 + b2 * 0x1_0000 + b3 * 0x100_0000 + b4 * 0x1_0000_0000 + b5
            * 0x100_0000_0000 + b6 * 0x1_0000_0000_0000 + b7 * 0x100_0000_0000_0000;
        Some((v, pos + 8))
    } else {
        None
    }
}

/// Reads a little-endian two's complement `i64` at a position.
pub fn read_i64(buf: &Vec<u8>, pos: usize) -> (r: Option<(i64, usize)>)
    ensures
        match r {
            Some(vp) => parse_i64(buf@, pos as int) == Some((vp.0, vp.1 as int)),
            None => parse_i64(buf@, pos as int) is None,
        },
{
    match read_u64(buf, pos) {
        Some((v, p)) => Some((v as i64, p)),
        None => None,
    }
}

/// Reads one boolean byte at a position.
pub fn read_bool(buf: &Vec<u8>, pos: usize) -> (r: Option<(bool, usize)>)
    ensures
        match r {
            Some(vp) => parse_bool(buf@, pos as int) == Some((vp.0, vp.1 as int)),
            None => parse_bool(buf@, pos as int) is None,
        },
{
    if pos < buf.len() {
        let b = buf[pos];
        if b == 0 {
            Some((false, pos + 1))
        } else if b == 1 {
            Some((true, pos + 1))
        } else {
            None
        }
    } else {
        None
    }
}

/// Reads a length-prefixed UTF-8 string at a position.
pub fn read_string(buf: &Vec<u8>, pos: usize) -> (r: Option<(String, usize)>)
    ensures
        match r {
            Some(vp) => parse_string(buf@, pos as int) == Some((vp.0@, vp.1 as int)),
            None => parse_string(buf@, pos as int) is None,
        },
{
    match read_u64(buf, pos) {
        Some((len, p)) => {
            if len <= (buf.len() - p) as u64 {
                let end = p + len as usize;
                let mut bytes: Vec<u8> = Vec::new();
                let mut i = p;
                while i < end
                    invariant
                        p <= i <= end <= buf@.len(),
                        bytes@ == buf@.subrange(p as int, i as int),
                    decreases end - i,
                {
                    bytes.push(buf[i]);
                    proof {
                        assert(bytes@ =~= buf@.subrange(p as int, i as int + 1));
                    }
                    i += 1;
                }
                match crate::util::string_from_utf8(bytes) {
                    Some(st) => Some((st, end)),
                    None => None,
                }
            } else {
                None
            }
        },
        None => None,
    }
}

/// Parses an optional string: a presence byte, then the string.
pub open spec fn parse_opt_string(s: Seq<u8>, pos: int) -> Option<(Option<Seq<char>>, int)> {
    match parse_bool(s, pos) {
        Some((present, p)) => {
            if present {
                match parse_string(s, p) {
                    Some((v, p2)) => Some((Some(v), p2)),
                    None => None,
                }
            } else {
                Some((None, p))
            }
        },
        None => None,
    }
}

/// Parses an optional `u32`: a presence byte, then the value.
pub open spec fn parse_opt_u32(s: Seq<u8>, pos: int) -> Option<(Option<u32>, int)> {
    match parse_bool(s, pos) {
        Some((present, p)) => {
            if present {
                match parse_u32(s, p) {
                    Some((v, p2)) => Some((Some(v), p2)),
                    None => None,
                }
            } else {
                Some((None, p))
            }
        },
        None => None,
    }
}

/// Parses a span id: definition id, then instance id.
pub open spec fn parse_span_id(s: Seq<u8>, pos: int) -> Option<(SpanId, int)> {
    match parse_u32(s, pos) {
        Some((id, p)) => match parse_u32(s, p) {
            Some((instance, p2)) => Some((SpanId { id, instance }, p2)),
            None => None,
        },
        None => None,
    }
}

/// Parses an optional span id: a presence byte, then the id.
pub open spec fn parse_opt_span_id(s: Seq<u8>, pos: int) -> Option<(Option<SpanId>, int)> {
    match parse_bool(s, pos) {
        Some((present, p)) => {
            if present {
                match parse_span_id(s, p) {
                    Some((v, p2)) => Some((Some(v), p2)),
                    None => None,
                }
            } else {
                Some((None, p))
            }
        },
        None => None,
    }
}

/// Parses a duration: whole seconds, then nanoseconds.
pub open spec fn parse_duration(s: Seq<u8>, pos: int) -> Option<(Duration, int)> {
    match parse_u32(s, pos) {
        Some((seconds, p)) => match parse_u32(s, p) {
            Some((nano_seconds, p2)) => Some((Duration { seconds, nano_seconds }, p2)),
            None => None,
        },
        None => None,
    }
}

/// Parses a level: a variant index between 0 and 4.
pub open spec fn parse_level(s: Seq<u8>, pos: int) -> Option<(crate::metadata::Level, int)> {
    match parse_u32(s, pos) {
        Some((tag, p)) => {
            if tag == 0 {
                Some((crate::metadata::Level::Trace, p))
            } else if tag == 1 {
                Some((crate::metadata::Level::Debug, p))
            } else if tag == 2 {
                Some((crate::metadata::Level::Info, p))
            } else if tag == 3 {
                Some((crate::metadata::Level::Warning, p))
            } else if tag == 4 {
                Some((crate::metadata::Level::Error, p))
            } else {
                None
            }
        },
        None => None,
    }
}

/// Parses a metadata block: name, target, level, optional module path,
/// optional file path, optional line number.
pub open spec fn parse_metadata(s: Seq<u8>, pos: int) -> Option<(
    crate::metadata::MetadataView,
    int,
)> {
    match parse_string(s, pos) {
        Some((name, p1)) => match parse_string(s, p1) {
            Some((target, p2)) => match parse_level(s, p2) {
                Some((level, p3)) => match parse_opt_string(s, p3) {
                    Some((module, p4)) => match parse_opt_string(s, p4) {
                        Some((file, p5)) => match parse_opt_u32(s, p5) {
                            Some((line, p6)) => Some((
                                crate::metadata::MetadataView {
                                    name,
                                    target,
                                    level,
                                    module,
                                    file,
                                    line,
                                },
                                p6,
                            )),
                            None => None,
                        },
                        None => None,
                    },
                    None => None,
                },
                None => None,
            },
            None => None,
        },
        None => None,
    }
}

/// A scalar value as decoded from the wire. A floating-point value is kept
/// as its raw bit pattern; rendering it is the caller's task.
#[derive(Clone, Debug)]
pub enum RawValue {
    /// The bit pattern of a 64-bit IEEE 754 value.
    Float(u64),
    Signed(i64),
    Unsigned(u64),
    Str(String),
    Bool(bool),
}

/// The mathematical shape of a wire value.
pub ghost enum RawValueView {
    Float(u64),
    Signed(i64),
    Unsigned(u64),
    Str(Seq<char>),
    Bool(bool),
}

impl View for RawValue {
    type V = RawValueView;

    open spec fn view(&self) -> RawValueView {
        match self {
            RawValue::Float(b) => RawValueView::Float(*b),
            RawValue::Signed(x) => RawValueView::Signed(*x),
            RawValue::Unsigned(x) => RawValueView::Unsigned(*x),
            RawValue::Str(st) => RawValueView::Str(st@),
            RawValue::Bool(b) => RawValueView::Bool(*b),
        }
    }
}

/// Parses one tagged scalar value.
pub open spec fn parse_value(s: Seq<u8>, pos: int) -> Option<(RawValueView, int)> {
    match parse_u32(s, pos) {
        Some((tag, p)) => {
            if tag == 0 {
                match parse_u64(s, p) {
                    Some((bits, p2)) => Some((RawValueView::Float(bits), p2)),
                    None => None,
                }
            } else if tag == 1 {
                match parse_i64(s, p) {
                    Some((v, p2)) => Some((RawValueView::Signed(v), p2)),
                    None => None,
                }
            } else if tag == 2 {
                match parse_u64(s, p) {
                    Some((v, p2)) => Some((RawValueView::Unsigned(v), p2)),
                    None => None,
                }
            } else if tag == 3 {
                match parse_string(s, p) {
                    Some((v, p2)) => Some((RawValueView::Str(v), p2)),
                    None => None,
                }
            } else if tag == 4 {
                match parse_bool(s, p) {
                    Some((v, p2)) => Some((RawValueView::Bool(v), p2)),
                    None => None,
                }
            } else {
                None
            }
        },
        None => None,
    }
}

/// Parses one `(key, value)` pair.
pub open spec fn parse_pair(s: Seq<u8>, pos: int) -> Option<((Seq<char>, RawValueView), int)> {
    match parse_string(s, pos) {
        Some((k, p)) => match parse_value(s, p) {
            Some((v, p2)) => Some(((k, v), p2)),
            None => None,
        },
        None => None,
    }
}

/// Parses `count` consecutive `(key, value)` pairs.
pub open spec fn parse_pairs(s: Seq<u8>, pos: int, count: int) -> Option<(
    Seq<(Seq<char>, RawValueView)>,
    int,
)>
    decreases count,
{
    if count <= 0 {
        Some((Seq::empty(), pos))
    } else {
        match parse_pair(s, pos) {
            Some((kv, p)) => match parse_pairs(s, p, count - 1) {
                Some((rest, p2)) => Some((seq![kv] + rest, p2)),
                None => None,
            },
            None => None,
        }
    }
}

/// Parses a value set: a length-prefixed list of `(key, value)` pairs.
pub open spec fn parse_value_set(s: Seq<u8>, pos: int) -> Option<(
    Seq<(Seq<char>, RawValueView)>,
    int,
)> {
    match parse_u64(s, pos) {
        Some((count, p)) => parse_pairs(s, p, count as int),
        None => None,
    }
}

/// The view of a vector of decoded pairs.
pub open spec fn raw_pairs_view(data: Seq<(String, RawValue)>) -> Seq<(Seq<char>, RawValueView)> {
    data.map_values(|kv: (String, RawValue)| (kv.0@, kv.1@))
}

/// Reads an optional string at a position.
pub fn read_opt_string(buf: &Vec<u8>, pos: usize) -> (r: Option<(Option<String>, usize)>)
    ensures
        match r {
            Some(vp) => parse_opt_string(buf@, pos as int) == Some(
                (crate::state::opt_text(vp.0), vp.1 as int),
            ),
            None => parse_opt_string(buf@, pos as int) is None,
        },
{
    match read_bool(buf, pos) {
        Some((present, p)) => {
            if present {
                match read_string(buf, p) {
                    Some((v, p2)) => Some((Some(v), p2)),
                    None => None,
                }
            } else {
                Some((None, p))
            }
        },
        None => None,
    }
}

/// Reads an optional `u32` at a position.
pub fn read_opt_u32(buf: &Vec<u8>, pos: usize) -> (r: Option<(Option<u32>, usize)>)
    ensures
        match r {
            Some(vp) => parse_opt_u32(buf@, pos as int) == Some((vp.0, vp.1 as int)),
            None => parse_opt_u32(buf@, pos as int) is None,
        },
{
    match read_bool(buf, pos) {
        Some((present, p)) => {
            if present {
                match read_u32(buf, p) {
                    Some((v, p2)) => Some((Some(v), p2)),
                    None => None,
                }
            } else {
                Some((None, p))
            }
        },
        None => None,
    }
}

/// Reads a span id at a position.
pub fn read_span_id(buf: &Vec<u8>, pos: usize) -> (r: Option<(SpanId, usize)>)
    ensures
        match r {
            Some(vp) => parse_span_id(buf@, pos as int) == Some((vp.0, vp.1 as int)),
            None => parse_span_id(buf@, pos as int) is None,
        },
{
    match read_u32(buf, pos) {
        Some((id, p)) => match read_u32(buf, p) {
            Some((instance, p2)) => Some((SpanId { id, instance }, p2)),
            None => None,
        },
        None => None,
    }
}

/// Reads an optional span id at a position.
pub fn read_opt_span_id(buf: &Vec<u8>, pos: usize) -> (r: Option<(Option<SpanId>, usize)>)
    ensures
        match r {
            Some(vp) => parse_opt_span_id(buf@, pos as int) == Some((vp.0, vp.1 as int)),
            None => parse_opt_span_id(buf@, pos as int) is None,
        },
{
    match read_bool(buf, pos) {
        Some((present, p)) => {
            if present {
                match read_span_id(buf, p) {
                    Some((v, p2)) => Some((Some(v), p2)),
                    None => None,
                }
            } else {
                Some((None, p))
            }
        },
        None => None,
    }
}

/// Reads a duration at a position.
pub fn read_duration(buf: &Vec<u8>, pos: usize) -> (r: Option<(Duration, usize)>)
    ensures
        match r {
            Some(vp) => parse_duration(buf@, pos as int) == Some((vp.0, vp.1 as int)),
            None => parse_duration(buf@, pos as int) is None,
        },
{
    match read_u32(buf, pos) {
        Some((seconds, p)) => match read_u32(buf, p) {
            Some((nano_seconds, p2)) => Some((Duration { seconds, nano_seconds }, p2)),
            None => None,
        },
        None => None,
    }
}

/// Reads a level at a position.
pub fn read_level(buf: &Vec<u8>, pos: usize) -> (r: Option<(crate::metadata::Level, usize)>)
    ensures
        match r {
            Some(vp) => parse_level(buf@, pos as int) == Some((vp.0, vp.1 as int)),
            None => parse_level(buf@, pos as int) is None,
        },
{
    match read_u32(buf, pos) {
        Some((tag, p)) => {
            if tag == 0 {
                Some((crate::metadata::Level::Trace, p))
            } else if tag == 1 {
                Some((crate::metadata::Level::Debug, p))
            } else if tag == 2 {
                Some((crate::metadata::Level::Info, p))
            } else if tag == 3 {
                Some((crate::metadata::Level::Warning, p))
            } else if tag == 4 {
                Some((crate::metadata::Level::Error, p))
            } else {
                None
            }
        },
        None => None,
    }
}

/// Reads a metadata block at a position.
pub fn read_metadata(buf: &Vec<u8>, pos: usize) -> (r: Option<(crate::metadata::Metadata, usize)>)
    ensures
        match r {
            Some(vp) => parse_metadata(buf@, pos as int) == Some((vp.0@, vp.1 as int)),
            None => parse_metadata(buf@, pos as int) is None,
        },
{
    match read_string(buf, pos) {
        Some((name, p1)) => match read_string(buf, p1) {
            Some((target, p2)) => match read_level(buf, p2) {
                Some((level, p3)) => match read_opt_string(buf, p3) {
                    Some((module, p4)) => match read_opt_string(buf, p4) {
                        Some((file, p5)) => match read_opt_u32(buf, p5) {
                            Some((line, p6)) => Some((
                                crate::metadata::Metadata {
                                    name,
                                    target,
                                    level,
                                    module,
                                    file,
                                    line,
                                },
                                p6,
                            )),
                            None => None,
                        },
                        None => None,
                    },
                    None => None,
                },
                None => None,
            },
            None => None,
        },
        None => None,
    }
}

/// Reads one tagged scalar value at a position.
pub fn read_value(buf: &Vec<u8>, pos: usize) -> (r: Option<(RawValue, usize)>)
    ensures
        match r {
            Some(vp) => parse_value(buf@, pos as int) == Some((vp.0@, vp.1 as int)),
            None => parse_value(buf@, pos as int) is None,
        },
{
    match read_u32(buf, pos) {
        Some((tag, p)) => {
            if tag == 0 {
                match read_u64(buf, p) {
                    Some((bits, p2)) => Some((RawValue::Float(bits), p2)),
                    None => None,
                }
            } else if tag == 1 {
                match read_i64(buf, p) {
                    Some((v, p2)) => Some((RawValue::Signed(v), p2)),
                    None => None,
                }
            } else if tag == 2 {
                match read_u64(buf, p) {
                    Some((v, p2)) => Some((RawValue::Unsigned(v), p2)),
                    None => None,
                }
            } else if tag == 3 {
                match read_string(buf, p) {
                    Some((v, p2)) => Some((RawValue::Str(v), p2)),
                    None => None,
                }
            } else if tag == 4 {
                match read_bool(buf, p) {
                    Some((v, p2)) => Some((RawValue::Bool(v), p2)),
                    None => None,
                }
            } else {
                None
            }
        },
        None => None,
    }
}

/// Reads a value set at a position.
pub fn read_value_set(buf: &Vec<u8>, pos: usize) -> (r: Option<(Vec<(String, RawValue)>, usize)>)
    ensures
        match r {
            Some(vp) => parse_value_set(buf@, pos as int) == Some(
                (raw_pairs_view(vp.0@), vp.1 as int),
            ),
            None => parse_value_set(buf@, pos as int) is None,
        },
{
    match read_u64(buf, pos) {
        Some((count, start)) => {
            let mut acc: Vec<(String, RawValue)> = Vec::new();
            let mut cur = start;
            let mut i: u64 = 0;
            proof {
                assert(raw_pairs_view(acc@) =~= Seq::<(Seq<char>, RawValueView)>::empty());
                if parse_pairs(buf@, start as int, count as int) is Some {
                    let (rest, p) = parse_pairs(buf@, start as int, count as int)->Some_0;
                    assert(Seq::<(Seq<char>, RawValueView)>::empty() + rest =~= rest);
                }
            }
            while i < count
                invariant
                    i <= count,
                    parse_u64(buf@, pos as int) == Some((count, start as int)),
                    parse_pairs(buf@, start as int, count as int) == match parse_pairs(
                        buf@,
                        cur as int,
                        count as int - i as int,
                    ) {
                        Some((rest, p)) => Some((raw_pairs_view(acc@) + rest, p)),
                        None => None::<(Seq<(Seq<char>, RawValueView)>, int)>,
                    },
                decreases count - i,
            {
                match read_string(buf, cur) {
                    Some((k, pk)) => {
                        match read_value(buf, pk) {
                            Some((v, pv)) => {
                                let ghost gk = k@;
                                let ghost gv = v@;
                                let ghost pre = acc@;
                                acc.push((k, v));
                                proof {
                                    assert(acc@[pre.len() as int].0@ == gk);
                                    assert(acc@[pre.len() as int].1@ == gv);
                                    assert(raw_pairs_view(acc@) =~= raw_pairs_view(pre).push(
                                        (gk, gv),
                                    ));
                                    assert(parse_pair(buf@, cur as int) == Some(
                                        ((gk, gv), pv as int),
                                    ));
                                    if parse_pairs(buf@, pv as int, count as int - i as int
                                        - 1) is Some {
                                        let (rest, p) = parse_pairs(
                                            buf@,
                                            pv as int,
                                            count as int - i as int - 1,
                                        )->Some_0;
                                        assert(raw_pairs_view(pre) + (seq![(gk, gv)] + rest) =~= (
                                        raw_pairs_view(pre).push((gk, gv))) + rest);
                                    }
                                }
                                cur = pv;
                            },
                            None => {
                                return None;
                            },
                        }
                    },
                    None => {
                        return None;
                    },
                }
                i += 1;
            }
            proof {
                assert(parse_pairs(buf@, cur as int, 0) == Some(
                    (Seq::<(Seq<char>, RawValueView)>::empty(), cur as int),
                ));
                assert(raw_pairs_view(acc@) + Seq::<(Seq<char>, RawValueView)>::empty()
                    =~= raw_pairs_view(acc@));
            }
            Some((acc, cur))
        },
        None => None,
    }
}

/// The compilation target of a traced application.
#[derive(Clone, Debug)]
pub struct TargetInfo {
    pub os: String,
    pub family: String,
    pub arch: String,
}

/// The mathematical shape of a target description.
pub ghost struct TargetInfoView {
    pub os: Seq<char>,
    pub family: Seq<char>,
    pub arch: Seq<char>,
}

impl View for TargetInfo {
    type V = TargetInfoView;

    open spec fn view(&self) -> TargetInfoView {
        TargetInfoView { os: self.os@, family: self.family@, arch: self.arch@ }
    }
}

/// The processor of a traced application's machine.
#[derive(Clone, Debug)]
pub struct CpuInfo {
    pub name: String,
    pub core_count: u32,
}

/// The mathematical shape of a processor description.
pub ghost struct CpuInfoView {
    pub name: Seq<char>,
    pub core_count: u32,
}

impl View for CpuInfo {
    type V = CpuInfoView;

    open spec fn view(&self) -> CpuInfoView {
        CpuInfoView { name: self.name@, core_count: self.core_count }
    }
}

/// One-time session metadata announced by the target.
#[derive(Clone, Debug)]
pub struct Project {
    pub app_name: String,
    pub name: String,
    pub version: String,
    pub command_line: String,
    pub target: TargetInfo,
    pub cpu: Option<CpuInfo>,
}

/// The mathematical shape of a project description.
pub ghost struct ProjectView {
    pub app_name: Seq<char>,
    pub name: Seq<char>,
    pub version: Seq<char>,
    pub command_line: Seq<char>,
    pub target: TargetInfoView,
    pub cpu: Option<CpuInfoView>,
}

impl View for Project {
    type V = ProjectView;

    open spec fn view(&self) -> ProjectView {
        ProjectView {
            app_name: self.app_name@,
            name: self.name@,
            version: self.version@,
            command_line: self.command_line@,
            target: self.target@,
            cpu: match self.cpu {
                Some(c) => Some(c@),
                None => None,
            },
        }
    }
}

/// Parses a target description: three strings.
pub open spec fn parse_target(s: Seq<u8>, pos: int) -> Option<(TargetInfoView, int)> {
    match parse_string(s, pos) {
        Some((os, p1)) => match parse_string(s, p1) {
            Some((family, p2)) => match parse_string(s, p2) {
                Some((arch, p3)) => Some((TargetInfoView { os, family, arch }, p3)),
                None => None,
            },
            None => None,
        },
        None => None,
    }
}

/// Parses an optional processor description: a presence byte, then a name
/// and a core count.
pub open spec fn parse_opt_cpu(s: Seq<u8>, pos: int) -> Option<(Option<CpuInfoView>, int)> {
    match parse_bool(s, pos) {
        Some((present, p)) => {
            if present {
                match parse_string(s, p) {
                    Some((name, p1)) => match parse_u32(s, p1) {
                        Some((core_count, p2)) => Some(
                            (Some(CpuInfoView { name, core_count }), p2),
                        ),
                        None => None,
                    },
                    None => None,
                }
            } else {
                Some((None, p))
            }
        },
        None => None,
    }
}

/// Parses a project description.
pub open spec fn parse_project(s: Seq<u8>, pos: int) -> Option<(ProjectView, int)> {
    match parse_string(s, pos) {
        Some((app_name, p1)) => match parse_string(s, p1) {
            Some((name, p2)) => match parse_string(s, p2) {
                Some((version, p3)) => match parse_string(s, p3) {
                    Some((command_line, p4)) => match parse_target(s, p4) {
                        Some((target, p5)) => match parse_opt_cpu(s, p5) {
                            Some((cpu, p6)) => Some((
                                ProjectView {
                                    app_name,
                                    name,
                                    version,
                                    command_line,
                                    target,
                                    cpu,
                                },
                                p6,
                            )),
                            None => None,
                        },
                        None => None,
                    },
                    None => None,
                },
                None => None,
            },
            None => None,
        },
        None => None,
    }
}

/// Reads a project description at a position.
pub fn read_project(buf: &Vec<u8>, pos: usize) -> (r: Option<(Project, usize)>)
    ensures
        match r {
            Some(vp) => parse_project(buf@, pos as int) == Some((vp.0@, vp.1 as int)),
            None => parse_project(buf@, pos as int) is None,
        },
{
    match read_string(buf, pos) {
        Some((app_name, p1)) => match read_string(buf, p1) {
            Some((name, p2)) => match read_string(buf, p2) {
                Some((version, p3)) => match read_string(buf, p3) {
                    Some((command_line, p4)) => match read_string(buf, p4) {
                        Some((os, p5)) => match read_string(buf, p5) {
                            Some((family, p6)) => match read_string(buf, p6) {
                                Some((arch, p7)) => match read_bool(buf, p7) {
                                    Some((present, p8)) => {
                                        let target = TargetInfo { os, family, arch };
                                        if present {
                                            match read_string(buf, p8) {
                                                Some((cname, p9)) => match read_u32(buf, p9) {
                                                    Some((core_count, p10)) => Some((
                                                        Project {
                                                            app_name,
                                                            name,
                                                            version,
                                                            command_line,
                                                            target,
                                                            cpu: Some(
                                                                CpuInfo {
                                                                    name: cname,
                                                                    core_count,
                                                                },
                                                            ),
                                                        },
                                                        p10,
                                                    )),
                                                    None => None,
                                                },
                                                None => None,
                                            }
                                        } else {
                                            Some((
                                                Project {
                                                    app_name,
                                                    name,
                                                    version,
                                                    command_line,
                                                    target,
                                                    cpu: None,
                                                },
                                                p8,
                                            ))
                                        }
                                    },
                                    None => None,
                                },
                                None => None,
                            },
                            None => None,
                        },
                        None => None,
                    },
                    None => None,
                },
                None => None,
            },
            None => None,
        },
        None => None,
    }
}

/// One command of the framed binary stream, as decoded from the wire.
#[derive(Debug)]
pub enum Command {
    SpanAlloc { id: SpanId, metadata: crate::metadata::Metadata },
    SpanInit {
        span: SpanId,
        parent: Option<SpanId>,
        message: Option<String>,
        value_set: Vec<(String, RawValue)>,
    },
    SpanFollows { span: SpanId, follows: SpanId },
    SpanValues { span: SpanId, message: Option<String>, value_set: Vec<(String, RawValue)> },
    Event {
        span: Option<SpanId>,
        metadata: crate::metadata::Metadata,
        time: i64,
        message: Option<String>,
        value_set: Vec<(String, RawValue)>,
    },
    SpanEnter(SpanId),
    SpanExit { span: SpanId, duration: Duration },
    SpanFree(SpanId),
    Project(Project),
    Terminate,
}

/// The mathematical shape of a wire command.
pub ghost enum CommandView {
    SpanAlloc { id: SpanId, metadata: crate::metadata::MetadataView },
    SpanInit {
        span: SpanId,
        parent: Option<SpanId>,
        message: Option<Seq<char>>,
        value_set: Seq<(Seq<char>, RawValueView)>,
    },
    SpanFollows { span: SpanId, follows: SpanId },
    SpanValues {
        span: SpanId,
        message: Option<Seq<char>>,
        value_set: Seq<(Seq<char>, RawValueView)>,
    },
    Event {
        span: Option<SpanId>,
        metadata: crate::metadata::MetadataView,
        time: i64,
        message: Option<Seq<char>>,
        value_set: Seq<(Seq<char>, RawValueView)>,
    },
    SpanEnter(SpanId),
    SpanExit { span: SpanId, duration: Duration },
    SpanFree(SpanId),
    Project(ProjectView),
    Terminate,
}

impl View for Command {
    type V = CommandView;

    open spec fn view(&self) -> CommandView {
        match self {
            Command::SpanAlloc { id, metadata } => CommandView::SpanAlloc {
                id: *id,
                metadata: metadata@,
            },
            Command::SpanInit { span, parent, message, value_set } => CommandView::SpanInit {
                span: *span,
                parent: *parent,
                message: crate::state::opt_text(*message),
                value_set: raw_pairs_view(value_set@),
            },
            Command::SpanFollows { span, follows } => CommandView::SpanFollows {
                span: *span,
                follows: *follows,
            },
            Command::SpanValues { span, message, value_set } => CommandView::SpanValues {
                span: *span,
                message: crate::state::opt_text(*message),
                value_set: raw_pairs_view(value_set@),
            },
            Command::Event { span, metadata, time, message, value_set } => CommandView::Event {
                span: *span,
                metadata: metadata@,
                time: *time,
                message: crate::state::opt_text(*message),
                value_set: raw_pairs_view(value_set@),
            },
            Command::SpanEnter(id) => CommandView::SpanEnter(*id),
            Command::SpanExit { span, duration } => CommandView::SpanExit {
                span: *span,
                duration: *duration,
            },
            Command::SpanFree(id) => CommandView::SpanFree(*id),
            Command::Project(p) => CommandView::Project(p@),
            Command::Terminate => CommandView::Terminate,
        }
    }
}

impl Command {
    /// Whether the target announced the end of its stream.
    pub fn is_terminate(&self) -> (r: bool)
        ensures
            r == (self@ is Terminate),
    {
        match self {
            Command::Terminate => true,
            _ => false,
        }
    }
}

/// Parses one command: a variant index, then the variant's fields.
pub open spec fn parse_command(s: Seq<u8>, pos: int) -> Option<(CommandView, int)> {
    match parse_u32(s, pos) {
        Some((tag, p)) => {
            if tag == 0 {
                match parse_span_id(s, p) {
                    Some((id, p1)) => match parse_metadata(s, p1) {
                        Some((metadata, p2)) => Some((CommandView::SpanAlloc { id, metadata }, p2)),
                        None => None,
                    },
                    None => None,
                }
            } else if tag == 1 {
                match parse_span_id(s, p) {
                    Some((span, p1)) => match parse_opt_span_id(s, p1) {
                        Some((parent, p2)) => match parse_opt_string(s, p2) {
                            Some((message, p3)) => match parse_value_set(s, p3) {
                                Some((value_set, p4)) => Some((
                                    CommandView::SpanInit { span, parent, message, value_set },
                                    p4,
                                )),
                                None => None,
                            },
                            None => None,
                        },
                        None => None,
                    },
                    None => None,
                }
            } else if tag == 2 {
                match parse_span_id(s, p) {
                    Some((span, p1)) => match parse_span_id(s, p1) {
                        Some((follows, p2)) => Some(
                            (CommandView::SpanFollows { span, follows }, p2),
                        ),
                        None => None,
                    },
                    None => None,
                }
            } else if tag == 3 {
                match parse_span_id(s, p) {
                    Some((span, p1)) => match parse_opt_string(s, p1) {
                        Some((message, p2)) => match parse_value_set(s, p2) {
                            Some((value_set, p3)) => Some((
                                CommandView::SpanValues { span, message, value_set },
                                p3,
                            )),
                            None => None,
                        },
                        None => None,
                    },
                    None => None,
                }
            } else if tag == 4 {
                match parse_opt_span_id(s, p) {
                    Some((span, p1)) => match parse_metadata(s, p1) {
                        Some((metadata, p2)) => match parse_i64(s, p2) {
                            Some((time, p3)) => match parse_opt_string(s, p3) {
                                Some((message, p4)) => match parse_value_set(s, p4) {
                                    Some((value_set, p5)) => Some((
                                        CommandView::Event {
                                            span,
                                            metadata,
                                            time,
                                            message,
                                            value_set,
                                        },
                                        p5,
                                    )),
                                    None => None,
                                },
                                None => None,
                            },
                            None => None,
                        },
                        None => None,
                    },
                    None => None,
                }
            } else if tag == 5 {
                match parse_span_id(s, p) {
                    Some((id, p1)) => Some((CommandView::SpanEnter(id), p1)),
                    None => None,
                }
            } else if tag == 6 {
                match parse_span_id(s, p) {
                    Some((span, p1)) => match parse_duration(s, p1) {
                        Some((duration, p2)) => Some((CommandView::SpanExit { span, duration }, p2)),
                        None => None,
                    },
                    None => None,
                }
            } else if tag == 7 {
                match parse_span_id(s, p) {
                    Some((id, p1)) => Some((CommandView::SpanFree(id), p1)),
                    None => None,
                }
            } else if tag == 8 {
                match parse_project(s, p) {
                    Some((project, p1)) => Some((CommandView::Project(project), p1)),
                    None => None,
                }
            } else if tag == 9 {
                Some((CommandView::Terminate, p))
            } else {
                None
            }
        },
        None => None,
    }
}

/// Reads one command at a position.
#[verifier::rlimit(80)]
pub fn read_command(buf: &Vec<u8>, pos: usize) -> (r: Option<(Command, usize)>)
    ensures
        match r {
            Some(vp) => parse_command(buf@, pos as int) == Some((vp.0@, vp.1 as int)),
            None => parse_command(buf@, pos as int) is None,
        },
{
    match read_u32(buf, pos) {
        Some((tag, p)) => {
            if tag == 0 {
                match read_span_id(buf, p) {
                    Some((id, p1)) => match read_metadata(buf, p1) {
                        Some((metadata, p2)) => Some((Command::SpanAlloc { id, metadata }, p2)),
                        None => None,
                    },
                    None => None,
                }
            } else if tag == 1 {
                match read_span_id(buf, p) {
                    Some((span, p1)) => match read_opt_span_id(buf, p1) {
                        Some((parent, p2)) => match read_opt_string(buf, p2) {
                            Some((message, p3)) => match read_value_set(buf, p3) {
                                Some((value_set, p4)) => Some((
                                    Command::SpanInit { span, parent, message, value_set },
                                    p4,
                                )),
                                None => None,
                            },
                            None => None,
                        },
                        None => None,
                    },
                    None => None,
                }
            } else if tag == 2 {
                match read_span_id(buf, p) {
                    Some((span, p1)) => match read_span_id(buf, p1) {
                        Some((follows, p2)) => Some((Command::SpanFollows { span, follows }, p2)),
                        None => None,
                    },
                    None => None,
                }
            } else if tag == 3 {
                match read_span_id(buf, p) {
                    Some((span, p1)) => match read_opt_string(buf, p1) {
                        Some((message, p2)) => match read_value_set(buf, p2) {
                            Some((value_set, p3)) => Some((
                                Command::SpanValues { span, message, value_set },
                                p3,
                            )),
                            None => None,
                        },
                        None => None,
                    },
                    None => None,
                }
            } else if tag == 4 {
                match read_opt_span_id(buf, p) {
                    Some((span, p1)) => match read_metadata(buf, p1) {
                        Some((metadata, p2)) => match read_i64(buf, p2) {
                            Some((time, p3)) => match read_opt_string(buf, p3) {
                                Some((message, p4)) => match read_value_set(buf, p4) {
                                    Some((value_set, p5)) => Some((
                                        Command::Event { span, metadata, time, message, value_set },
                                        p5,
                                    )),
                                    None => None,
                                },
                                None => None,
                            },
                            None => None,
                        },
                        None => None,
                    },
                    None => None,
                }
            } else if tag == 5 {
                match read_span_id(buf, p) {
                    Some((id, p1)) => Some((Command::SpanEnter(id), p1)),
                    None => None,
                }
            } else if tag == 6 {
                match read_span_id(buf, p) {
                    Some((span, p1)) => match read_duration(buf, p1) {
                        Some((duration, p2)) => Some((Command::SpanExit { span, duration }, p2)),
                        None => None,
                    },
                    None => None,
                }
            } else if tag == 7 {
                match read_span_id(buf, p) {
                    Some((id, p1)) => Some((Command::SpanFree(id), p1)),
                    None => None,
                }
            } else if tag == 8 {
                match read_project(buf, p) {
                    Some((project, p1)) => Some((Command::Project(project), p1)),
                    None => None,
                }
            } else if tag == 9 {
                Some((Command::Terminate, p))
            } else {
                None
            }
        },
        None => None,
    }
}

/// Parses one frame: a little-endian `u32` length, then a command encoded
/// in exactly that many bytes.
pub open spec fn parse_frame(s: Seq<u8>) -> Option<(CommandView, int)> {
    match parse_u32(s, 0) {
        Some((len, p)) => match parse_command(s, p) {
            Some((c, end)) => {
                if end == 4 + len {
                    Some((c, end))
                } else {
                    None
                }
            },
            None => None,
        },
        None => None,
    }
}

/// Decodes one frame from the start of a buffer. On success the number of
/// bytes consumed is exactly the length prefix plus the four prefix bytes.
pub fn decode_frame(buf: &Vec<u8>) -> (r: Option<(Command, usize)>)
    ensures
        match r {
            Some(vp) => {
                &&& parse_frame(buf@) == Some((vp.0@, vp.1 as int))
                &&& vp.1 as int == 4 + le32(buf@, 0)
            },
            None => parse_frame(buf@) is None,
        },
{
    match read_u32(buf, 0) {
        Some((len, p)) => {
            match read_command(buf, p) {
                Some((c, end)) => {
                    if end as u64 == 4u64 + len as u64 {
                        Some((c, end))
                    } else {
                        None
                    }
                },
                None => None,
            }
        },
        None => None,
    }
}

/// Whether two byte vectors hold the same bytes.
pub fn bytes_eq(a: &Vec<u8>, b: &Vec<u8>) -> (r: bool)
    ensures
        r == (a@ == b@),
{
    if a.len() != b.len() {
        return false;
    }
    let n = a.len();
    let mut i: usize = 0;
    while i < n
        invariant
            i <= n,
            n == a@.len(),
            n == b@.len(),
            forall|j: int| 0 <= j < i ==> a@[j] == b@[j],
        decreases n - i,
    {
        if a[i] != b[i] {
            return false;
        }
        i += 1;
    }
    proof {
        assert(a@ =~= b@);
    }
    true
}

/// The little-endian bytes of a `u32`.
pub open spec fn u32_le_bytes(v: u32) -> Seq<u8> {
    seq![
        (v as int % 0x100) as u8,
        (v as int / 0x100 % 0x100) as u8,
        (v as int / 0x1_0000 % 0x100) as u8,
        (v as int / 0x100_0000 % 0x100) as u8,
    ]
}

/// Outcome of comparing a received hello block with our own.
#[derive(Clone, Copy, Debug, PartialEq, Eq, Structural)]
pub enum MatchResult {
    SignatureMismatch,
    VersionMismatch,
    Accepted,
}

/// The 40-byte handshake block: a 4-byte signature, then the protocol
/// version as three little-endian `u32` fields, 16 pre-release bytes and
/// 8 build bytes, both zero padded.
pub struct Hello {
    signature: Vec<u8>,
    major: u32,
    minor: u32,
    patch: u32,
    pre: Vec<u8>,
    build: Vec<u8>,
}

/// The mathematical shape of a hello block.
pub ghost struct HelloView {
    pub signature: Seq<u8>,
    pub major: u32,
    pub minor: u32,
    pub patch: u32,
    pub pre: Seq<u8>,
    pub build: Seq<u8>,
}

impl View for Hello {
    type V = HelloView;

    closed spec fn view(&self) -> HelloView {
        HelloView {
            signature: self.signature@,
            major: self.major,
            minor: self.minor,
            patch: self.patch,
            pre: self.pre@,
            build: self.build@,
        }
    }
}

/// The field widths of a hello block.
pub open spec fn hello_wf(h: HelloView) -> bool {
    &&& h.signature.len() == 4
    &&& h.pre.len() == 16
    &&& h.build.len() == 8
}

/// The byte layout of a hello block: 4 + 12 + 16 + 8 = 40 bytes.
pub open spec fn hello_bytes(h: HelloView) -> Seq<u8> {
    h.signature + u32_le_bytes(h.major) + u32_le_bytes(h.minor) + u32_le_bytes(h.patch) + h.pre
        + h.build
}

/// The block this broker announces and accepts: signature `BP3D`,
/// version 1.0.0, empty pre-release and build fields.
pub open spec fn hello_packet_view() -> HelloView {
    HelloView {
        signature: seq![0x42u8, 0x50u8, 0x33u8, 0x44u8],
        major: 1,
        minor: 0,
        patch: 0,
        pre: Seq::new(16, |i: int| 0u8),
        build: Seq::new(8, |i: int| 0u8),
    }
}

/// Comparison of a received hello block against a reference: the signature
/// decides first, then every version field.
pub open spec fn hello_match(a: HelloView, b: HelloView) -> MatchResult {
    if a.signature != b.signature {
        MatchResult::SignatureMismatch
    } else if a.major != b.major || a.minor != b.minor || a.patch != b.patch || a.pre != b.pre
        || a.build != b.build {
        MatchResult::VersionMismatch
    } else {
        MatchResult::Accepted
    }
}

impl Hello {
    /// The broker's own hello block.
    pub fn packet() -> (r: Hello)
        ensures
            r@ == hello_packet_view(),
            hello_wf(r@),
    {
        let mut signature: Vec<u8> = Vec::new();
        signature.push(0x42);
        signature.push(0x50);
        signature.push(0x33);
        signature.push(0x44);
        let mut pre: Vec<u8> = Vec::new();
        let mut i: usize = 0;
        while i < 16
            invariant
                i <= 16,
                pre@.len() == i,
                forall|j: int| 0 <= j < i ==> pre@[j] == 0u8,
            decreases 16 - i,
        {
            pre.push(0);
            i += 1;
        }
        let mut build: Vec<u8> = Vec::new();
        let mut k: usize = 0;
        while k < 8
            invariant
                k <= 8,
                build@.len() == k,
                forall|j: int| 0 <= j < k ==> build@[j] == 0u8,
            decreases 8 - k,
        {
            build.push(0);
            k += 1;
        }
        let r = Hello { signature, major: 1, minor: 0, patch: 0, pre, build };
        proof {
            assert(r@.signature =~= hello_packet_view().signature);
            assert(r@.pre =~= hello_packet_view().pre);
            assert(r@.build =~= hello_packet_view().build);
            assert(r@ =~~= hello_packet_view());
        }
        r
    }

    /// Splits a 40-byte block into its fields.
    pub fn from_bytes(bytes: &Vec<u8>) -> (r: Hello)
        requires
            bytes@.len() == 40,
        ensures
            hello_wf(r@),
            r@.signature == bytes@.subrange(0, 4),
            r@.major == le32(bytes@, 4),
            r@.minor == le32(bytes@, 8),
            r@.patch == le32(bytes@, 12),
            r@.pre == bytes@.subrange(16, 32),
            r@.build == bytes@.subrange(32, 40),
    {
        let mut signature: Vec<u8> = Vec::new();
        let mut i: usize = 0;
        while i < 4
            invariant
                i <= 4,
                bytes@.len() == 40,
                signature@ == bytes@.subrange(0, i as int),
            decreases 4 - i,
        {
            signature.push(bytes[i]);
            proof {
                assert(signature@ =~= bytes@.subrange(0, i as int + 1));
            }
            i += 1;
        }
        let major = match read_u32(bytes, 4) {
            Some((v, _)) => v,
            None => 0,
        };
        let minor = match read_u32(bytes, 8) {
            Some((v, _)) => v,
            None => 0,
        };
        let patch = match read_u32(bytes, 12) {
            Some((v, _)) => v,
            None => 0,
        };
        let mut pre: Vec<u8> = Vec::new();
        let mut p: usize = 16;
        while p < 32
            invariant
                16 <= p <= 32,
                bytes@.len() == 40,
                pre@ == bytes@.subrange(16, p as int),
            decreases 32 - p,
        {
            pre.push(bytes[p]);
            proof {
                assert(pre@ =~= bytes@.subrange(16, p as int + 1));
            }
            p += 1;
        }
        let mut build: Vec<u8> = Vec::new();
        let mut b: usize = 32;
        while b < 40
            invariant
                32 <= b <= 40,
                bytes@.len() == 40,
                build@ == bytes@.subrange(32, b as int),
            decreases 40 - b,
        {
            build.push(bytes[b]);
            proof {
                assert(build@ =~= bytes@.subrange(32, b as int + 1));
            }
            b += 1;
        }
        Hello { signature, major, minor, patch, pre, build }
    }

    /// Serializes the block into its 40-byte layout.
    pub fn to_bytes(&self) -> (r: Vec<u8>)
        requires
            hello_wf(self@),
        ensures
            r@ == hello_bytes(self@),
            r@.len() == 40,
    {
        let mut out: Vec<u8> = Vec::new();
        let mut i: usize = 0;
        while i < self.signature.len()
            invariant
                i <= self.signature@.len(),
                self@.signature == self.signature@,
                out@ == self.signature@.subrange(0, i as int),
            decreases self.signature@.len() - i,
        {
            out.push(self.signature[i]);
            proof {
                assert(out@ =~= self.signature@.subrange(0, i as int + 1));
            }
            i += 1;
        }
        proof {
            assert(self.signature@.subrange(0, self.signature@.len() as int) =~= self.signature@);
        }
        out.push((self.major % 0x100) as u8);
        out.push((self.major / 0x100 % 0x100) as u8);
        out.push((self.major / 0x1_0000 % 0x100) as u8);
        out.push((self.major / 0x100_0000) as u8);
        out.push((self.minor % 0x100) as u8);
        out.push((self.minor / 0x100 % 0x100) as u8);
        out.push((self.minor / 0x1_0000 % 0x100) as u8);
        out.push((self.minor / 0x100_0000) as u8);
        out.push((self.patch % 0x100) as u8);
        out.push((self.patch / 0x100 % 0x100) as u8);
        out.push((self.patch / 0x1_0000 % 0x100) as u8);
        out.push((self.patch / 0x100_0000) as u8);
        let ghost mid = out@;
        proof {
            assert(mid =~= self@.signature + u32_le_bytes(self@.major) + u32_le_bytes(self@.minor)
                + u32_le_bytes(self@.patch));
        }
        let mut p: usize = 0;
        while p < self.pre.len()
            invariant
                p <= self.pre@.len(),
                self@.pre == self.pre@,
                out@ == mid + self.pre@.subrange(0, p as int),
            decreases self.pre@.len() - p,
        {
            out.push(self.pre[p]);
            proof {
                assert(out@ =~= mid + self.pre@.subrange(0, p as int + 1));
            }
            p += 1;
        }
        proof {
            assert(self.pre@.subrange(0, self.pre@.len() as int) =~= self.pre@);
        }
        let ghost mid2 = out@;
        let mut b: usize = 0;
        while b < self.build.len()
            invariant
                b <= self.build@.len(),
                self@.build == self.build@,
                out@ == mid2 + self.build@.subrange(0, b as int),
            decreases self.build@.len() - b,
        {
            out.push(self.build[b]);
            proof {
                assert(out@ =~= mid2 + self.build@.subrange(0, b as int + 1));
            }
            b += 1;
        }
        proof {
            assert(self.build@.subrange(0, self.build@.len() as int) =~= self.build@);
            assert(out@ =~= hello_bytes(self@));
        }
        out
    }

    /// Compares this received block against a reference block.
    pub fn matches(&self, other: &Hello) -> (r: MatchResult)
        ensures
            r == hello_match(self@, other@),
    {
        if !bytes_eq(&self.signature, &other.signature) {
            MatchResult::SignatureMismatch
        } else if self.major != other.major || self.minor != other.minor || self.patch
            != other.patch || !bytes_eq(&self.pre, &other.pre) || !bytes_eq(
            &self.build,
            &other.build,
        ) {
            MatchResult::VersionMismatch
        } else {
            MatchResult::Accepted
        }
    }
}

/// Validates a received 40-byte hello block. On success the reply is the
/// broker's own block; a bad signature or version yields the exact kick
/// reason, and nothing is ever replied in that case.
pub fn check_hello(bytes: &Vec<u8>) -> (r: Result<Vec<u8>, String>)
    requires
        bytes@.len() == 40,
    ensures
        ({
            let received = HelloView {
                signature: bytes@.subrange(0, 4),
                major: le32(bytes@, 4),
                minor: le32(bytes@, 8),
                patch: le32(bytes@, 12),
                pre: bytes@.subrange(16, 32),
                build: bytes@.subrange(32, 40),
            };
            match r {
                Ok(reply) => hello_match(received, hello_packet_view())
                    == MatchResult::Accepted && reply@ == hello_bytes(hello_packet_view()),
                Err(reason) => {
                    &&& hello_match(received, hello_packet_view()) != MatchResult::Accepted
                    &&& (hello_match(received, hello_packet_view())
                        == MatchResult::SignatureMismatch ==> reason@ == "wrong signature"@)
                    &&& (hello_match(received, hello_packet_view())
                        == MatchResult::VersionMismatch ==> reason@ == "wrong version"@)
                },
            }
        }),
{
    let received = Hello::from_bytes(bytes);
    let ours = Hello::packet();
    match received.matches(&ours) {
        MatchResult::SignatureMismatch => Err(String::from_str("wrong signature")),
        MatchResult::VersionMismatch => Err(String::from_str("wrong version")),
        MatchResult::Accepted => Ok(ours.to_bytes()),
    }
}

} // verus!
