//! Shared helpers: decimal rendering of integers, UTF-8 decoding,
//! CSV-style quoting and the tagged operator output lines.

use vstd::prelude::*;
use vstd::string::*;

verus! {

/// The base-10 digit character for a single digit value.
pub open spec fn digit_char(d: nat) -> char {
    if d == 0 {
        '0'
    } else if d == 1 {
        '1'
    } else if d == 2 {
        '2'
    } else if d == 3 {
        '3'
    } else if d == 4 {
        '4'
    } else if d == 5 {
        '5'
    } else if d == 6 {
        '6'
    } else if d == 7 {
        '7'
    } else if d == 8 {
        '8'
    } else {
        '9'
    }
}

/// The base-10 rendering of a natural number, most significant digit first.
pub open spec fn decimal_digits(n: nat) -> Seq<char>
    decreases n,
{
    if n < 10 {
        seq![digit_char(n)]
    } else {
        decimal_digits(n / 10).push(digit_char(n % 10))
    }
}

/// Relies on `u64`'s `Display` implementation through `ToString::to_string`:
/// the standard library renders an unsigned integer as its base-10 digits.
#[verifier::external_body]
pub fn u64_to_string(v: u64) -> (r: String)
    ensures
        r@ == decimal_digits(v as nat),
{
    v.to_string()
}

/// Relies on `u128`'s `Display` implementation through `ToString::to_string`:
/// the standard library renders an unsigned integer as its base-10 digits.
#[verifier::external_body]
pub fn u128_to_string(v: u128) -> (r: String)
    ensures
        r@ == decimal_digits(v as nat),
{
    v.to_string()
}

/// The base-10 rendering of a signed value: a minus sign for negative values,
/// then the digits of the magnitude.
pub open spec fn signed_decimal_digits(v: int) -> Seq<char> {
    if v >= 0 {
        decimal_digits(v as nat)
    } else {
        seq!['-'] + decimal_digits((-v) as nat)
    }
}

/// Relies on `i64`'s `Display` implementation through `ToString::to_string`:
/// the standard library renders a signed integer as an optional minus sign
/// followed by its base-10 digits.
#[verifier::external_body]
pub fn i64_to_string(v: i64) -> (r: String)
    ensures
        r@ == signed_decimal_digits(v as int),
{
    v.to_string()
}

/// Relies on `String::from_utf8`: it succeeds exactly on valid UTF-8 input
/// and yields the decoded character sequence.
#[verifier::external_body]
pub fn string_from_utf8(bytes: Vec<u8>) -> (r: Option<String>)
    ensures
        match r {
            Some(s) => vstd::utf8::valid_utf8(bytes@) && s@ == vstd::utf8::decode_utf8(bytes@),
            None => !vstd::utf8::valid_utf8(bytes@),
        },
{
    String::from_utf8(bytes).ok()
}

/// Whether a character occurs in a string.
pub fn contains_char(s: &str, c: char) -> (r: bool)
    ensures
        r == s@.contains(c),
{
    let n = s.unicode_len();
    let mut i: usize = 0;
    while i < n
        invariant
            i <= n,
            n == s@.len(),
            forall|j: int| 0 <= j < i ==> s@[j] != c,
        decreases n - i,
    {
        if s.get_char(i) == c {
            proof {
                assert(s@[i as int] == c);
            }
            return true;
        }
        i += 1;
    }
    false
}

/// A string with every double quote doubled, all other characters kept.
pub open spec fn escape_quotes(s: Seq<char>) -> Seq<char>
    decreases s.len(),
{
    if s.len() == 0 {
        Seq::empty()
    } else {
        escape_quotes(s.drop_last()) + (if s.last() == '"' {
            seq!['"', '"']
        } else {
            seq![s.last()]
        })
    }
}

/// A field must be quoted when it contains the separator or a double quote.
pub open spec fn needs_quoting(s: Seq<char>, sep: char) -> bool {
    s.contains(sep) || s.contains('"')
}

/// A field as it appears in a separated row: quoted with inner quotes
/// doubled exactly when it contains the separator or a double quote,
/// otherwise unchanged.
pub open spec fn csv_escape(s: Seq<char>, sep: char) -> Seq<char> {
    if needs_quoting(s, sep) {
        seq!['"'] + escape_quotes(s) + seq!['"']
    } else {
        s
    }
}

fn escape_quotes_exec(s: &str) -> (r: String)
    ensures
        r@ == escape_quotes(s@),
{
    let n = s.unicode_len();
    let mut out = String::new();
    let mut i: usize = 0;
    while i < n
        invariant
            i <= n,
            n == s@.len(),
            out@ == escape_quotes(s@.take(i as int)),
        decreases n - i,
    {
        let c = s.get_char(i);
        if c == '"' {
            out.append("\"\"");
            proof {
                reveal_strlit("\"\"");
                assert("\"\""@ =~= seq!['"', '"']);
            }
        } else {
            let piece = s.substring_char(i, i + 1);
            out.append(piece);
            proof {
                assert(piece@ =~= seq![s@[i as int]]);
            }
        }
        proof {
            assert(s@.take(i as int + 1).drop_last() =~= s@.take(i as int));
            assert(s@.take(i as int + 1).last() == s@[i as int]);
        }
        i += 1;
    }
    proof {
        assert(s@.take(n as int) =~= s@);
    }
    out
}

/// Formats one field for a row with the given separator, following the
/// quoting rule of `csv_escape`.
pub fn csv_format_single(v: &str, sep: char) -> (r: String)
    ensures
        r@ == csv_escape(v@, sep),
{
    if contains_char(v, sep) || contains_char(v, '"') {
        let mut out = String::from_str("\"");
        let esc = escape_quotes_exec(v);
        out.append(esc.as_str());
        out.append("\"");
        proof {
            reveal_strlit("\"");
            assert("\""@ =~= seq!['"']);
        }
        out
    } else {
        v.to_owned()
    }
}

/// Sequences joined by a single separator character.
pub open spec fn join_with(parts: Seq<Seq<char>>, sep: char) -> Seq<char>
    decreases parts.len(),
{
    if parts.len() == 0 {
        Seq::empty()
    } else if parts.len() == 1 {
        parts[0]
    } else {
        join_with(parts.drop_last(), sep) + seq![sep] + parts.last()
    }
}

/// Whether two strings hold the same characters.
pub fn str_eq(a: &str, b: &str) -> (r: bool)
    ensures
        r == (a@ == b@),
{
    let n = a.unicode_len();
    if n != b.unicode_len() {
        return false;
    }
    let mut i: usize = 0;
    while i < n
        invariant
            i <= n,
            n == a@.len(),
            n == b@.len(),
            forall|j: int| 0 <= j < i ==> a@[j] == b@[j],
        decreases n - i,
    {
        if a.get_char(i) != b.get_char(i) {
            return false;
        }
        i += 1;
    }
    proof {
        assert(a@ =~= b@);
    }
    true
}

/// The position of the first occurrence of a character.
pub open spec fn find_char(s: Seq<char>, c: char) -> Option<nat>
    decreases s.len(),
{
    if s.len() == 0 {
        None
    } else if s[0] == c {
        Some(0nat)
    } else {
        match find_char(s.drop_first(), c) {
            Some(i) => Some((i + 1) as nat),
            None => None,
        }
    }
}

proof fn lemma_find_char_at(s: Seq<char>, c: char, i: int)
    requires
        0 <= i < s.len(),
        s[i] == c,
        forall|j: int| 0 <= j < i ==> s[j] != c,
    ensures
        find_char(s, c) == Some(i as nat),
    decreases s.len(),
{
    if i == 0 {
    } else {
        assert forall|j: int| 0 <= j < i - 1 implies s.drop_first()[j] != c by {
            assert(s.drop_first()[j] == s[j + 1]);
        }
        assert(s.drop_first()[i - 1] == s[i]);
        lemma_find_char_at(s.drop_first(), c, i - 1);
    }
}

proof fn lemma_find_char_none(s: Seq<char>, c: char)
    requires
        forall|j: int| 0 <= j < s.len() ==> s[j] != c,
    ensures
        find_char(s, c) is None,
    decreases s.len(),
{
    if s.len() > 0 {
        assert forall|j: int| 0 <= j < s.drop_first().len() implies s.drop_first()[j] != c by {
            assert(s.drop_first()[j] == s[j + 1]);
        }
        lemma_find_char_none(s.drop_first(), c);
    }
}

/// Splits a string around the first occurrence of a character: the part
/// before and the part after, or the whole string when absent.
pub fn split_first(s: &str, c: char) -> (r: (String, Option<String>))
    ensures
        match find_char(s@, c) {
            Some(i) => r.0@ == s@.take(i as int) && match r.1 {
                Some(rest) => rest@ == s@.skip(i as int + 1),
                None => false,
            },
            None => r.0@ == s@ && r.1 is None,
        },
{
    let n = s.unicode_len();
    let mut i: usize = 0;
    while i < n
        invariant
            i <= n,
            n == s@.len(),
            forall|j: int| 0 <= j < i ==> s@[j] != c,
        decreases n - i,
    {
        if s.get_char(i) == c {
            proof {
                lemma_find_char_at(s@, c, i as int);
            }
            let before = s.substring_char(0, i).to_owned();
            let after = s.substring_char(i + 1, n).to_owned();
            proof {
                assert(before@ =~= s@.take(i as int));
                assert(after@ =~= s@.skip(i as int + 1));
            }
            return (before, Some(after));
        }
        i += 1;
    }
    proof {
        lemma_find_char_none(s@, c);
    }
    (s.to_owned(), None)
}

/// The decimal value of a digit string.
pub open spec fn is_dec_digits(s: Seq<char>) -> bool {
    s.len() >= 1 && forall|j: int| 0 <= j < s.len() ==> '0' <= #[trigger] s[j] <= '9'
}

/// The numeric value of a decimal digit string.
pub open spec fn dec_value(s: Seq<char>) -> nat
    decreases s.len(),
{
    if s.len() == 0 {
        0
    } else {
        (dec_value(s.drop_last()) * 10 + (s.last() as int - '0' as int)) as nat
    }
}

proof fn lemma_dec_value_grows(s: Seq<char>, i: int)
    requires
        0 <= i <= s.len(),
        forall|j: int| 0 <= j < s.len() ==> '0' <= #[trigger] s[j] <= '9',
    ensures
        dec_value(s.take(i)) <= dec_value(s),
    decreases s.len() - i,
{
    if i < s.len() {
        lemma_dec_value_grows(s, i + 1);
        assert(s.take(i + 1).drop_last() =~= s.take(i));
        assert(dec_value(s.take(i + 1)) == dec_value(s.take(i)) * 10 + (s.take(i + 1).last() as nat
            - '0' as nat));
        assert(dec_value(s.take(i)) * 10 >= dec_value(s.take(i))) by (nonlinear_arith);
        assert(s.take(s.len() as int) =~= s);
    } else {
        assert(s.take(s.len() as int) =~= s);
    }
}

/// Parses a decimal digit string into a `u64`: succeeds exactly on digit
/// strings whose value fits.
pub fn parse_dec_u64(s: &str) -> (r: Option<u64>)
    ensures
        match r {
            Some(v) => is_dec_digits(s@) && dec_value(s@) <= u64::MAX && v == dec_value(s@),
            None => !is_dec_digits(s@) || dec_value(s@) > u64::MAX,
        },
{
    let n = s.unicode_len();
    if n == 0 {
        return None;
    }
    let mut v: u64 = 0;
    let mut i: usize = 0;
    while i < n
        invariant
            i <= n,
            n == s@.len(),
            n >= 1,
            forall|j: int| 0 <= j < i ==> '0' <= #[trigger] s@[j] <= '9',
            v == dec_value(s@.take(i as int)),
        decreases n - i,
    {
        let c = s.get_char(i);
        if !('0' <= c && c <= '9') {
            return None;
        }
        let d = (c as u32 - '0' as u32) as u64;
        if v > (u64::MAX - d) / 10 {
            proof {
                assert(s@.take(i as int + 1).drop_last() =~= s@.take(i as int));
                assert(dec_value(s@.take(i as int + 1)) == v * 10 + d);
                assert(v * 10 + d > u64::MAX) by (nonlinear_arith)
                    requires
                        v > (u64::MAX as u64 - d) / 10,
                        d <= 9,
                ;
                if forall|j: int| 0 <= j < s@.len() ==> '0' <= #[trigger] s@[j] <= '9' {
                    lemma_dec_value_grows(s@, i as int + 1);
                }
            }
            return None;
        }
        v = v * 10 + d;
        proof {
            assert(s@.take(i as int + 1).drop_last() =~= s@.take(i as int));
            assert(s@.take(i as int + 1).last() == s@[i as int]);
        }
        i += 1;
    }
    proof {
        assert(s@.take(n as int) =~= s@);
    }
    Some(v)
}

/// The views of a list of strings, in order.
pub open spec fn strings_view(s: Seq<String>) -> Seq<Seq<char>> {
    s.map_values(|x: String| x@)
}

/// The tag of an operator-visible output line.
#[derive(Clone, Copy, Debug, PartialEq, Eq, Structural)]
pub enum Type {
    LogInfo,
    LogError,
    ConnectionEvent,
    SpanAlloc,
    SpanEvent,
    SpanPath,
    SpanData,
}

/// The textual form of an output line tag.
pub open spec fn tag_text(t: Type) -> Seq<char> {
    match t {
        Type::LogInfo => "LogInfo"@,
        Type::LogError => "LogError"@,
        Type::ConnectionEvent => "ConnectionEvent"@,
        Type::SpanAlloc => "SpanAlloc"@,
        Type::SpanEvent => "SpanEvent"@,
        Type::SpanPath => "SpanPath"@,
        Type::SpanData => "SpanData"@,
    }
}

/// One operator-visible line: `<TAG> [client=<idx>] <payload>`.
pub open spec fn broker_line_text(t: Type, client: Option<u64>, payload: Seq<char>) -> Seq<char> {
    match client {
        Some(idx) => tag_text(t) + " client="@ + decimal_digits(idx as nat) + " "@ + payload,
        None => tag_text(t) + " "@ + payload,
    }
}

/// Formats one operator-visible line with its tag and optional client index.
pub fn broker_line(t: Type, client: Option<u64>, payload: &str) -> (r: String)
    ensures
        r@ == broker_line_text(t, client, payload@),
{
    let mut out = match t {
        Type::LogInfo => String::from_str("LogInfo"),
        Type::LogError => String::from_str("LogError"),
        Type::ConnectionEvent => String::from_str("ConnectionEvent"),
        Type::SpanAlloc => String::from_str("SpanAlloc"),
        Type::SpanEvent => String::from_str("SpanEvent"),
        Type::SpanPath => String::from_str("SpanPath"),
        Type::SpanData => String::from_str("SpanData"),
    };
    match client {
        Some(idx) => {
            out.append(" client=");
            let d = u64_to_string(idx);
            out.append(d.as_str());
            out.append(" ");
        },
        None => {
            out.append(" ");
        },
    }
    out.append(payload);
    out
}

} // verus!
