//! The JSON request/response envelope codec.
//!
//! A request is the fixed envelope
//! `{"Type": ..., "Value": {"MessageType": ..., "MessageData":
//! {"BeatmapFile": <string>, "RulesetId": <uint8>, "Mods": <uint32>}}}`;
//! a response wraps `{"StarRating": <number>}` in the same outer shape.
//! The decoder is written against an explicit specification-level parser
//! over character sequences, and the encoder against a specification-level
//! printer, so that the round trip between them is a proved theorem.
//!
//! The decoder accepts the envelope as the peer's serializer emits it:
//! members in the fixed order above, optional JSON whitespace between
//! tokens, string values with the single-character escape sequences, and
//! non-negative decimal integers.

use vstd::prelude::*;
use vstd::string::StrSliceExecFns;

verus! {

/// Content-level failures: bytes arrived but did not decode to a request.
/// The connection is closed without a response.
#[derive(Clone, Copy, Debug, PartialEq, Eq, Structural)]
pub enum DecodeError {
    /// The payload bytes are not valid UTF-8.
    InvalidUtf8,
    /// The text is not well-formed JSON (in the accepted grammar).
    InvalidJson,
    /// The text is JSON but not the request envelope schema.
    SchemaMismatch,
}

/// The outer IPC envelope; `type_field` is a protocol constant echoed for
/// compatibility and carries no behaviour.
#[derive(Debug, Clone, PartialEq)]
pub struct OsuIpcMessage<T> {
    pub type_field: String,
    pub value: ValueIpc<T>,
}

/// The inner envelope: a message kind tag and its payload.
#[derive(Debug, Clone, PartialEq)]
pub struct ValueIpc<T> {
    pub message_type: String,
    pub message_data: T,
}

/// The request payload: which beatmap to rate, under which ruleset, with
/// which mods.
#[derive(Debug, Clone, PartialEq)]
pub struct OsuMessageData {
    pub beatmap_file: String,
    pub ruleset_id: u8,
    pub mods: u32,
}

/// The response payload. The star rating travels as the JSON number
/// literal that will be spliced into the response text; the process
/// boundary formats the engine's numeric result into it, so no
/// floating-point value crosses the verified code.
#[derive(Debug, Clone, PartialEq)]
pub struct OsuResponse {
    pub star_rating: String,
}

/// The mathematical content of a request payload.
#[verifier::ext_equal]
pub ghost struct ReqFields {
    pub file: Seq<char>,
    pub ruleset_id: u8,
    pub mods: u32,
}

impl View for OsuMessageData {
    type V = ReqFields;

    open spec fn view(&self) -> ReqFields {
        ReqFields { file: self.beatmap_file@, ruleset_id: self.ruleset_id, mods: self.mods }
    }
}

/// JSON insignificant whitespace.
pub open spec fn is_ws(c: char) -> bool {
    c == ' ' || c == '\n' || c == '\r' || c == '\t'
}

/// The first index at or after `i` holding a non-whitespace character.
pub open spec fn skip_ws(s: Seq<char>, i: int) -> int
    decreases s.len() - i,
{
    if 0 <= i < s.len() && is_ws(s[i]) {
        skip_ws(s, i + 1)
    } else {
        i
    }
}

/// True when `s[i]` exists and is `c`.
pub open spec fn at_char(s: Seq<char>, i: int, c: char) -> bool {
    0 <= i < s.len() && s[i] == c
}

/// The character an escape code after a backslash stands for.
pub open spec fn unescape(c: char) -> Option<char> {
    if c == '"' {
        Some('"')
    } else if c == '\\' {
        Some('\\')
    } else if c == '/' {
        Some('/')
    } else if c == 'n' {
        Some('\n')
    } else if c == 't' {
        Some('\t')
    } else if c == 'r' {
        Some('\r')
    } else if c == 'b' {
        Some('\u{8}')
    } else if c == 'f' {
        Some('\u{c}')
    } else {
        None
    }
}

/// Parses the body of a JSON string starting just after the opening quote:
/// the decoded content and the index just past the closing quote, or `None`
/// when the string is unterminated, holds an unknown escape, or holds an
/// unescaped control character.
pub open spec fn parse_string_body(s: Seq<char>, i: int) -> Option<(Seq<char>, int)>
    decreases s.len() - i,
{
    if i < 0 || i >= s.len() {
        None
    } else if s[i] == '"' {
        Some((Seq::empty(), i + 1))
    } else if s[i] == '\\' {
        if i + 1 < s.len() && unescape(s[i + 1]) is Some {
            match parse_string_body(s, i + 2) {
                Some(r) => Some((seq![unescape(s[i + 1])->0] + r.0, r.1)),
                None => None,
            }
        } else {
            None
        }
    } else if (s[i] as u32) < 0x20 {
        None
    } else {
        match parse_string_body(s, i + 1) {
            Some(r) => Some((seq![s[i]] + r.0, r.1)),
            None => None,
        }
    }
}

/// True for a decimal digit.
pub open spec fn is_digit(c: char) -> bool {
    '0' <= c && c <= '9'
}

pub open spec fn digit_val(c: char) -> int {
    c as int - '0' as int
}

/// Consumes digits from `i`, folding them onto `acc`; yields the value and
/// the index of the first non-digit.
pub open spec fn parse_digits(s: Seq<char>, i: int, acc: int) -> (int, int)
    decreases s.len() - i,
{
    if 0 <= i < s.len() && is_digit(s[i]) {
        parse_digits(s, i + 1, acc * 10 + digit_val(s[i]))
    } else {
        (acc, i)
    }
}

/// Parses a non-negative JSON integer at `i`: its value and end index.
/// A leading zero is the whole number, as JSON requires.
pub open spec fn parse_number(s: Seq<char>, i: int) -> Option<(int, int)> {
    if 0 <= i < s.len() && is_digit(s[i]) {
        if s[i] == '0' {
            Some((0, i + 1))
        } else {
            Some(parse_digits(s, i, 0))
        }
    } else {
        None
    }
}

pub proof fn lemma_parse_digits_bounds(s: Seq<char>, i: int, acc: int)
    requires
        0 <= i,
        acc >= 0,
    ensures
        parse_digits(s, i, acc).0 >= acc,
        i <= parse_digits(s, i, acc).1 <= if i <= s.len() { s.len() as int } else { i },
    decreases s.len() - i,
{
    if 0 <= i < s.len() && is_digit(s[i]) {
        lemma_parse_digits_bounds(s, i + 1, acc * 10 + digit_val(s[i]));
    }
}

fn is_ws_exec(c: char) -> (b: bool)
    ensures
        b == is_ws(c),
{
    c == ' ' || c == '\n' || c == '\r' || c == '\t'
}

fn skip_ws_exec(s: &Vec<char>, i: usize) -> (r: usize)
    requires
        i <= s@.len(),
    ensures
        r as int == skip_ws(s@, i as int),
        i <= r <= s@.len(),
{
    let mut j = i;
    loop
        invariant
            i <= j <= s@.len(),
            skip_ws(s@, i as int) == skip_ws(s@, j as int),
        decreases s@.len() - j,
    {
        if j < s.len() && is_ws_exec(s[j]) {
            proof {
                assert(skip_ws(s@, j as int) == skip_ws(s@, j as int + 1));
            }
            j = j + 1;
        } else {
            proof {
                assert(skip_ws(s@, j as int) == j as int);
            }
            return j;
        }
    }
}

fn unescape_exec(c: char) -> (r: Option<char>)
    ensures
        r == unescape(c),
{
    if c == '"' {
        Some('"')
    } else if c == '\\' {
        Some('\\')
    } else if c == '/' {
        Some('/')
    } else if c == 'n' {
        Some('\n')
    } else if c == 't' {
        Some('\t')
    } else if c == 'r' {
        Some('\r')
    } else if c == 'b' {
        Some('\u{8}')
    } else if c == 'f' {
        Some('\u{c}')
    } else {
        None
    }
}

fn parse_string_body_exec(s: &Vec<char>, start: usize) -> (r: Option<(Vec<char>, usize)>)
    requires
        start <= s@.len(),
    ensures
        match r {
            Some(p) => {
                &&& parse_string_body(s@, start as int) == Some((p.0@, p.1 as int))
                &&& start < p.1 <= s@.len()
            },
            None => parse_string_body(s@, start as int) is None,
        },
{
    let mut acc: Vec<char> = Vec::new();
    let mut i = start;
    loop
        invariant
            start <= i <= s@.len(),
            ({
                match parse_string_body(s@, i as int) {
                    Some(r2) => parse_string_body(s@, start as int) == Some((acc@ + r2.0, r2.1)),
                    None => parse_string_body(s@, start as int) is None,
                }
            }),
        decreases s@.len() - i,
    {
        if i >= s.len() {
            return None;
        }
        let c = s[i];
        if c == '"' {
            proof {
                assert(parse_string_body(s@, i as int) == Some(
                    (Seq::<char>::empty(), i as int + 1),
                ));
                assert(acc@ + Seq::<char>::empty() =~= acc@);
            }
            return Some((acc, i + 1));
        } else if c == '\\' {
            if i + 1 < s.len() {
                let e = unescape_exec(s[i + 1]);
                match e {
                    Some(u) => {
                        proof {
                            let ghost old_acc = acc@;
                            match parse_string_body(s@, i as int + 2) {
                                Some(r3) => {
                                    assert(parse_string_body(s@, i as int) == Some(
                                        (seq![u] + r3.0, r3.1),
                                    ));
                                    assert(old_acc + (seq![u] + r3.0) =~= (old_acc + seq![u])
                                        + r3.0);
                                },
                                None => {
                                    assert(parse_string_body(s@, i as int) is None);
                                },
                            }
                        }
                        acc.push(u);
                        i = i + 2;
                    },
                    None => {
                        return None;
                    },
                }
            } else {
                return None;
            }
        } else if (c as u32) < 0x20 {
            return None;
        } else {
            proof {
                match parse_string_body(s@, i as int + 1) {
                    Some(r3) => {
                        assert(parse_string_body(s@, i as int) == Some((seq![c] + r3.0, r3.1)));
                        assert(acc@ + (seq![c] + r3.0) =~= (acc@ + seq![c]) + r3.0);
                    },
                    None => {
                        assert(parse_string_body(s@, i as int) is None);
                    },
                }
            }
            acc.push(c);
            i = i + 1;
        }
    }
}

/// The result of scanning a JSON integer in executable code.
enum NumScan {
    /// The value (it fits in 32 bits unsigned) and the end index.
    Val(u32, usize),
    /// A well-formed number too large for any field of the schema.
    TooBig,
    /// No digit at the scan position.
    NotNum,
}

fn parse_number_exec(s: &Vec<char>, start: usize) -> (r: NumScan)
    requires
        start <= s@.len(),
    ensures
        match r {
            NumScan::Val(v, j) => {
                &&& parse_number(s@, start as int) == Some((v as int, j as int))
                &&& start < j <= s@.len()
            },
            NumScan::TooBig => {
                &&& parse_number(s@, start as int) is Some
                &&& (parse_number(s@, start as int)->0).0 > 0xffff_ffff
            },
            NumScan::NotNum => parse_number(s@, start as int) is None,
        },
{
    if start >= s.len() || !(s[start] >= '0' && s[start] <= '9') {
        return NumScan::NotNum;
    }
    if s[start] == '0' {
        return NumScan::Val(0, start + 1);
    }
    let mut acc: u64 = 0;
    let mut j = start;
    loop
        invariant
            start <= j <= s@.len(),
            acc <= 0xffff_ffff,
            parse_digits(s@, start as int, 0) == parse_digits(s@, j as int, acc as int),
            parse_number(s@, start as int) == Some(parse_digits(s@, start as int, 0)),
        decreases s@.len() - j,
    {
        if j < s.len() && s[j] >= '0' && s[j] <= '9' {
            let d = (s[j] as u32) - ('0' as u32);
            proof {
                assert(is_digit(s@[j as int]));
                assert(d == digit_val(s@[j as int]));
                assert(parse_digits(s@, j as int, acc as int) == parse_digits(
                    s@,
                    j as int + 1,
                    acc as int * 10 + digit_val(s@[j as int]),
                ));
            }
            let next = acc * 10 + (d as u64);
            if next > 0xffff_ffff {
                proof {
                    lemma_parse_digits_bounds(s@, j as int + 1, next as int);
                }
                return NumScan::TooBig;
            }
            acc = next;
            j = j + 1;
        } else {
            proof {
                assert(parse_digits(s@, j as int, acc as int) == (acc as int, j as int));
            }
            return NumScan::Val(acc as u32, j);
        }
    }
}

/// Parses an object key: a JSON string starting at `i`.
pub open spec fn parse_key(s: Seq<char>, i: int) -> Option<(Seq<char>, int)> {
    if at_char(s, i, '"') {
        parse_string_body(s, i + 1)
    } else {
        None
    }
}

/// Parses `"<key>" :` from `i` (with optional whitespace around the
/// tokens); yields the index just past the colon. A malformed key is
/// [`DecodeError::InvalidJson`]; a well-formed key other than `key` is
/// [`DecodeError::SchemaMismatch`].
pub open spec fn parse_member_prefix(s: Seq<char>, i: int, key: Seq<char>) -> Result<
    int,
    DecodeError,
> {
    let j = skip_ws(s, i);
    match parse_key(s, j) {
        None => Err(DecodeError::InvalidJson),
        Some(kv) => if kv.0 != key {
            Err(DecodeError::SchemaMismatch)
        } else {
            let j2 = skip_ws(s, kv.1);
            if at_char(s, j2, ':') {
                Ok(j2 + 1)
            } else {
                Err(DecodeError::InvalidJson)
            }
        },
    }
}

/// Parses a member whose value must be a JSON string; yields the decoded
/// value and the index just past its closing quote.
pub open spec fn parse_member_string(s: Seq<char>, i: int, key: Seq<char>) -> Result<
    (Seq<char>, int),
    DecodeError,
> {
    match parse_member_prefix(s, i, key) {
        Err(e) => Err(e),
        Ok(j) => {
            let j2 = skip_ws(s, j);
            if at_char(s, j2, '"') {
                match parse_string_body(s, j2 + 1) {
                    Some(v) => Ok(v),
                    None => Err(DecodeError::InvalidJson),
                }
            } else {
                Err(DecodeError::SchemaMismatch)
            }
        },
    }
}

/// Parses a member whose value must be a non-negative JSON integer.
pub open spec fn parse_member_number(s: Seq<char>, i: int, key: Seq<char>) -> Result<
    (int, int),
    DecodeError,
> {
    match parse_member_prefix(s, i, key) {
        Err(e) => Err(e),
        Ok(j) => {
            let j2 = skip_ws(s, j);
            match parse_number(s, j2) {
                Some(v) => Ok(v),
                None => Err(DecodeError::SchemaMismatch),
            }
        },
    }
}

/// Parses a member whose value must be an object; yields the index just
/// past the opening brace.
pub open spec fn parse_member_object(s: Seq<char>, i: int, key: Seq<char>) -> Result<
    int,
    DecodeError,
> {
    match parse_member_prefix(s, i, key) {
        Err(e) => Err(e),
        Ok(j) => {
            let j2 = skip_ws(s, j);
            if at_char(s, j2, '{') {
                Ok(j2 + 1)
            } else {
                Err(DecodeError::SchemaMismatch)
            }
        },
    }
}

/// The whole-request parser: the request envelope with its three nested
/// objects and five members in their fixed order, then the end of input.
/// Trailing bytes after the closing braces (for instance NUL padding
/// counted into the frame length) are a decode failure, never stripped.
pub open spec fn spec_parse_request(s: Seq<char>) -> Result<ReqFields, DecodeError> {
    let i0 = skip_ws(s, 0);
    if !at_char(s, i0, '{') {
        Err(DecodeError::InvalidJson)
    } else {
        match parse_member_string(s, i0 + 1, "Type"@) {
            Err(e) => Err(e),
            Ok(tv) => {
                let c1 = skip_ws(s, tv.1);
                if !at_char(s, c1, ',') {
                    Err(DecodeError::InvalidJson)
                } else {
                    match parse_member_object(s, c1 + 1, "Value"@) {
                        Err(e) => Err(e),
                        Ok(j1) => spec_parse_value(s, j1),
                    }
                }
            },
        }
    }
}

/// Parses the inner envelope members, from just past the opening brace of
/// the `Value` object.
pub open spec fn spec_parse_value(s: Seq<char>, i: int) -> Result<ReqFields, DecodeError> {
    match parse_member_string(s, i, "MessageType"@) {
        Err(e) => Err(e),
        Ok(mt) => {
            let c2 = skip_ws(s, mt.1);
            if !at_char(s, c2, ',') {
                Err(DecodeError::InvalidJson)
            } else {
                match parse_member_object(s, c2 + 1, "MessageData"@) {
                    Err(e) => Err(e),
                    Ok(j2) => spec_parse_data(s, j2),
                }
            }
        },
    }
}

/// Parses the three payload members and the closing braces, from just past
/// the opening brace of `MessageData`.
pub open spec fn spec_parse_data(s: Seq<char>, i: int) -> Result<ReqFields, DecodeError> {
    match parse_member_string(s, i, "BeatmapFile"@) {
        Err(e) => Err(e),
        Ok(bf) => {
            let c3 = skip_ws(s, bf.1);
            if !at_char(s, c3, ',') {
                Err(DecodeError::InvalidJson)
            } else {
                match parse_member_number(s, c3 + 1, "RulesetId"@) {
                    Err(e) => Err(e),
                    Ok(rv) => if rv.0 > 255 {
                        Err(DecodeError::SchemaMismatch)
                    } else {
                        let c4 = skip_ws(s, rv.1);
                        if !at_char(s, c4, ',') {
                            Err(DecodeError::InvalidJson)
                        } else {
                            match parse_member_number(s, c4 + 1, "Mods"@) {
                                Err(e) => Err(e),
                                Ok(mv) => if mv.0 > 0xffff_ffff {
                                    Err(DecodeError::SchemaMismatch)
                                } else {
                                    let e1 = skip_ws(s, mv.1);
                                    if !at_char(s, e1, '}') {
                                        Err(DecodeError::InvalidJson)
                                    } else {
                                        let e2 = skip_ws(s, e1 + 1);
                                        if !at_char(s, e2, '}') {
                                            Err(DecodeError::InvalidJson)
                                        } else {
                                            let e3 = skip_ws(s, e2 + 1);
                                            if !at_char(s, e3, '}') {
                                                Err(DecodeError::InvalidJson)
                                            } else {
                                                let e4 = skip_ws(s, e3 + 1);
                                                if e4 != s.len() {
                                                    Err(DecodeError::InvalidJson)
                                                } else {
                                                    Ok(
                                                        ReqFields {
                                                            file: bf.0,
                                                            ruleset_id: rv.0 as u8,
                                                            mods: mv.0 as u32,
                                                        },
                                                    )
                                                }
                                            }
                                        }
                                    }
                                },
                            }
                        }
                    },
                }
            }
        },
    }
}

fn chars_eq_str(v: &Vec<char>, s: &str) -> (b: bool)
    ensures
        b == (v@ == s@),
{
    let n = s.unicode_len();
    if v.len() != n {
        proof {
            assert(v@.len() != s@.len());
        }
        return false;
    }
    let mut i: usize = 0;
    while i < n
        invariant
            n == s@.len(),
            v@.len() == n,
            i <= n,
            forall|k: int| 0 <= k < i ==> v@[k] == s@[k],
        decreases n - i,
    {
        if v[i] != s.get_char(i) {
            return false;
        }
        i = i + 1;
    }
    proof {
        assert(v@ =~= s@);
    }
    true
}

fn member_prefix(s: &Vec<char>, i: usize, key: &str) -> (r: Result<usize, DecodeError>)
    requires
        i <= s@.len(),
    ensures
        match r {
            Ok(j) => parse_member_prefix(s@, i as int, key@) == Ok::<int, DecodeError>(j as int)
                && j <= s@.len(),
            Err(e) => parse_member_prefix(s@, i as int, key@) == Err::<int, DecodeError>(e),
        },
{
    let j = skip_ws_exec(s, i);
    if !(j < s.len() && s[j] == '"') {
        return Err(DecodeError::InvalidJson);
    }
    match parse_string_body_exec(s, j + 1) {
        None => Err(DecodeError::InvalidJson),
        Some((kv, j1)) => {
            if !chars_eq_str(&kv, key) {
                return Err(DecodeError::SchemaMismatch);
            }
            let j2 = skip_ws_exec(s, j1);
            if j2 < s.len() && s[j2] == ':' {
                Ok(j2 + 1)
            } else {
                Err(DecodeError::InvalidJson)
            }
        },
    }
}

fn member_string(s: &Vec<char>, i: usize, key: &str) -> (r: Result<(Vec<char>, usize), DecodeError>)
    requires
        i <= s@.len(),
    ensures
        match r {
            Ok(p) => parse_member_string(s@, i as int, key@) == Ok::<(Seq<char>, int), DecodeError>(
                (p.0@, p.1 as int),
            ) && p.1 <= s@.len(),
            Err(e) => parse_member_string(s@, i as int, key@) == Err::<
                (Seq<char>, int),
                DecodeError,
            >(e),
        },
{
    let j = match member_prefix(s, i, key) {
        Ok(j) => j,
        Err(e) => {
            return Err(e);
        },
    };
    let j2 = skip_ws_exec(s, j);
    if !(j2 < s.len() && s[j2] == '"') {
        return Err(DecodeError::SchemaMismatch);
    }
    match parse_string_body_exec(s, j2 + 1) {
        Some(p) => Ok(p),
        None => Err(DecodeError::InvalidJson),
    }
}

fn member_number(s: &Vec<char>, i: usize, key: &str) -> (r: Result<(u32, usize), DecodeError>)
    requires
        i <= s@.len(),
    ensures
        match r {
            Ok(p) => parse_member_number(s@, i as int, key@) == Ok::<(int, int), DecodeError>(
                (p.0 as int, p.1 as int),
            ) && p.1 <= s@.len(),
            Err(e) => parse_member_number(s@, i as int, key@) == Err::<(int, int), DecodeError>(e)
                || (e == DecodeError::SchemaMismatch && (parse_member_number(s@, i as int, key@)
                matches Ok(v) && v.0 > 0xffff_ffff)),
        },
{
    let j = match member_prefix(s, i, key) {
        Ok(j) => j,
        Err(e) => {
            return Err(e);
        },
    };
    let j2 = skip_ws_exec(s, j);
    match parse_number_exec(s, j2) {
        NumScan::Val(v, j3) => Ok((v, j3)),
        NumScan::TooBig => Err(DecodeError::SchemaMismatch),
        NumScan::NotNum => Err(DecodeError::SchemaMismatch),
    }
}

fn member_object(s: &Vec<char>, i: usize, key: &str) -> (r: Result<usize, DecodeError>)
    requires
        i <= s@.len(),
    ensures
        match r {
            Ok(j) => parse_member_object(s@, i as int, key@) == Ok::<int, DecodeError>(j as int)
                && j <= s@.len(),
            Err(e) => parse_member_object(s@, i as int, key@) == Err::<int, DecodeError>(e),
        },
{
    let j = match member_prefix(s, i, key) {
        Ok(j) => j,
        Err(e) => {
            return Err(e);
        },
    };
    let j2 = skip_ws_exec(s, j);
    if j2 < s.len() && s[j2] == '{' {
        Ok(j2 + 1)
    } else {
        Err(DecodeError::SchemaMismatch)
    }
}

fn str_chars(s: &str) -> (r: Vec<char>)
    ensures
        r@ == s@,
{
    let n = s.unicode_len();
    let mut v: Vec<char> = Vec::new();
    let mut i: usize = 0;
    while i < n
        invariant
            i <= n,
            n == s@.len(),
            v@ =~= s@.subrange(0, i as int),
        decreases n - i,
    {
        let c = s.get_char(i);
        v.push(c);
        i = i + 1;
    }
    proof {
        assert(v@ =~= s@);
    }
    v
}

/// Relies on `String`'s `FromIterator<char>`: collecting an iterator of
/// characters yields exactly those characters in order.
#[verifier::external_body]
fn chars_to_string(v: &Vec<char>) -> (r: String)
    ensures
        r@ == v@,
{
    v.iter().collect()
}

/// Decodes a request envelope from its JSON text, yielding exactly what
/// the specification-level parser [`spec_parse_request`] yields on the
/// same characters.
pub fn deserialize_message(json_str: &str) -> (r: Result<OsuMessageData, DecodeError>)
    ensures
        match r {
            Ok(m) => spec_parse_request(json_str@) == Ok::<ReqFields, DecodeError>(m@),
            Err(e) => spec_parse_request(json_str@) == Err::<ReqFields, DecodeError>(e),
        },
{
    let s = str_chars(json_str);
    let i0 = skip_ws_exec(&s, 0);
    if !(i0 < s.len() && s[i0] == '{') {
        return Err(DecodeError::InvalidJson);
    }
    let tv = match member_string(&s, i0 + 1, "Type") {
        Ok(v) => v,
        Err(e) => {
            return Err(e);
        },
    };
    let c1 = skip_ws_exec(&s, tv.1);
    if !(c1 < s.len() && s[c1] == ',') {
        return Err(DecodeError::InvalidJson);
    }
    let j1 = match member_object(&s, c1 + 1, "Value") {
        Ok(v) => v,
        Err(e) => {
            return Err(e);
        },
    };
    let mt = match member_string(&s, j1, "MessageType") {
        Ok(v) => v,
        Err(e) => {
            return Err(e);
        },
    };
    let c2 = skip_ws_exec(&s, mt.1);
    if !(c2 < s.len() && s[c2] == ',') {
        return Err(DecodeError::InvalidJson);
    }
    let j2 = match member_object(&s, c2 + 1, "MessageData") {
        Ok(v) => v,
        Err(e) => {
            return Err(e);
        },
    };
    let bf = match member_string(&s, j2, "BeatmapFile") {
        Ok(v) => v,
        Err(e) => {
            return Err(e);
        },
    };
    let c3 = skip_ws_exec(&s, bf.1);
    if !(c3 < s.len() && s[c3] == ',') {
        return Err(DecodeError::InvalidJson);
    }
    let rv = match member_number(&s, c3 + 1, "RulesetId") {
        Ok(v) => v,
        Err(e) => {
            return Err(e);
        },
    };
    if rv.0 > 255 {
        return Err(DecodeError::SchemaMismatch);
    }
    let c4 = skip_ws_exec(&s, rv.1);
    if !(c4 < s.len() && s[c4] == ',') {
        return Err(DecodeError::InvalidJson);
    }
    let mv = match member_number(&s, c4 + 1, "Mods") {
        Ok(v) => v,
        Err(e) => {
            return Err(e);
        },
    };
    let e1 = skip_ws_exec(&s, mv.1);
    if !(e1 < s.len() && s[e1] == '}') {
        return Err(DecodeError::InvalidJson);
    }
    let e2 = skip_ws_exec(&s, e1 + 1);
    if !(e2 < s.len() && s[e2] == '}') {
        return Err(DecodeError::InvalidJson);
    }
    let e3 = skip_ws_exec(&s, e2 + 1);
    if !(e3 < s.len() && s[e3] == '}') {
        return Err(DecodeError::InvalidJson);
    }
    let e4 = skip_ws_exec(&s, e3 + 1);
    if e4 != s.len() {
        return Err(DecodeError::InvalidJson);
    }
    let beatmap_file = chars_to_string(&bf.0);
    Ok(OsuMessageData { beatmap_file, ruleset_id: rv.0 as u8, mods: mv.0 })
}

/// How one character appears inside an encoded JSON string: quotes and
/// backslashes escaped, the common control characters as their short
/// escapes, everything else as itself.
pub open spec fn spec_escape_char(c: char) -> Seq<char> {
    if c == '"' {
        seq!['\\', '"']
    } else if c == '\\' {
        seq!['\\', '\\']
    } else if c == '\n' {
        seq!['\\', 'n']
    } else if c == '\t' {
        seq!['\\', 't']
    } else if c == '\r' {
        seq!['\\', 'r']
    } else if c == '\u{8}' {
        seq!['\\', 'b']
    } else if c == '\u{c}' {
        seq!['\\', 'f']
    } else {
        seq![c]
    }
}

/// The body of the encoded JSON string for the given content.
pub open spec fn spec_escape(s: Seq<char>) -> Seq<char>
    decreases s.len(),
{
    if s.len() == 0 {
        Seq::empty()
    } else {
        spec_escape_char(s[0]) + spec_escape(s.drop_first())
    }
}

pub proof fn lemma_escape_snoc(t: Seq<char>, c: char)
    ensures
        spec_escape(t.push(c)) == spec_escape(t) + spec_escape_char(c),
    decreases t.len(),
{
    let s = t.push(c);
    if t.len() == 0 {
        assert(s.len() == 1 && s[0] == c);
        assert(s.drop_first() =~= Seq::<char>::empty());
        assert(spec_escape(s) == spec_escape_char(c) + spec_escape(Seq::<char>::empty()));
        assert(spec_escape_char(c) + Seq::<char>::empty() =~= spec_escape_char(c));
        assert(spec_escape(t) == Seq::<char>::empty());
        assert(Seq::<char>::empty() + spec_escape_char(c) =~= spec_escape_char(c));
        assert(spec_escape(s) =~= spec_escape(t) + spec_escape_char(c));
    } else {
        assert(s.drop_first() =~= t.drop_first().push(c));
        lemma_escape_snoc(t.drop_first(), c);
        assert(spec_escape_char(s[0]) + (spec_escape(t.drop_first()) + spec_escape_char(c)) =~= (
        spec_escape_char(t[0]) + spec_escape(t.drop_first())) + spec_escape_char(c));
        assert(spec_escape(s) =~= spec_escape(t) + spec_escape_char(c));
    }
}

/// The decimal digit character for a value below ten.
pub open spec fn digit_char(d: int) -> char {
    if d == 0 {
        '0'
    } else if d == 1 {
        '1'
    } else if d == 2 {
        '2'
    } else if d == 3 {
        '3'
    } else if d == 4 {
        '4'
    } else if d == 5 {
        '5'
    } else if d == 6 {
        '6'
    } else if d == 7 {
        '7'
    } else if d == 8 {
        '8'
    } else {
        '9'
    }
}

/// The decimal digit characters of a non-negative number, most
/// significant first.
pub open spec fn spec_uint_chars(n: int) -> Seq<char>
    decreases n,
{
    if n <= 9 {
        seq![digit_char(n)]
    } else {
        spec_uint_chars(n / 10) + seq![digit_char(n % 10)]
    }
}

fn digit_char_exec(d: u32) -> (c: char)
    requires
        d <= 9,
    ensures
        c == digit_char(d as int),
{
    match d {
        0 => '0',
        1 => '1',
        2 => '2',
        3 => '3',
        4 => '4',
        5 => '5',
        6 => '6',
        7 => '7',
        8 => '8',
        _ => '9',
    }
}

fn push_uint_chars(out: &mut Vec<char>, n: u32)
    ensures
        final(out)@ == old(out)@ + spec_uint_chars(n as int),
    decreases n,
{
    if n <= 9 {
        out.push(digit_char_exec(n));
        proof {
            assert(out@ =~= old(out)@ + spec_uint_chars(n as int));
        }
    } else {
        push_uint_chars(out, n / 10);
        out.push(digit_char_exec(n % 10));
        proof {
            assert(out@ =~= old(out)@ + spec_uint_chars(n as int));
        }
    }
}

fn push_escaped(out: &mut Vec<char>, s: &str)
    ensures
        final(out)@ == old(out)@ + spec_escape(s@),
{
    let n = s.unicode_len();
    let mut i: usize = 0;
    proof {
        assert(s@.subrange(0, 0) =~= Seq::<char>::empty());
        assert(out@ =~= out@ + spec_escape(s@.subrange(0, 0)));
    }
    while i < n
        invariant
            i <= n,
            n == s@.len(),
            out@ == old(out)@ + spec_escape(s@.subrange(0, i as int)),
        decreases n - i,
    {
        let c = s.get_char(i);
        proof {
            lemma_escape_snoc(s@.subrange(0, i as int), c);
            assert(s@.subrange(0, i as int + 1) =~= s@.subrange(0, i as int).push(c));
        }
        if c == '"' {
            out.push('\\');
            out.push('"');
        } else if c == '\\' {
            out.push('\\');
            out.push('\\');
        } else if c == '\n' {
            out.push('\\');
            out.push('n');
        } else if c == '\t' {
            out.push('\\');
            out.push('t');
        } else if c == '\r' {
            out.push('\\');
            out.push('r');
        } else if c == '\u{8}' {
            out.push('\\');
            out.push('b');
        } else if c == '\u{c}' {
            out.push('\\');
            out.push('f');
        } else {
            out.push(c);
        }
        proof {
            assert(out@ =~= old(out)@ + spec_escape(s@.subrange(0, i as int + 1)));
        }
        i = i + 1;
    }
    proof {
        assert(s@.subrange(0, n as int) =~= s@);
    }
}

fn push_str_chars(out: &mut Vec<char>, s: &str)
    ensures
        final(out)@ == old(out)@ + s@,
{
    let n = s.unicode_len();
    let mut i: usize = 0;
    while i < n
        invariant
            i <= n,
            n == s@.len(),
            out@ == old(out)@ + s@.subrange(0, i as int),
        decreases n - i,
    {
        let c = s.get_char(i);
        out.push(c);
        proof {
            assert(s@.subrange(0, i as int + 1) =~= s@.subrange(0, i as int).push(c));
            assert(out@ =~= old(out)@ + s@.subrange(0, i as int + 1));
        }
        i = i + 1;
    }
    proof {
        assert(s@.subrange(0, n as int) =~= s@);
    }
}

/// The message type tag a request envelope carries.
pub open spec fn request_message_type() -> Seq<char> {
    "LegacyIpcDifficultyCalculationRequest"@
}

/// The message type tag a response envelope carries.
pub open spec fn response_message_type() -> Seq<char> {
    "LegacyIpcDifficultyCalculationResponse"@
}

/// The outer type tag both envelopes carry.
pub open spec fn envelope_type() -> Seq<char> {
    "System.Object"@
}

/// The encoding of an object key and its separating colon.
pub open spec fn enc_key(key: Seq<char>) -> Seq<char> {
    seq!['"'] + key + seq!['"', ':']
}

/// The encoding of a member whose value is a string.
pub open spec fn enc_str_member(key: Seq<char>, val: Seq<char>) -> Seq<char> {
    enc_key(key) + seq!['"'] + spec_escape(val) + seq!['"']
}

/// The encoding of a member whose value is a non-negative integer.
pub open spec fn enc_num_member(key: Seq<char>, n: int) -> Seq<char> {
    enc_key(key) + spec_uint_chars(n)
}

/// The encoded payload members, with the three closing braces.
pub open spec fn spec_encode_data(f: ReqFields) -> Seq<char> {
    enc_str_member("BeatmapFile"@, f.file) + seq![','] + enc_num_member(
        "RulesetId"@,
        f.ruleset_id as int,
    ) + seq![','] + enc_num_member("Mods"@, f.mods as int) + seq!['}', '}', '}']
}

/// The encoded inner envelope, from just past the opening brace of the
/// `Value` object.
pub open spec fn spec_encode_value(f: ReqFields) -> Seq<char> {
    enc_str_member("MessageType"@, request_message_type()) + seq![','] + enc_key("MessageData"@)
        + seq!['{'] + spec_encode_data(f)
}

/// The canonical encoded request for a payload: the fixed envelope, the
/// beatmap path escaped, the two numbers in decimal, no whitespace.
pub open spec fn spec_encode_request(f: ReqFields) -> Seq<char> {
    seq!['{'] + enc_str_member("Type"@, envelope_type()) + seq![','] + enc_key("Value"@)
        + seq!['{'] + spec_encode_value(f)
}

/// The encoded response envelope: the two tags as escaped JSON strings,
/// the star rating spliced in as the number literal it already is.
pub open spec fn spec_encode_response(
    type_field: Seq<char>,
    message_type: Seq<char>,
    star_rating: Seq<char>,
) -> Seq<char> {
    "{\"Type\":\""@ + spec_escape(type_field) + "\",\"Value\":{\"MessageType\":\""@ + spec_escape(
        message_type,
    ) + "\",\"MessageData\":{\"StarRating\":"@ + star_rating + "}}}"@
}

fn push_key(out: &mut Vec<char>, key: &str)
    ensures
        final(out)@ == old(out)@ + enc_key(key@),
{
    out.push('"');
    push_str_chars(out, key);
    out.push('"');
    out.push(':');
    proof {
        assert(out@ =~= old(out)@ + enc_key(key@));
    }
}

fn push_str_member(out: &mut Vec<char>, key: &str, val: &str)
    ensures
        final(out)@ == old(out)@ + enc_str_member(key@, val@),
{
    push_key(out, key);
    out.push('"');
    push_escaped(out, val);
    out.push('"');
    proof {
        assert(out@ =~= old(out)@ + enc_str_member(key@, val@));
    }
}

fn push_num_member(out: &mut Vec<char>, key: &str, n: u32)
    ensures
        final(out)@ == old(out)@ + enc_num_member(key@, n as int),
{
    push_key(out, key);
    push_uint_chars(out, n);
    proof {
        assert(out@ =~= old(out)@ + enc_num_member(key@, n as int));
    }
}

/// Encodes a request payload into the canonical envelope text.
pub fn encode_request(data: &OsuMessageData) -> (r: String)
    ensures
        r@ == spec_encode_request(data@),
{
    let mut out: Vec<char> = Vec::new();
    out.push('{');
    push_str_member(&mut out, "Type", "System.Object");
    out.push(',');
    push_key(&mut out, "Value");
    out.push('{');
    push_str_member(&mut out, "MessageType", "LegacyIpcDifficultyCalculationRequest");
    out.push(',');
    push_key(&mut out, "MessageData");
    out.push('{');
    push_str_member(&mut out, "BeatmapFile", self_str(&data.beatmap_file));
    out.push(',');
    push_num_member(&mut out, "RulesetId", data.ruleset_id as u32);
    out.push(',');
    push_num_member(&mut out, "Mods", data.mods);
    out.push('}');
    out.push('}');
    out.push('}');
    proof {
        assert(out@ =~= seq!['{'] + enc_str_member("Type"@, envelope_type()) + seq![','] + enc_key(
            "Value"@,
        ) + seq!['{'] + (enc_str_member("MessageType"@, request_message_type()) + seq![',']
            + enc_key("MessageData"@) + seq!['{'] + (enc_str_member("BeatmapFile"@, data@.file)
            + seq![','] + enc_num_member("RulesetId"@, data@.ruleset_id as int) + seq![',']
            + enc_num_member("Mods"@, data@.mods as int) + seq!['}', '}', '}'])));
        assert(out@ =~= spec_encode_request(data@));
    }
    chars_to_string(&out)
}

/// Encodes a response message into the envelope text.
pub fn encode_response(msg: &OsuIpcMessage<OsuResponse>) -> (r: String)
    ensures
        r@ == spec_encode_response(
            msg.type_field@,
            msg.value.message_type@,
            msg.value.message_data.star_rating@,
        ),
{
    let mut out: Vec<char> = Vec::new();
    push_str_chars(&mut out, "{\"Type\":\"");
    push_escaped(&mut out, self_str(&msg.type_field));
    push_str_chars(&mut out, "\",\"Value\":{\"MessageType\":\"");
    push_escaped(&mut out, self_str(&msg.value.message_type));
    push_str_chars(&mut out, "\",\"MessageData\":{\"StarRating\":");
    push_str_chars(&mut out, self_str(&msg.value.message_data.star_rating));
    push_str_chars(&mut out, "}}}");
    proof {
        assert(out@ =~= spec_encode_response(
            msg.type_field@,
            msg.value.message_type@,
            msg.value.message_data.star_rating@,
        ));
    }
    chars_to_string(&out)
}

fn self_str(s: &String) -> (r: &str)
    ensures
        r@ == s@,
{
    s.as_str()
}

/// Characters the encoder writes into a JSON string unescaped.
pub open spec fn plain_char(c: char) -> bool {
    c != '"' && c != '\\' && (c as u32) >= 0x20
}

pub open spec fn plain_chars(t: Seq<char>) -> bool {
    forall|k: int| 0 <= k < t.len() ==> plain_char(#[trigger] t[k])
}

/// Characters the encoder can represent: anything outside the control
/// range, plus the control characters that have short escapes.
pub open spec fn encodable_char(c: char) -> bool {
    (c as u32) >= 0x20 || c == '\n' || c == '\t' || c == '\r' || c == '\u{8}' || c == '\u{c}'
}

pub open spec fn encodable_chars(t: Seq<char>) -> bool {
    forall|k: int| 0 <= k < t.len() ==> encodable_char(#[trigger] t[k])
}

pub proof fn lemma_plain_encodable(t: Seq<char>)
    requires
        plain_chars(t),
    ensures
        encodable_chars(t),
{
    assert forall|k: int| 0 <= k < t.len() implies encodable_char(#[trigger] t[k]) by {
        assert(plain_char(t[k]));
    }
}

/// Escaping a sequence of plain characters changes nothing.
pub proof fn lemma_escape_plain(t: Seq<char>)
    requires
        plain_chars(t),
    ensures
        spec_escape(t) == t,
    decreases t.len(),
{
    if t.len() == 0 {
        assert(spec_escape(t) =~= t);
    } else {
        assert(plain_char(t[0]));
        assert(spec_escape_char(t[0]) =~= seq![t[0]]);
        assert(plain_chars(t.drop_first())) by {
            assert forall|k: int| 0 <= k < t.drop_first().len() implies plain_char(
                #[trigger] t.drop_first()[k],
            ) by {
                assert(t.drop_first()[k] == t[k + 1]);
                assert(plain_char(t[k + 1]));
            }
        }
        lemma_escape_plain(t.drop_first());
        assert(spec_escape(t) =~= t);
    }
}

/// Parsing the escaped encoding of `t` followed by a closing quote yields
/// `t` back, with the position just past the quote.
pub proof fn lemma_parse_escaped_string(s: Seq<char>, pre: Seq<char>, t: Seq<char>, rest: Seq<char>)
    requires
        encodable_chars(t),
        s == pre + spec_escape(t) + seq!['"'] + rest,
    ensures
        parse_string_body(s, pre.len() as int) == Some(
            (t, pre.len() as int + spec_escape(t).len() as int + 1),
        ),
    decreases t.len(),
{
    let i = pre.len() as int;
    if t.len() == 0 {
        assert(spec_escape(t) =~= Seq::<char>::empty());
        assert(s[i] == '"');
        assert(parse_string_body(s, i) == Some((Seq::<char>::empty(), i + 1)));
        assert(Seq::<char>::empty() =~= t);
    } else {
        let c = t[0];
        let tt = t.drop_first();
        assert(encodable_char(c));
        assert(encodable_chars(tt)) by {
            assert forall|k: int| 0 <= k < tt.len() implies encodable_char(#[trigger] tt[k]) by {
                assert(tt[k] == t[k + 1]);
                assert(encodable_char(t[k + 1]));
            }
        }
        let e = spec_escape_char(c);
        assert(spec_escape(t) == e + spec_escape(tt));
        if e.len() == 1 {
            assert(e =~= seq![c]);
            assert(c != '"' && c != '\\' && (c as u32) >= 0x20);
            assert(s =~= (pre + seq![c]) + spec_escape(tt) + seq!['"'] + rest);
            lemma_parse_escaped_string(s, pre + seq![c], tt, rest);
            assert(s[i] == c);
            let end = i + 1 + spec_escape(tt).len() as int + 1;
            assert(parse_string_body(s, i + 1) == Some((tt, end)));
            assert(parse_string_body(s, i) == Some((seq![c] + tt, end)));
            assert(seq![c] + tt =~= t);
        } else {
            let x = e[1];
            assert(e[0] == '\\');
            assert(e =~= seq!['\\', x]);
            assert(unescape(x) == Some(c));
            assert(s =~= (pre + seq!['\\', x]) + spec_escape(tt) + seq!['"'] + rest);
            lemma_parse_escaped_string(s, pre + seq!['\\', x], tt, rest);
            assert(s[i] == '\\');
            assert(s[i + 1] == x);
            let end = i + 2 + spec_escape(tt).len() as int + 1;
            assert(parse_string_body(s, i + 2) == Some((tt, end)));
            assert(parse_string_body(s, i) == Some((seq![c] + tt, end)));
            assert(seq![c] + tt =~= t);
        }
    }
}

/// Ten to the power `k`.
pub open spec fn pow10(k: nat) -> int
    decreases k,
{
    if k == 0 {
        1
    } else {
        10 * pow10((k - 1) as nat)
    }
}

pub proof fn lemma_pow10_pos(k: nat)
    ensures
        pow10(k) >= 1,
    decreases k,
{
    if k > 0 {
        lemma_pow10_pos((k - 1) as nat);
    }
}

/// The decimal digits of a number are digits; the leading one of a
/// positive number is not zero.
pub proof fn lemma_uint_chars_digits(m: int)
    requires
        m >= 0,
    ensures
        spec_uint_chars(m).len() >= 1,
        forall|k: int|
            0 <= k < spec_uint_chars(m).len() ==> is_digit(#[trigger] spec_uint_chars(m)[k]),
        m >= 1 ==> spec_uint_chars(m)[0] != '0',
    decreases m,
{
    if m <= 9 {
    } else {
        lemma_uint_chars_digits(m / 10);
        assert(spec_uint_chars(m) == spec_uint_chars(m / 10) + seq![digit_char(m % 10)]);
        assert forall|k: int| 0 <= k < spec_uint_chars(m).len() implies is_digit(
            #[trigger] spec_uint_chars(m)[k],
        ) by {
            if k < spec_uint_chars(m / 10).len() {
                assert(spec_uint_chars(m)[k] == spec_uint_chars(m / 10)[k]);
            } else {
                assert(spec_uint_chars(m)[k] == digit_char(m % 10));
            }
        }
        assert(spec_uint_chars(m)[0] == spec_uint_chars(m / 10)[0]);
    }
}

/// Folding the digit block of `m` onto an accumulator multiplies the
/// accumulator past the block and adds `m`.
pub proof fn lemma_parse_digits_chunk(
    s: Seq<char>,
    pre: Seq<char>,
    m: int,
    rest: Seq<char>,
    acc: int,
)
    requires
        m >= 0,
        acc >= 0,
        s == pre + spec_uint_chars(m) + rest,
    ensures
        parse_digits(s, pre.len() as int, acc) == parse_digits(
            s,
            pre.len() as int + spec_uint_chars(m).len() as int,
            acc * pow10(spec_uint_chars(m).len() as nat) + m,
        ),
    decreases m,
{
    let i = pre.len() as int;
    let l = spec_uint_chars(m).len() as int;
    lemma_pow10_pos(spec_uint_chars(m).len() as nat);
    if m <= 9 {
        assert(s[i] == digit_char(m));
        assert(is_digit(digit_char(m)));
        assert(digit_val(digit_char(m)) == m);
        assert(parse_digits(s, i, acc) == parse_digits(s, i + 1, acc * 10 + m));
        assert(pow10(1) == 10 * pow10(0));
        assert(acc * pow10(1nat) + m == acc * 10 + m) by (nonlinear_arith)
            requires
                pow10(1nat) == 10,
        ;
    } else {
        let hi = m / 10;
        let d = m % 10;
        vstd::arithmetic::div_mod::lemma_fundamental_div_mod(m, 10);
        assert(spec_uint_chars(m) == spec_uint_chars(hi) + seq![digit_char(d)]);
        assert(s =~= pre + spec_uint_chars(hi) + (seq![digit_char(d)] + rest));
        lemma_parse_digits_chunk(s, pre, hi, seq![digit_char(d)] + rest, acc);
        let l1 = spec_uint_chars(hi).len() as int;
        let a = acc * pow10(spec_uint_chars(hi).len() as nat) + hi;
        lemma_pow10_pos(spec_uint_chars(hi).len() as nat);
        assert(a >= 0) by (nonlinear_arith)
            requires
                a == acc * pow10(spec_uint_chars(hi).len() as nat) + hi,
                acc >= 0,
                hi >= 0,
                pow10(spec_uint_chars(hi).len() as nat) >= 1,
        ;
        assert(s[i + l1] == digit_char(d));
        assert(is_digit(digit_char(d)));
        assert(digit_val(digit_char(d)) == d);
        assert(parse_digits(s, i + l1, a) == parse_digits(s, i + l1 + 1, a * 10 + d));
        assert(l == l1 + 1);
        assert(pow10((l1 + 1) as nat) == 10 * pow10(l1 as nat));
        assert(a * 10 + d == acc * pow10((l1 + 1) as nat) + m) by (nonlinear_arith)
            requires
                a == acc * pow10(l1 as nat) + hi,
                pow10((l1 + 1) as nat) == 10 * pow10(l1 as nat),
                m == 10 * hi + d,
        ;
    }
}

/// Parsing the decimal encoding of `m`, followed by anything that is not
/// a digit, yields `m` back.
pub proof fn lemma_parse_number_encoding(s: Seq<char>, pre: Seq<char>, m: int, rest: Seq<char>)
    requires
        m >= 0,
        s == pre + spec_uint_chars(m) + rest,
        rest.len() >= 1,
        !is_digit(rest[0]),
    ensures
        parse_number(s, pre.len() as int) == Some(
            (m, pre.len() as int + spec_uint_chars(m).len() as int),
        ),
{
    let i = pre.len() as int;
    let l = spec_uint_chars(m).len() as int;
    lemma_uint_chars_digits(m);
    assert(s[i] == spec_uint_chars(m)[0]);
    assert(is_digit(s[i]));
    assert(s[i + l] == rest[0]);
    if m == 0 {
        assert(spec_uint_chars(0) =~= seq!['0']);
        assert(s[i] == '0');
        assert(parse_number(s, i) == Some((0int, i + 1)));
    } else {
        assert(s[i] != '0');
        lemma_parse_digits_chunk(s, pre, m, rest, 0);
        lemma_pow10_pos(spec_uint_chars(m).len() as nat);
        assert(0 * pow10(spec_uint_chars(m).len() as nat) + m == m) by (nonlinear_arith);
        assert(parse_digits(s, i + l, m) == (m, i + l));
        assert(parse_number(s, i) == Some((m, i + l)));
    }
}

/// Parsing the encoding of a key and its colon succeeds and lands just
/// past the colon.
pub proof fn lemma_parse_member_prefix_enc(
    s: Seq<char>,
    pre: Seq<char>,
    key: Seq<char>,
    rest: Seq<char>,
)
    requires
        plain_chars(key),
        s == pre + enc_key(key) + rest,
    ensures
        parse_member_prefix(s, pre.len() as int, key) == Ok::<int, DecodeError>(
            pre.len() as int + key.len() as int + 3,
        ),
{
    let i = pre.len() as int;
    assert(s[i] == '"');
    assert(!is_ws(s[i]));
    assert(skip_ws(s, i) == i);
    lemma_escape_plain(key);
    lemma_plain_encodable(key);
    assert(s =~= (pre + seq!['"']) + spec_escape(key) + seq!['"'] + (seq![':'] + rest));
    lemma_parse_escaped_string(s, pre + seq!['"'], key, seq![':'] + rest);
    let j1 = i + key.len() as int + 2;
    assert(parse_string_body(s, i + 1) == Some((key, j1)));
    assert(s[j1] == ':');
    assert(!is_ws(s[j1]));
    assert(skip_ws(s, j1) == j1);
}

/// Parsing the encoding of a string member yields its value back.
pub proof fn lemma_parse_member_string_enc(
    s: Seq<char>,
    pre: Seq<char>,
    key: Seq<char>,
    val: Seq<char>,
    rest: Seq<char>,
)
    requires
        plain_chars(key),
        encodable_chars(val),
        s == pre + enc_str_member(key, val) + rest,
    ensures
        parse_member_string(s, pre.len() as int, key) == Ok::<(Seq<char>, int), DecodeError>(
            (val, pre.len() as int + enc_str_member(key, val).len() as int),
        ),
{
    let i = pre.len() as int;
    assert(s =~= pre + enc_key(key) + (seq!['"'] + spec_escape(val) + seq!['"'] + rest));
    lemma_parse_member_prefix_enc(s, pre, key, seq!['"'] + spec_escape(val) + seq!['"'] + rest);
    let j = i + key.len() as int + 3;
    assert(s[j] == '"');
    assert(!is_ws(s[j]));
    assert(skip_ws(s, j) == j);
    assert(s =~= (pre + enc_key(key) + seq!['"']) + spec_escape(val) + seq!['"'] + rest);
    lemma_parse_escaped_string(s, pre + enc_key(key) + seq!['"'], val, rest);
    assert(parse_string_body(s, j + 1) == Some(
        (val, j + 1 + spec_escape(val).len() as int + 1),
    ));
}

/// Parsing the encoding of a number member yields its value back.
pub proof fn lemma_parse_member_number_enc(
    s: Seq<char>,
    pre: Seq<char>,
    key: Seq<char>,
    m: int,
    rest: Seq<char>,
)
    requires
        plain_chars(key),
        m >= 0,
        s == pre + enc_num_member(key, m) + rest,
        rest.len() >= 1,
        !is_digit(rest[0]),
    ensures
        parse_member_number(s, pre.len() as int, key) == Ok::<(int, int), DecodeError>(
            (m, pre.len() as int + enc_num_member(key, m).len() as int),
        ),
{
    let i = pre.len() as int;
    assert(s =~= pre + enc_key(key) + (spec_uint_chars(m) + rest));
    lemma_parse_member_prefix_enc(s, pre, key, spec_uint_chars(m) + rest);
    let j = i + key.len() as int + 3;
    lemma_uint_chars_digits(m);
    assert(s[j] == spec_uint_chars(m)[0]);
    assert(is_digit(s[j]));
    assert(!is_ws(s[j]));
    assert(skip_ws(s, j) == j);
    assert(s =~= (pre + enc_key(key)) + spec_uint_chars(m) + rest);
    lemma_parse_number_encoding(s, pre + enc_key(key), m, rest);
}

/// The index just past the opening brace of the `MessageData` object in
/// a canonically encoded request.
pub open spec fn spec_data_start(f: ReqFields) -> int {
    spec_value_start(f) + enc_str_member("MessageType"@, request_message_type()).len() as int + 1
        + enc_key("MessageData"@).len() as int + 1
}

/// Round trip: decoding a canonically encoded request yields exactly the
/// payload it was encoded from. Holds for every payload whose beatmap
/// path the encoder can represent: any character outside the control
/// range, or a control character with a short escape.
pub proof fn lemma_request_round_trip(f: ReqFields)
    requires
        encodable_chars(f.file),
    ensures
        spec_parse_request(spec_encode_request(f)) == Ok::<ReqFields, DecodeError>(f),
{
    let s = spec_encode_request(f);
    let m1 = enc_str_member("Type"@, envelope_type());
    let k2 = enc_key("Value"@);
    let m3 = enc_str_member("MessageType"@, request_message_type());
    let k4 = enc_key("MessageData"@);
    lemma_parse_request_head(s, f);
    let pre_v = seq!['{'] + m1 + seq![','] + k2 + seq!['{'];
    assert(pre_v.len() == spec_value_start(f));
    assert(s =~= pre_v + spec_encode_value(f));
    lemma_parse_value_enc(s, pre_v, f);
    let pre_d = pre_v + m3 + seq![','] + k4 + seq!['{'];
    assert(pre_d.len() == spec_data_start(f));
    assert(s =~= pre_d + spec_encode_data(f));
    lemma_parse_data_enc(s, pre_d, f);
}

/// The protocol's key and tag literals hold no character the encoder
/// would escape.
proof fn lemma_keys_plain()
    ensures
        plain_chars("Type"@),
        plain_chars("Value"@),
        plain_chars("MessageType"@),
        plain_chars("MessageData"@),
        plain_chars("BeatmapFile"@),
        plain_chars("RulesetId"@),
        plain_chars("Mods"@),
        plain_chars(envelope_type()),
        plain_chars(request_message_type()),
{
    reveal_strlit("Type");
    reveal_strlit("Value");
    reveal_strlit("MessageType");
    reveal_strlit("MessageData");
    reveal_strlit("BeatmapFile");
    reveal_strlit("RulesetId");
    reveal_strlit("Mods");
    reveal_strlit("System.Object");
    reveal_strlit("LegacyIpcDifficultyCalculationRequest");
}

/// The index just past the opening brace of the `Value` object in a
/// canonically encoded request.
pub open spec fn spec_value_start(f: ReqFields) -> int {
    3 + enc_str_member("Type"@, envelope_type()).len() as int + enc_key("Value"@).len() as int
}

/// Parsing a canonically encoded request walks the outer envelope and
/// hands over to the inner-envelope parser at the `Value` object.
#[verifier::rlimit(100)]
proof fn lemma_parse_request_head(s: Seq<char>, f: ReqFields)
    requires
        s == spec_encode_request(f),
    ensures
        spec_parse_request(s) == spec_parse_value(s, spec_value_start(f)),
{
    lemma_keys_plain();
    lemma_plain_encodable(envelope_type());
    let m1 = enc_str_member("Type"@, envelope_type());
    let k2 = enc_key("Value"@);
    let v = spec_encode_value(f);
    let a1 = 1 + m1.len() as int;
    let a2 = a1 + 1;
    let a3 = a2 + k2.len() as int;
    let a4 = a3 + 1;
    // the opening brace
    assert(s[0] == '{');
    assert(!is_ws(s[0]));
    assert(skip_ws(s, 0) == 0);
    // "Type": "System.Object"
    let rest1 = seq![','] + k2 + seq!['{'] + v;
    assert(s =~= seq!['{'] + m1 + rest1);
    lemma_parse_member_string_enc(s, seq!['{'], "Type"@, envelope_type(), rest1);
    assert(s[a1] == ',');
    assert(!is_ws(s[a1]));
    assert(skip_ws(s, a1) == a1);
    // "Value": {
    let pre2 = seq!['{'] + m1 + seq![','];
    let rest2 = seq!['{'] + v;
    assert(s =~= pre2 + k2 + rest2);
    lemma_parse_member_prefix_enc(s, pre2, "Value"@, rest2);
    assert(s[a3] == '{');
    assert(!is_ws(s[a3]));
    assert(skip_ws(s, a3) == a3);
    assert(parse_member_object(s, a2, "Value"@) == Ok::<int, DecodeError>(a4));
    assert(a4 == spec_value_start(f));
}

/// The parse facts for the encoded inner envelope's members.
#[verifier::rlimit(100)]
proof fn lemma_parse_value_members(s: Seq<char>, pre: Seq<char>, f: ReqFields)
    requires
        s == pre + spec_encode_value(f),
    ensures
        ({
            let a4 = pre.len() as int;
            let a5 = a4 + enc_str_member("MessageType"@, request_message_type()).len() as int;
            let a6 = a5 + 1;
            let a8 = a6 + enc_key("MessageData"@).len() as int + 1;
            &&& parse_member_string(s, a4, "MessageType"@) == Ok::<(Seq<char>, int), DecodeError>(
                (request_message_type(), a5),
            )
            &&& skip_ws(s, a5) == a5
            &&& at_char(s, a5, ',')
            &&& parse_member_object(s, a6, "MessageData"@) == Ok::<int, DecodeError>(a8)
        }),
{
    lemma_keys_plain();
    lemma_plain_encodable(request_message_type());
    let m3 = enc_str_member("MessageType"@, request_message_type());
    let k4 = enc_key("MessageData"@);
    let d = spec_encode_data(f);
    let a4 = pre.len() as int;
    let a5 = a4 + m3.len() as int;
    let a6 = a5 + 1;
    let a7 = a6 + k4.len() as int;
    let a8 = a7 + 1;
    // "MessageType": the request tag
    let rest3 = seq![','] + k4 + seq!['{'] + d;
    assert(s =~= pre + m3 + rest3);
    lemma_parse_member_string_enc(s, pre, "MessageType"@, request_message_type(), rest3);
    assert(s[a5] == ',');
    assert(!is_ws(s[a5]));
    assert(skip_ws(s, a5) == a5);
    // "MessageData": {
    let pre4 = pre + m3 + seq![','];
    let rest4 = seq!['{'] + d;
    assert(s =~= pre4 + k4 + rest4);
    lemma_parse_member_prefix_enc(s, pre4, "MessageData"@, rest4);
    assert(s[a7] == '{');
    assert(!is_ws(s[a7]));
    assert(skip_ws(s, a7) == a7);
    assert(parse_member_object(s, a6, "MessageData"@) == Ok::<int, DecodeError>(a8));
}

/// Parsing the encoded inner envelope hands over to the payload parser
/// at the payload object.
#[verifier::rlimit(100)]
proof fn lemma_parse_value_enc(s: Seq<char>, pre: Seq<char>, f: ReqFields)
    requires
        s == pre + spec_encode_value(f),
    ensures
        spec_parse_value(s, pre.len() as int) == spec_parse_data(
            s,
            pre.len() as int + enc_str_member("MessageType"@, request_message_type()).len() as int
                + 1 + enc_key("MessageData"@).len() as int + 1,
        ),
{
    lemma_parse_value_members(s, pre, f);
}

/// Parsing the encoded payload members and closing braces, from just past
/// the opening brace of the payload object, yields the payload back.
#[verifier::rlimit(100)]
proof fn lemma_parse_data_enc(s: Seq<char>, pre: Seq<char>, f: ReqFields)
    requires
        encodable_chars(f.file),
        s == pre + spec_encode_data(f),
    ensures
        spec_parse_data(s, pre.len() as int) == Ok::<ReqFields, DecodeError>(f),
{
    lemma_keys_plain();
    let m5 = enc_str_member("BeatmapFile"@, f.file);
    let m6 = enc_num_member("RulesetId"@, f.ruleset_id as int);
    let m7 = enc_num_member("Mods"@, f.mods as int);
    let tail = seq!['}', '}', '}'];
    assert(s =~= pre + m5 + seq![','] + m6 + seq![','] + m7 + tail);
    let a8 = pre.len() as int;
    let a9 = a8 + m5.len() as int;
    let a10 = a9 + 1;
    let a11 = a10 + m6.len() as int;
    let a12 = a11 + 1;
    let a13 = a12 + m7.len() as int;
    // "BeatmapFile": the path
    let rest5 = seq![','] + m6 + seq![','] + m7 + tail;
    assert(s =~= pre + m5 + rest5);
    lemma_parse_member_string_enc(s, pre, "BeatmapFile"@, f.file, rest5);
    assert(s[a9] == ',');
    assert(!is_ws(s[a9]));
    assert(skip_ws(s, a9) == a9);
    // "RulesetId": the id
    let pre6 = pre + m5 + seq![','];
    let rest6 = seq![','] + m7 + tail;
    assert(s =~= pre6 + m6 + rest6);
    assert(!is_digit(rest6[0]));
    lemma_parse_member_number_enc(s, pre6, "RulesetId"@, f.ruleset_id as int, rest6);
    assert(s[a11] == ',');
    assert(!is_ws(s[a11]));
    assert(skip_ws(s, a11) == a11);
    // "Mods": the bitmask
    let pre7 = pre6 + m6 + seq![','];
    assert(s =~= pre7 + m7 + tail);
    assert(!is_digit(tail[0]));
    lemma_parse_member_number_enc(s, pre7, "Mods"@, f.mods as int, tail);
    // the three closing braces, then the end of input
    assert(s[a13] == '}');
    assert(!is_ws(s[a13]));
    assert(skip_ws(s, a13) == a13);
    assert(s[a13 + 1] == '}');
    assert(!is_ws(s[a13 + 1]));
    assert(skip_ws(s, a13 + 1) == a13 + 1);
    assert(s[a13 + 2] == '}');
    assert(!is_ws(s[a13 + 2]));
    assert(skip_ws(s, a13 + 2) == a13 + 2);
    assert(a13 + 3 == s.len());
    assert(skip_ws(s, a13 + 3) == a13 + 3);
    assert(ReqFields {
        file: f.file,
        ruleset_id: (f.ruleset_id as int) as u8,
        mods: (f.mods as int) as u32,
    } =~= f);
}

} // verus!
