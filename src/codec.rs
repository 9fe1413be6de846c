//! Percent/plus decoding of request targets into query terms, and
//! percent-encoding of query terms for redirect URLs.

use vstd::prelude::*;
use vstd::utf8::*;

use crate::text::{chars_of, push_char, string_from_utf8};

verus! {

/// Why a query could not be decoded.
#[derive(Debug, Clone, Copy, PartialEq, Eq, Structural)]
pub enum DecodeErr {
    /// The encoded text holds a character outside ASCII.
    NotAscii,
    /// A decoded part is not valid UTF-8.
    InvalidUtf8,
}

/// Where the percent decoder stands between two characters.
#[derive(Clone, Copy)]
pub enum State {
    /// Outside any escape.
    Plain,
    /// A `%` was read.
    Percent,
    /// A `%` and one hex digit were read; the digit's value is kept, and
    /// re-emitted as a byte of that value when the escape fails.
    Half(u8),
}

/// What one step of the decoder emits.
#[derive(Clone, Copy)]
pub enum Decoded {
    /// A decoded byte.
    Byte(u8),
    /// `%` followed by a byte that is not a hex digit.
    FailedPercent(u8),
    /// `%`, a hex digit and a byte that is not a hex digit.
    FailedPercent2(u8, u8),
    /// The end of the current part.
    Delim,
    /// Nothing yet.
    Nothing,
}

/// The value of `b` as a hexadecimal digit, either case.
pub open spec fn hex_value(b: u8) -> Option<u8> {
    if 0x30 <= b <= 0x39 {
        Some((b - 0x30) as u8)
    } else if 0x41 <= b <= 0x46 {
        Some((b - 0x41 + 10) as u8)
    } else if 0x61 <= b <= 0x66 {
        Some((b - 0x61 + 10) as u8)
    } else {
        None
    }
}

/// The value of `b` as a hexadecimal digit, either case.
pub fn hex_digit_value(b: u8) -> (r: Option<u8>)
    ensures
        r == hex_value(b),
{
    if 0x30 <= b && b <= 0x39 {
        Some(b - 0x30)
    } else if 0x41 <= b && b <= 0x46 {
        Some(b - 0x41 + 10)
    } else if 0x61 <= b && b <= 0x66 {
        Some(b - 0x61 + 10)
    } else {
        None
    }
}

/// One transition of the decoder: the next state and what is emitted.
pub open spec fn step(s: State, b: u8) -> (State, Decoded) {
    match s {
        State::Plain => if b == 0x25 {
            (State::Percent, Decoded::Nothing)
        } else if b == 0x2B {
            (State::Plain, Decoded::Delim)
        } else {
            (State::Plain, Decoded::Byte(b))
        },
        State::Percent => match hex_value(b) {
            Some(h) => (State::Half(h), Decoded::Nothing),
            None => (State::Plain, Decoded::FailedPercent(b)),
        },
        State::Half(h) => match hex_value(b) {
            Some(l) => {
                let byte = (h * 16 + l) as u8;
                if byte == 0x20 {
                    (State::Plain, Decoded::Delim)
                } else {
                    (State::Plain, Decoded::Byte(byte))
                }
            },
            None => (State::Plain, Decoded::FailedPercent2(h, b)),
        },
    }
}

/// What is left to emit when the input ends in state `s`.
pub open spec fn flush_spec(s: State) -> Decoded {
    match s {
        State::Plain => Decoded::Nothing,
        State::Percent => Decoded::Byte(0x25),
        State::Half(h) => Decoded::FailedPercent(h),
    }
}

/// Appends `bytes` to the last part, opening one if there is none.
pub open spec fn append_last(parts: Seq<Seq<u8>>, bytes: Seq<u8>) -> Seq<Seq<u8>> {
    if parts.len() == 0 {
        seq![bytes]
    } else {
        parts.update(parts.len() - 1, parts.last() + bytes)
    }
}

/// The parts after emitting `d`.
pub open spec fn put_spec(parts: Seq<Seq<u8>>, d: Decoded) -> Seq<Seq<u8>> {
    match d {
        Decoded::Byte(b) => append_last(parts, seq![b]),
        Decoded::FailedPercent(b) => append_last(parts, seq![0x25u8, b]),
        Decoded::FailedPercent2(b1, b2) => append_last(parts, seq![0x25u8, b1, b2]),
        Decoded::Delim => parts.push(Seq::empty()),
        Decoded::Nothing => parts,
    }
}

/// The state and the parts after reading `t` from state `st` with parts `parts`.
pub open spec fn run(st: State, parts: Seq<Seq<u8>>, t: Seq<u8>) -> (State, Seq<Seq<u8>>)
    decreases t.len(),
{
    if t.len() == 0 {
        (st, parts)
    } else {
        let (s, p) = run(st, parts, t.drop_last());
        let (s2, d) = step(s, t.last());
        (s2, put_spec(p, d))
    }
}

/// The state and the parts after reading `t` from the start.
pub open spec fn scan(t: Seq<u8>) -> (State, Seq<Seq<u8>>) {
    run(State::Plain, Seq::empty(), t)
}

proof fn lemma_run_wf(st: State, parts: Seq<Seq<u8>>, t: Seq<u8>)
    requires
        st.wf(),
    ensures
        run(st, parts, t).0.wf(),
    decreases t.len(),
{
    if t.len() > 0 {
        lemma_run_wf(st, parts, t.drop_last());
    }
}

/// The raw byte parts of the encoded text `t`, before UTF-8 validation.
pub open spec fn raw_parts(t: Seq<u8>) -> Seq<Seq<u8>> {
    let (s, parts) = scan(t);
    put_spec(parts, flush_spec(s))
}

/// The non-empty parts, decoded from UTF-8.
pub open spec fn kept_parts(parts: Seq<Seq<u8>>) -> Seq<Seq<char>>
    decreases parts.len(),
{
    if parts.len() == 0 {
        Seq::empty()
    } else if parts.last().len() == 0 {
        kept_parts(parts.drop_last())
    } else {
        kept_parts(parts.drop_last()).push(decode_utf8(parts.last()))
    }
}

/// The byte sequences held by `parts`.
pub open spec fn views(parts: Seq<Vec<u8>>) -> Seq<Seq<u8>> {
    parts.map_values(|v: Vec<u8>| v@)
}

/// Every part is valid UTF-8.
pub open spec fn all_utf8(parts: Seq<Seq<u8>>) -> bool {
    forall|i: int| 0 <= i < parts.len() ==> valid_utf8(#[trigger] parts[i])
}

/// The bytes of an ASCII text.
pub open spec fn ascii_bytes(t: Seq<char>) -> Seq<u8> {
    t.map_values(|c: char| c as u8)
}

/// What decoding the text `t` gives.
pub open spec fn decode_spec(t: Seq<char>) -> Result<Seq<Seq<char>>, DecodeErr> {
    if !is_ascii_chars(t) {
        Err(DecodeErr::NotAscii)
    } else if !all_utf8(raw_parts(ascii_bytes(t))) {
        Err(DecodeErr::InvalidUtf8)
    } else {
        Ok(kept_parts(raw_parts(ascii_bytes(t))))
    }
}

impl State {
    /// A kept digit value is below sixteen.
    pub open spec fn wf(self) -> bool {
        match self {
            State::Half(h) => h < 16,
            _ => true,
        }
    }

    /// One transition of the decoder on the byte `b`.
    pub fn decode_next(&self, b: u8) -> (r: (State, Decoded))
        requires
            self.wf(),
        ensures
            r.0.wf(),
            r == step(*self, b),
    {
        match self {
            State::Plain => if b == 0x25 {
                (State::Percent, Decoded::Nothing)
            } else if b == 0x2B {
                (State::Plain, Decoded::Delim)
            } else {
                (State::Plain, Decoded::Byte(b))
            },
            State::Percent => match hex_digit_value(b) {
                Some(h) => (State::Half(h), Decoded::Nothing),
                None => (State::Plain, Decoded::FailedPercent(b)),
            },
            State::Half(h) => match hex_digit_value(b) {
                Some(l) => {
                    let byte: u8 = *h * 16 + l;
                    if byte == 0x20 {
                        (State::Plain, Decoded::Delim)
                    } else {
                        (State::Plain, Decoded::Byte(byte))
                    }
                },
                None => (State::Plain, Decoded::FailedPercent2(*h, b)),
            },
        }
    }

    /// What is left to emit when the input ends in this state.
    pub fn flush(&self) -> (r: Decoded)
        ensures
            r == flush_spec(*self),
    {
        match self {
            State::Plain => Decoded::Nothing,
            State::Percent => Decoded::Byte(0x25),
            State::Half(h) => Decoded::FailedPercent(*h),
        }
    }
}

/// Appends `bytes` to the last part of `parts`, opening one if there is none.
fn extend_last(parts: &mut Vec<Vec<u8>>, bytes: &[u8])
    ensures
        views(final(parts)@) == append_last(views(old(parts)@), bytes@),
{
    let mut last: Vec<u8> = match parts.pop() {
        Some(v) => v,
        None => Vec::new(),
    };
    let ghost before = last@;
    let mut i: usize = 0;
    while i < bytes.len()
        invariant
            i <= bytes@.len(),
            last@ == before + bytes@.take(i as int),
        decreases bytes@.len() - i,
    {
        last.push(bytes[i]);
        i = i + 1;
        assert(last@ =~= before + bytes@.take(i as int));
    }
    assert(bytes@.take(bytes@.len() as int) =~= bytes@);
    parts.push(last);
    assert(views(parts@) =~= append_last(views(old(parts)@), bytes@));
}

impl Decoded {
    /// Adds what was emitted to the byte parts.
    pub fn put_into(&self, parts: &mut Vec<Vec<u8>>)
        ensures
            views(final(parts)@) == put_spec(views(old(parts)@), *self),
    {
        match self {
            Decoded::Byte(b) => {
                let a = [*b];
                assert(a@ =~= seq![*b]);
                extend_last(parts, &a);
            },
            Decoded::FailedPercent(b) => {
                let a = [0x25u8, *b];
                assert(a@ =~= seq![0x25u8, *b]);
                extend_last(parts, &a);
            },
            Decoded::FailedPercent2(b1, b2) => {
                let a = [0x25u8, *b1, *b2];
                assert(a@ =~= seq![0x25u8, *b1, *b2]);
                extend_last(parts, &a);
            },
            Decoded::Delim => {
                parts.push(Vec::new());
                assert(views(parts@) =~= views(old(parts)@).push(Seq::empty()));
            },
            Decoded::Nothing => {},
        }
    }
}

/// Validates each part as UTF-8 and keeps the non-empty ones.
pub fn decode_parts(parts: Vec<Vec<u8>>) -> (r: Result<Vec<String>, DecodeErr>)
    ensures
        match r {
            Ok(v) => all_utf8(views(parts@)) && v.deep_view() == kept_parts(views(parts@)),
            Err(e) => !all_utf8(views(parts@)) && e == DecodeErr::InvalidUtf8,
        },
{
    let ghost all = views(parts@);
    let mut out: Vec<String> = Vec::new();
    let mut i: usize = 0;
    while i < parts.len()
        invariant
            i <= parts.len(),
            all == views(parts@),
            all_utf8(all.take(i as int)),
            out.deep_view() == kept_parts(all.take(i as int)),
        decreases parts.len() - i,
    {
        let part = parts[i].clone();
        assert(part@ == all[i as int]);
        match string_from_utf8(part) {
            Some(decoded) => {
                assert(all.take(i + 1).drop_last() =~= all.take(i as int));
                if !decoded.as_str().is_empty() {
                    out.push(decoded);
                    assert(out.deep_view() =~= kept_parts(all.take(i as int)).push(decoded@));
                }
                i = i + 1;
            },
            None => {
                return Err(DecodeErr::InvalidUtf8);
            },
        }
    }
    assert(all.take(i as int) =~= all);
    Ok(out)
}

/// Splits a percent/plus-encoded text into its decoded, non-empty parts.
pub fn decode(text: &str) -> (r: Result<Vec<String>, DecodeErr>)
    ensures
        match r {
            Ok(v) => decode_spec(text@) == Ok::<Seq<Seq<char>>, DecodeErr>(v.deep_view()),
            Err(e) => decode_spec(text@) == Err::<Seq<Seq<char>>, DecodeErr>(e),
        },
{
    broadcast use vstd::string::is_ascii_spec_bytes;

    if !text.is_ascii() {
        return Err(DecodeErr::NotAscii);
    }
    let bytes = text.as_bytes();
    let ghost t = ascii_bytes(text@);
    assert(bytes@ =~= t);
    let mut parts: Vec<Vec<u8>> = Vec::new();
    let mut state = State::Plain;
    let mut i: usize = 0;
    assert(t.take(0) =~= Seq::<u8>::empty());
    while i < bytes.len()
        invariant
            i <= t.len(),
            bytes@ == t,
            (state, views(parts@)) == scan(t.take(i as int)),
            state.wf(),
        decreases t.len() - i,
    {
        let (next, emitted) = state.decode_next(bytes[i]);
        proof {
            lemma_run_wf(State::Plain, Seq::empty(), t.take(i + 1));
        }
        assert(t.take(i + 1).drop_last() =~= t.take(i as int));
        state = next;
        emitted.put_into(&mut parts);
        i = i + 1;
    }
    assert(t.take(i as int) =~= t);
    state.flush().put_into(&mut parts);
    decode_parts(parts)
}

/// A character that is always percent-encoded.
pub open spec fn is_special(c: char) -> bool {
    c == '!' || c == '#' || c == '$' || c == '&' || c == '"' || c == '\'' || c == '(' || c
        == ')' || c == '*' || c == '+' || c == ',' || c == '/' || c == ':' || c == ';' || c == '='
        || c == '?' || c == '@' || c == '[' || c == ']'
}

/// The upper-case hexadecimal digit of a value below sixteen.
pub open spec fn hex_upper(n: u8) -> char {
    if n < 10 {
        ((n + 0x30) as u8) as char
    } else {
        ((n - 10 + 0x41) as u8) as char
    }
}

/// The `%XX` triplet of one byte.
pub open spec fn percent_byte(b: u8) -> Seq<char> {
    seq!['%', hex_upper(b / 16), hex_upper(b % 16)]
}

/// One `%XX` triplet per byte.
pub open spec fn percent_bytes(bs: Seq<u8>) -> Seq<char>
    decreases bs.len(),
{
    if bs.len() == 0 {
        Seq::empty()
    } else {
        percent_bytes(bs.drop_last()) + percent_byte(bs.last())
    }
}

/// How one character is written in a URL query.
pub open spec fn encode_char(c: char) -> Seq<char> {
    if is_special(c) {
        percent_byte(c as u8)
    } else if (c as u32) < 0x80 {
        seq![c]
    } else {
        percent_bytes(encode_scalar(c as u32))
    }
}

/// How a text is written in a URL query.
pub open spec fn encode_spec(s: Seq<char>) -> Seq<char>
    decreases s.len(),
{
    if s.len() == 0 {
        Seq::empty()
    } else {
        encode_spec(s.drop_last()) + encode_char(s.last())
    }
}

/// The upper-case hexadecimal digit of `n`.
fn hex_upper_char(n: u8) -> (r: char)
    requires
        n < 16,
    ensures
        r == hex_upper(n),
{
    if n < 10 {
        (n + 0x30) as char
    } else {
        (n - 10 + 0x41) as char
    }
}

/// The UTF-8 bytes of `c`.
fn utf8_bytes(c: char) -> (r: Vec<u8>)
    ensures
        r@ == encode_scalar(c as u32),
{
    let v = c as u32;
    if v <= 0x7F {
        vec![(v & 0x7F) as u8]
    } else if v <= 0x7FF {
        vec![0xC0 | ((v >> 6) & 0x1F) as u8, 0x80 | (v & 0x3F) as u8]
    } else if v <= 0xFFFF {
        vec![
            0xE0 | ((v >> 12) & 0x0F) as u8,
            0x80 | ((v >> 6) & 0x3F) as u8,
            0x80 | (v & 0x3F) as u8,
        ]
    } else {
        vec![
            0xF0 | ((v >> 18) & 0x7) as u8,
            0x80 | ((v >> 12) & 0x3F) as u8,
            0x80 | ((v >> 6) & 0x3F) as u8,
            0x80 | (v & 0x3F) as u8,
        ]
    }
}

/// The encoding of one character: the character itself, or escapes.
pub enum CharEncodeResult {
    Char(char),
    Str(String),
}

impl CharEncodeResult {
    /// The characters this result stands for.
    pub open spec fn chars(&self) -> Seq<char> {
        match self {
            CharEncodeResult::Char(c) => seq![*c],
            CharEncodeResult::Str(s) => s@,
        }
    }

    /// The `%XX` triplet of `byte`.
    fn encode_byte(byte: u8) -> (r: String)
        ensures
            r@ == percent_byte(byte),
    {
        let mut r = String::new();
        push_char(&mut r, '%');
        push_char(&mut r, hex_upper_char(byte / 16));
        push_char(&mut r, hex_upper_char(byte % 16));
        assert(r@ =~= percent_byte(byte));
        r
    }

    /// How `ch` is written in a URL query.
    pub fn encode(ch: char) -> (r: Self)
        ensures
            r.chars() == encode_char(ch),
    {
        if is_special_char(ch) {
            CharEncodeResult::Str(CharEncodeResult::encode_byte(ch as u8))
        } else if (ch as u32) < 0x80 {
            CharEncodeResult::Char(ch)
        } else {
            let bytes = utf8_bytes(ch);
            let mut s = String::new();
            let mut i: usize = 0;
            while i < bytes.len()
                invariant
                    i <= bytes@.len(),
                    s@ == percent_bytes(bytes@.take(i as int)),
                decreases bytes@.len() - i,
            {
                let e = CharEncodeResult::encode_byte(bytes[i]);
                s.append(e.as_str());
                assert(bytes@.take(i + 1).drop_last() =~= bytes@.take(i as int));
                i = i + 1;
            }
            assert(bytes@.take(i as int) =~= bytes@);
            CharEncodeResult::Str(s)
        }
    }
}

/// Whether `c` is always percent-encoded.
fn is_special_char(c: char) -> (r: bool)
    ensures
        r == is_special(c),
{
    c == '!' || c == '#' || c == '$' || c == '&' || c == '"' || c == '\'' || c == '(' || c
        == ')' || c == '*' || c == '+' || c == ',' || c == '/' || c == ':' || c == ';' || c == '='
        || c == '?' || c == '@' || c == '[' || c == ']'
}

/// Percent-encodes a query term for a redirect URL.
pub fn encode(text: &str) -> (r: String)
    ensures
        r@ == encode_spec(text@),
{
    let chars = chars_of(text);
    let mut encoded = String::new();
    let mut i: usize = 0;
    while i < chars.len()
        invariant
            i <= chars@.len(),
            chars@ == text@,
            encoded@ == encode_spec(chars@.take(i as int)),
        decreases chars@.len() - i,
    {
        assert(chars@.take(i + 1).drop_last() =~= chars@.take(i as int));
        match CharEncodeResult::encode(chars[i]) {
            CharEncodeResult::Char(c) => push_char(&mut encoded, c),
            CharEncodeResult::Str(s) => encoded.append(s.as_str()),
        }
        i = i + 1;
    }
    assert(chars@.take(i as int) =~= chars@);
    encoded
}

} // verus!
