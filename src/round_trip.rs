//! How decoding and encoding relate: which texts decode to themselves,
//! which are their own encoding, and when decoding undoes encoding.

use vstd::prelude::*;
use vstd::utf8::*;

use crate::codec::{
    all_utf8, append_last, ascii_bytes, decode_spec, encode_char, encode_spec, hex_upper, hex_value,
    is_special, kept_parts, percent_byte, percent_bytes, raw_parts, run, step, DecodeErr, State,
};

verus! {

proof fn lemma_run_concat(st: State, p: Seq<Seq<u8>>, a: Seq<u8>, b: Seq<u8>)
    ensures
        run(st, p, a + b) == run(run(st, p, a).0, run(st, p, a).1, b),
    decreases b.len(),
{
    if b.len() == 0 {
        assert(a + b =~= a);
    } else {
        assert((a + b).drop_last() =~= a + b.drop_last());
        lemma_run_concat(st, p, a, b.drop_last());
    }
}

proof fn lemma_append_last_twice(p: Seq<Seq<u8>>, x: Seq<u8>, y: Seq<u8>)
    ensures
        append_last(append_last(p, x), y) == append_last(p, x + y),
{
    if p.len() == 0 {
        assert(seq![x].update(0, x + y) =~= seq![x + y]);
    } else {
        assert((p.last() + x) + y =~= p.last() + (x + y));
        assert(append_last(append_last(p, x), y) =~= append_last(p, x + y));
    }
}

proof fn lemma_ascii_bytes_concat(a: Seq<char>, b: Seq<char>)
    ensures
        ascii_bytes(a + b) == ascii_bytes(a) + ascii_bytes(b),
{
    assert(ascii_bytes(a + b) =~= ascii_bytes(a) + ascii_bytes(b));
}

proof fn lemma_hex_round(n: u8)
    requires
        n < 16,
    ensures
        hex_value(hex_upper(n) as u8) == Some(n),
        hex_upper(n) <= '\u{7f}',
{
}

proof fn lemma_run_one(st: State, p: Seq<Seq<u8>>, b: u8)
    ensures
        run(st, p, seq![b]) == ({
            let (s2, d) = step(st, b);
            (s2, crate::codec::put_spec(p, d))
        }),
{
    assert(seq![b].drop_last() =~= Seq::<u8>::empty());
    assert(run(st, p, seq![b].drop_last()) == (st, p));
    assert(seq![b].last() == b);
}

/// Reading the escape of one byte other than a space adds that byte.
proof fn lemma_run_triplet(p: Seq<Seq<u8>>, b: u8)
    requires
        b != 0x20,
    ensures
        run(State::Plain, p, ascii_bytes(percent_byte(b))) == (State::Plain, append_last(p, seq![b])),
{
    let hi = b / 16;
    let lo = b % 16;
    lemma_hex_round(hi);
    lemma_hex_round(lo);
    let t = ascii_bytes(percent_byte(b));
    assert(t =~= seq![0x25u8] + seq![hex_upper(hi) as u8] + seq![hex_upper(lo) as u8]);
    lemma_run_one(State::Plain, p, 0x25u8);
    lemma_run_concat(State::Plain, p, seq![0x25u8], seq![hex_upper(hi) as u8]);
    lemma_run_one(State::Percent, p, hex_upper(hi) as u8);
    lemma_run_concat(State::Plain, p, seq![0x25u8] + seq![hex_upper(hi) as u8], seq![hex_upper(lo) as u8]);
    lemma_run_one(State::Half(hi), p, hex_upper(lo) as u8);
    assert((hi * 16 + lo) as u8 == b);
}

/// Reading the escapes of bytes none of which is a space adds those bytes.
proof fn lemma_run_percent_bytes(p: Seq<Seq<u8>>, bs: Seq<u8>)
    requires
        bs.len() > 0,
        forall|i: int| 0 <= i < bs.len() ==> bs[i] != 0x20,
    ensures
        run(State::Plain, p, ascii_bytes(percent_bytes(bs))) == (State::Plain, append_last(p, bs)),
    decreases bs.len(),
{
    let init = bs.drop_last();
    let b = bs.last();
    lemma_ascii_bytes_concat(percent_bytes(init), percent_byte(b));
    lemma_run_concat(State::Plain, p, ascii_bytes(percent_bytes(init)), ascii_bytes(percent_byte(b)));
    if init.len() == 0 {
        assert(ascii_bytes(percent_bytes(init)) =~= Seq::<u8>::empty());
        lemma_run_triplet(p, b);
        assert(seq![b] =~= bs);
    } else {
        lemma_run_percent_bytes(p, init);
        lemma_run_triplet(append_last(p, init), b);
        lemma_append_last_twice(p, init, seq![b]);
        assert(init + seq![b] =~= bs);
    }
}

/// The bytes of a character above ASCII are all at least 0x80.
proof fn lemma_scalar_high_bytes(c: char)
    requires
        (c as u32) >= 0x80,
    ensures
        encode_scalar(c as u32).len() > 0,
        forall|i: int| 0 <= i < encode_scalar(c as u32).len() ==> #[trigger] encode_scalar(c as u32)[i] >= 0x80,
{
    let v = c as u32;
    assert(0x80u8 <= (0xC0u8 | ((v >> 6) & 0x1F) as u8)) by (bit_vector);
    assert(0x80u8 <= (0xE0u8 | ((v >> 12) & 0x0F) as u8)) by (bit_vector);
    assert(0x80u8 <= (0xF0u8 | ((v >> 18) & 0x7) as u8)) by (bit_vector);
    assert(0x80u8 <= (0x80u8 | (v & 0x3F) as u8)) by (bit_vector);
    assert(0x80u8 <= (0x80u8 | ((v >> 6) & 0x3F) as u8)) by (bit_vector);
    assert(0x80u8 <= (0x80u8 | ((v >> 12) & 0x3F) as u8)) by (bit_vector);
}

/// The UTF-8 byte of an ASCII character is its code.
proof fn lemma_scalar_ascii(c: char)
    requires
        (c as u32) < 0x80,
    ensures
        encode_scalar(c as u32) == seq![c as u8],
{
    let v = c as u32;
    assert((v & 0x7F) as u8 == v as u8) by (bit_vector)
        requires
            v < 0x80,
    ;
}

/// Reading the encoding of a character other than `%` adds its UTF-8 bytes.
proof fn lemma_run_encode_char(p: Seq<Seq<u8>>, c: char)
    requires
        c != '%',
    ensures
        run(State::Plain, p, ascii_bytes(encode_char(c))) == (State::Plain, append_last(p, encode_scalar(c as u32))),
{
    if is_special(c) {
        lemma_scalar_ascii(c);
        lemma_run_triplet(p, c as u8);
    } else if (c as u32) < 0x80 {
        lemma_scalar_ascii(c);
        assert(ascii_bytes(seq![c]) =~= seq![c as u8]);
        lemma_run_one(State::Plain, p, c as u8);
    } else {
        lemma_scalar_high_bytes(c);
        lemma_run_percent_bytes(p, encode_scalar(c as u32));
    }
}

proof fn lemma_encode_utf8_push(s: Seq<char>, c: char)
    ensures
        encode_utf8(s.push(c)) == encode_utf8(s) + encode_scalar(c as u32),
    decreases s.len(),
{
    if s.len() == 0 {
        assert(s.push(c).drop_first() =~= Seq::<char>::empty());
        assert(s.push(c)[0] == c);
        assert(encode_utf8(s.push(c)) == encode_scalar(c as u32) + encode_utf8(s.push(c).drop_first()));
        assert(encode_utf8(s.push(c)) =~= encode_utf8(s) + encode_scalar(c as u32));
    } else {
        assert(s.push(c).drop_first() =~= s.drop_first().push(c));
        assert(s.push(c)[0] == s[0]);
        lemma_encode_utf8_push(s.drop_first(), c);
        let e0 = encode_scalar(s[0] as u32);
        assert(encode_utf8(s.push(c)) == e0 + encode_utf8(s.drop_first().push(c)));
        assert(encode_utf8(s) == e0 + encode_utf8(s.drop_first()));
        assert(encode_utf8(s.push(c)) =~= encode_utf8(s) + encode_scalar(c as u32));
    }
}

/// Reading the encoding of a non-empty text without `%` gives one part: its UTF-8 bytes.
proof fn lemma_run_encode(s: Seq<char>)
    requires
        s.len() > 0,
        !s.contains('%'),
    ensures
        run(State::Plain, Seq::empty(), ascii_bytes(encode_spec(s))) == (State::Plain, seq![encode_utf8(s)]),
    decreases s.len(),
{
    let init = s.drop_last();
    let c = s.last();
    assert(s =~= init.push(c));
    lemma_encode_utf8_push(init, c);
    lemma_ascii_bytes_concat(encode_spec(init), encode_char(c));
    lemma_run_concat(State::Plain, Seq::empty(), ascii_bytes(encode_spec(init)), ascii_bytes(encode_char(c)));
    assert(s[s.len() - 1] == c);
    if init.len() == 0 {
        assert(ascii_bytes(encode_spec(init)) =~= Seq::<u8>::empty());
        lemma_run_encode_char(Seq::empty(), c);
        assert(encode_utf8(init) =~= Seq::<u8>::empty());
        assert(encode_utf8(init) + encode_scalar(c as u32) =~= encode_scalar(c as u32));
    } else {
        assert forall|i: int| 0 <= i < init.len() implies init[i] != '%' by {
            assert(init[i] == s[i]);
        }
        lemma_run_encode(init);
        lemma_run_encode_char(seq![encode_utf8(init)], c);
        assert(seq![encode_utf8(init)].update(0, encode_utf8(init) + encode_scalar(c as u32)) =~= seq![encode_utf8(s)]);
    }
}

proof fn lemma_encode_char_ascii(c: char)
    ensures
        is_ascii_chars(encode_char(c)),
{
    if is_special(c) || (c as u32) >= 0x80 {
        assert forall|b: u8| is_ascii_chars(#[trigger] percent_byte(b)) by {
            lemma_hex_round(b / 16);
            lemma_hex_round(b % 16);
        }
        if !is_special(c) {
            lemma_percent_bytes_ascii(encode_scalar(c as u32));
        }
    }
}

proof fn lemma_percent_bytes_ascii(bs: Seq<u8>)
    ensures
        is_ascii_chars(percent_bytes(bs)),
    decreases bs.len(),
{
    if bs.len() > 0 {
        lemma_percent_bytes_ascii(bs.drop_last());
        let b = bs.last();
        lemma_hex_round(b / 16);
        lemma_hex_round(b % 16);
        assert(is_ascii_chars(percent_byte(b)));
        vstd::utf8::is_ascii_chars_concat(percent_bytes(bs), percent_bytes(bs.drop_last()), percent_byte(b));
    }
}

proof fn lemma_percent_bytes_plain(bs: Seq<u8>)
    ensures
        forall|i: int| 0 <= i < percent_bytes(bs).len() ==> !is_special(#[trigger] percent_bytes(bs)[i]),
    decreases bs.len(),
{
    if bs.len() > 0 {
        lemma_percent_bytes_plain(bs.drop_last());
        let b = bs.last();
        lemma_hex_round(b / 16);
        lemma_hex_round(b % 16);
        let p = percent_bytes(bs.drop_last());
        assert forall|i: int| 0 <= i < percent_bytes(bs).len() implies !is_special(#[trigger] percent_bytes(bs)[i]) by {
            if i >= p.len() {
                assert(percent_bytes(bs)[i] == percent_byte(b)[i - p.len()]);
            } else {
                assert(percent_bytes(bs)[i] == p[i]);
            }
        }
    }
}

/// No character of the special set stands unescaped in an encoding.
pub proof fn encode_escapes_special(s: Seq<char>)
    ensures
        forall|i: int| 0 <= i < encode_spec(s).len() ==> !is_special(#[trigger] encode_spec(s)[i]),
    decreases s.len(),
{
    if s.len() > 0 {
        encode_escapes_special(s.drop_last());
        let c = s.last();
        let e = encode_char(c);
        assert forall|i: int| 0 <= i < e.len() implies !is_special(#[trigger] e[i]) by {
            if is_special(c) {
                lemma_hex_round((c as u8) / 16);
                lemma_hex_round((c as u8) % 16);
            } else if (c as u32) >= 0x80 {
                lemma_percent_bytes_plain(encode_scalar(c as u32));
            }
        }
        let p = encode_spec(s.drop_last());
        assert forall|i: int| 0 <= i < encode_spec(s).len() implies !is_special(#[trigger] encode_spec(s)[i]) by {
            if i >= p.len() {
                assert(encode_spec(s)[i] == e[i - p.len()]);
            } else {
                assert(encode_spec(s)[i] == p[i]);
            }
        }
    }
}

/// The encoding of any text is ASCII.
pub proof fn encode_is_ascii(s: Seq<char>)
    ensures
        is_ascii_chars(encode_spec(s)),
    decreases s.len(),
{
    if s.len() > 0 {
        encode_is_ascii(s.drop_last());
        lemma_encode_char_ascii(s.last());
        vstd::utf8::is_ascii_chars_concat(encode_spec(s), encode_spec(s.drop_last()), encode_char(s.last()));
    }
}

/// Decoding the encoding of a non-empty text that holds no `%` gives back
/// that text as the only part. Characters of the special set and characters
/// above ASCII come back too: their escapes decode to their bytes. A `%`
/// breaks the round trip, since encoding keeps it and decoding reads it as
/// the start of an escape; so does the empty text, which decodes to no part.
pub proof fn decode_encode_round_trip(s: Seq<char>)
    requires
        s.len() > 0,
        !s.contains('%'),
    ensures
        decode_spec(encode_spec(s)) == Ok::<Seq<Seq<char>>, DecodeErr>(seq![s]),
{
    broadcast use vstd::utf8::group_utf8_lib;

    encode_is_ascii(s);
    lemma_run_encode(s);
    let parts = raw_parts(ascii_bytes(encode_spec(s)));
    assert(parts == seq![encode_utf8(s)]);
    assert(all_utf8(parts));
    assert(encode_utf8(s).len() > 0) by {
        vstd::utf8::encode_utf8_first_scalar(s);
    }
    assert(parts.drop_last() =~= Seq::<Seq<u8>>::empty());
    assert(kept_parts(parts.drop_last()) == Seq::<Seq<char>>::empty());
    assert(parts.last() == encode_utf8(s));
    assert(decode_utf8(encode_utf8(s)) == s);
    assert(kept_parts(parts) =~= seq![s]);
}

/// The bytes of an ASCII text read as plain characters form one part.
proof fn lemma_run_plain(s: Seq<char>)
    requires
        s.len() > 0,
        is_ascii_chars(s),
        !s.contains('%'),
        !s.contains('+'),
    ensures
        run(State::Plain, Seq::empty(), ascii_bytes(s)) == (State::Plain, seq![ascii_bytes(s)]),
    decreases s.len(),
{
    let init = s.drop_last();
    let c = s.last();
    assert(s[s.len() - 1] == c);
    assert(ascii_bytes(s) =~= ascii_bytes(init) + seq![c as u8]);
    lemma_run_concat(State::Plain, Seq::empty(), ascii_bytes(init), seq![c as u8]);
    assert((c as u8) != 0x25u8 && (c as u8) != 0x2Bu8) by {
        assert('\0' <= c <= '\u{7f}');
    }
    if init.len() == 0 {
        assert(ascii_bytes(init) =~= Seq::<u8>::empty());
        lemma_run_one(State::Plain, Seq::empty(), c as u8);
        assert(seq![c as u8] =~= ascii_bytes(s));
    } else {
        assert forall|i: int| 0 <= i < init.len() implies init[i] != '%' && init[i] != '+' && '\0' <= #[trigger] init[i] <= '\u{7f}' by {
            assert(init[i] == s[i]);
        }
        lemma_run_plain(init);
        lemma_run_one(State::Plain, seq![ascii_bytes(init)], c as u8);
        assert(seq![ascii_bytes(init)].update(0, ascii_bytes(init) + seq![c as u8]) =~= seq![ascii_bytes(s)]);
    }
}

/// An ASCII text without `%` and `+` decodes to itself as the only part, or
/// to no part when it is empty.
pub proof fn decode_plain_text(s: Seq<char>)
    requires
        is_ascii_chars(s),
        !s.contains('%'),
        !s.contains('+'),
    ensures
        decode_spec(s) == Ok::<Seq<Seq<char>>, DecodeErr>(
            if s.len() == 0 {
                Seq::empty()
            } else {
                seq![s]
            },
        ),
{
    broadcast use vstd::utf8::group_utf8_lib;

    if s.len() == 0 {
        assert(ascii_bytes(s) =~= Seq::<u8>::empty());
        assert(raw_parts(ascii_bytes(s)) =~= Seq::<Seq<u8>>::empty());
        assert(kept_parts(Seq::<Seq<u8>>::empty()) =~= Seq::<Seq<char>>::empty());
    } else {
        lemma_run_plain(s);
        assert(encode_utf8(s) =~= ascii_bytes(s));
        let parts = raw_parts(ascii_bytes(s));
        assert(parts == seq![ascii_bytes(s)]);
        assert(parts.drop_last() =~= Seq::<Seq<u8>>::empty());
        assert(kept_parts(parts.drop_last()) == Seq::<Seq<char>>::empty());
        assert(parts.last() == encode_utf8(s));
        assert(parts.last().len() == s.len());
        assert(decode_utf8(encode_utf8(s)) == s);
        assert(kept_parts(parts) =~= seq![s]);
    }
}

/// A text of ASCII characters outside the special set is its own encoding;
/// every other character is escaped.
pub proof fn encode_plain_text(s: Seq<char>)
    ensures
        (forall|i: int| 0 <= i < s.len() ==> (#[trigger] s[i] as u32) < 0x80 && !is_special(s[i]))
            ==> encode_spec(s) == s,
        forall|i: int| 0 <= i < s.len() && ((#[trigger] s[i] as u32) >= 0x80 || is_special(s[i]))
            ==> encode_char(s[i]) != seq![s[i]],
    decreases s.len(),
{
    if s.len() > 0 {
        encode_plain_text(s.drop_last());
        assert forall|i: int| 0 <= i < s.drop_last().len() implies s.drop_last()[i] == s[i] by {}
        if forall|i: int| 0 <= i < s.len() ==> (#[trigger] s[i] as u32) < 0x80 && !is_special(s[i]) {
            assert(s.last() == s[s.len() - 1]);
            assert(s =~= s.drop_last() + seq![s.last()]);
        }
        assert forall|i: int| 0 <= i < s.len() && ((#[trigger] s[i] as u32) >= 0x80 || is_special(s[i]))
            implies encode_char(s[i]) != seq![s[i]] by {
            if is_special(s[i]) {
                assert(encode_char(s[i]).len() == 3);
            } else {
                lemma_scalar_high_bytes(s[i]);
                lemma_percent_bytes_len(encode_scalar(s[i] as u32));
            }
        }
    }
}

proof fn lemma_percent_bytes_len(bs: Seq<u8>)
    ensures
        percent_bytes(bs).len() == 3 * bs.len(),
    decreases bs.len(),
{
    if bs.len() > 0 {
        lemma_percent_bytes_len(bs.drop_last());
    }
}

} // verus!
