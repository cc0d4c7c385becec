//! Lower-case hexadecimal encoding of byte strings and the lenient decoder
//! that reads keys, nonces and ciphertexts back.
//!
//! The decoder works the way a byte-indexed scanner over UTF-8 text does:
//! after trimming Unicode whitespace it requires an even number of UTF-8
//! bytes and reads two bytes at a time, each pair as a base-16 number
//! (either digit case, and an optional leading `+` sign).  A pair that would
//! cut a multi-byte character in two cannot be read at all; `hex_panics`
//! names those inputs and the decoder is only defined away from them.

use vstd::prelude::*;
use crate::text::{
    chars_of, is_ascii_char, is_space_char, lemma_trim_end_suffix, lemma_trim_start_noop, push_char,
    trim, trim_chars, utf8_len, utf8_width,
};

verus! {

/// The character for a nibble `n` (`0..16`), lower case.
pub open spec fn hex_digit(n: int) -> char {
    if n < 10 {
        (48 + n) as char
    } else {
        (87 + n) as char
    }
}

/// The nibble at position `i` of the hex encoding of `b`.
pub open spec fn hex_nibble(b: Seq<u8>, i: int) -> int {
    if i % 2 == 0 {
        (b[i / 2] / 16) as int
    } else {
        (b[i / 2] % 16) as int
    }
}

/// Two lower-case hex digits per byte, high nibble first.
pub open spec fn spec_encode_hex(b: Seq<u8>) -> Seq<char> {
    Seq::new(2 * b.len(), |i: int| hex_digit(hex_nibble(b, i)))
}

/// The value of a hex digit of either case.
pub open spec fn hex_value(c: char) -> Option<u8> {
    let u = c as u32;
    if 48 <= u && u <= 57 {
        Some((u - 48) as u8)
    } else if 97 <= u && u <= 102 {
        Some((u - 87) as u8)
    } else if 65 <= u && u <= 70 {
        Some((u - 55) as u8)
    } else {
        None
    }
}

/// A two-character base-16 number as an unsigned byte parser reads it:
/// two digits, or `+` followed by one digit.
pub open spec fn hex_pair(c0: char, c1: char) -> Option<u8> {
    if c0 == '+' {
        hex_value(c1)
    } else {
        match (hex_value(c0), hex_value(c1)) {
            (Some(h), Some(l)) => Some((h * 16 + l) as u8),
            _ => None,
        }
    }
}

/// What reading a hex text gives.
pub enum HexScan {
    /// The decoded bytes.
    Bytes(Seq<u8>),
    /// The text is not hex.
    Rejected,
    /// A two-byte window would split a multi-byte character.
    Panics,
}

/// `b` followed by what `r` decoded; a failure stays a failure.
pub open spec fn prepend(b: Seq<u8>, r: HexScan) -> HexScan {
    match r {
        HexScan::Bytes(x) => HexScan::Bytes(b + x),
        other => other,
    }
}

/// Reading pairs from the front of `t` (whose UTF-8 length is even).
pub open spec fn scan_hex(t: Seq<char>) -> HexScan
    decreases t.len(),
{
    if t.len() == 0 {
        HexScan::Bytes(Seq::empty())
    } else if !is_ascii_char(t[0]) {
        if utf8_width(t[0]) == 2 {
            HexScan::Rejected
        } else {
            HexScan::Panics
        }
    } else if t.len() == 1 {
        HexScan::Rejected
    } else if !is_ascii_char(t[1]) {
        HexScan::Panics
    } else {
        match hex_pair(t[0], t[1]) {
            None => HexScan::Rejected,
            Some(b) => prepend(seq![b], scan_hex(t.skip(2))),
        }
    }
}

/// The outcome of decoding the text `v`.
pub open spec fn hex_result(v: Seq<char>) -> HexScan {
    let t = trim(v);
    if utf8_len(t) % 2 == 1 {
        HexScan::Rejected
    } else {
        scan_hex(t)
    }
}

/// The bytes that `v` decodes to, if it is hex.
pub open spec fn spec_decode_hex(v: Seq<char>) -> Option<Seq<u8>> {
    match hex_result(v) {
        HexScan::Bytes(b) => Some(b),
        _ => None,
    }
}

/// The texts that the decoder cannot read at all.
pub open spec fn hex_panics(v: Seq<char>) -> bool {
    hex_result(v) is Panics
}

proof fn lemma_hex_digit(n: int)
    requires
        0 <= n < 16,
    ensures
        hex_value(hex_digit(n)) == Some(n as u8),
        is_ascii_char(hex_digit(n)),
        !is_space_char(hex_digit(n)),
        hex_digit(n) != '+',
{
    if n < 10 {
        assert(((48 + n) as char) as u32 == 48 + n);
    } else {
        assert(((87 + n) as char) as u32 == 87 + n);
    }
}

pub proof fn lemma_encode_hex_chars(b: Seq<u8>, i: int)
    requires
        0 <= i < 2 * b.len(),
    ensures
        0 <= hex_nibble(b, i) < 16,
        hex_value(spec_encode_hex(b)[i]) == Some(hex_nibble(b, i) as u8),
        is_ascii_char(spec_encode_hex(b)[i]),
        !is_space_char(spec_encode_hex(b)[i]),
        spec_encode_hex(b)[i] != '+',
{
    lemma_hex_digit(hex_nibble(b, i));
}

/// Hex text is plain ASCII: no whitespace, no tab, no sign.
pub proof fn lemma_encode_hex_plain(b: Seq<u8>)
    ensures
        forall|i: int|
            0 <= i < spec_encode_hex(b).len() ==> {
                &&& is_ascii_char(#[trigger] spec_encode_hex(b)[i])
                &&& !is_space_char(spec_encode_hex(b)[i])
                &&& spec_encode_hex(b)[i] != '\t'
                &&& spec_encode_hex(b)[i] != '\n'
            },
        !spec_encode_hex(b).contains('\t'),
        !spec_encode_hex(b).contains('\n'),
        spec_encode_hex(b).len() == 2 * b.len(),
{
    let e = spec_encode_hex(b);
    assert forall|i: int| 0 <= i < e.len() implies {
        &&& is_ascii_char(#[trigger] e[i])
        &&& !is_space_char(e[i])
        &&& e[i] != '\t'
        &&& e[i] != '\n'
    } by {
        lemma_encode_hex_chars(b, i);
    }
}

proof fn lemma_utf8_len_ascii(s: Seq<char>)
    requires
        forall|i: int| 0 <= i < s.len() ==> is_ascii_char(#[trigger] s[i]),
    ensures
        utf8_len(s) == s.len(),
    decreases s.len(),
{
    if s.len() > 0 {
        assert(is_ascii_char(s[s.len() - 1]));
        lemma_utf8_len_ascii(s.drop_last());
    }
}

proof fn lemma_scan_encoded(b: Seq<u8>)
    ensures
        scan_hex(spec_encode_hex(b)) == HexScan::Bytes(b),
    decreases b.len(),
{
    let e = spec_encode_hex(b);
    if b.len() == 0 {
        assert(e.len() == 0);
        assert(b =~= Seq::<u8>::empty());
    } else {
        assert(e.len() >= 2);
        lemma_encode_hex_chars(b, 0);
        lemma_encode_hex_chars(b, 1);
        assert(hex_nibble(b, 0) == b[0] / 16);
        assert(hex_nibble(b, 1) == b[0] % 16);
        assert(hex_pair(e[0], e[1]) == Some(b[0]));
        let rest = b.skip(1);
        assert forall|k: int| 0 <= k < 2 * rest.len() implies hex_nibble(rest, k) == hex_nibble(b, k + 2) by {
            assert((k + 2) / 2 == k / 2 + 1);
            assert((k + 2) % 2 == k % 2);
        }
        assert(e.skip(2) =~= spec_encode_hex(rest));
        lemma_scan_encoded(rest);
        assert(seq![b[0]] + rest =~= b);
    }
}

/// Decoding the hex encoding of any byte string gives the bytes back, and
/// the decoder can always read such a text.
pub proof fn lemma_hex_round_trip(b: Seq<u8>)
    ensures
        hex_result(spec_encode_hex(b)) == HexScan::Bytes(b),
        spec_decode_hex(spec_encode_hex(b)) == Some(b),
        !hex_panics(spec_encode_hex(b)),
{
    let e = spec_encode_hex(b);
    assert forall|i: int| 0 <= i < e.len() implies is_ascii_char(#[trigger] e[i]) && !is_space_char(e[i]) by {
        lemma_encode_hex_chars(b, i);
    }
    if e.len() > 0 {
        lemma_trim_start_noop(e);
        assert(!is_space_char(e[e.len() - 1]));
        lemma_trim_end_suffix(e, Seq::empty());
        assert(e + Seq::<char>::empty() =~= e);
    }
    assert(trim(e) == e);
    lemma_utf8_len_ascii(e);
    lemma_scan_encoded(b);
}

/// The outcome of decoding, as an executable value.
pub enum HexOutcome {
    Decoded(Vec<u8>),
    Rejected,
    Panics,
}

/// A parse whose input may hold a hex field that cannot be read at all.
pub enum Reading<T> {
    /// The parse ran to its end with this result.
    Done(T),
    /// A hex field could not be read.
    Unreadable,
}

/// `o` describes the same outcome as `s`.
pub open spec fn outcome_is(o: HexOutcome, s: HexScan) -> bool {
    match o {
        HexOutcome::Decoded(b) => s == HexScan::Bytes(b@),
        HexOutcome::Rejected => s is Rejected,
        HexOutcome::Panics => s is Panics,
    }
}

fn nibble_char(n: u8) -> (c: char)
    requires
        n < 16,
    ensures
        c == hex_digit(n as int),
{
    if n < 10 {
        (48 + n) as char
    } else {
        (87 + n) as char
    }
}

/// Encodes `bytes` as lower-case hex, two digits per byte.
pub fn encode_hex(bytes: &[u8]) -> (res: String)
    ensures
        res@ == spec_encode_hex(bytes@),
{
    let mut out = String::new();
    let mut i: usize = 0;
    while i < bytes.len()
        invariant
            i <= bytes.len(),
            out@ =~= spec_encode_hex(bytes@.take(i as int)),
        decreases bytes.len() - i,
    {
        let b = bytes[i];
        push_char(&mut out, nibble_char(b / 16));
        push_char(&mut out, nibble_char(b % 16));
        let ghost next = bytes@.take(i + 1);
        assert(forall|k: int| 0 <= k < 2 * i ==> hex_nibble(next, k) == hex_nibble(bytes@.take(i as int), k));
        assert(hex_nibble(next, 2 * i) == b / 16);
        assert(hex_nibble(next, 2 * i + 1) == b % 16);
        i = i + 1;
    }
    assert(bytes@.take(bytes.len() as int) =~= bytes@);
    out
}

fn char_hex_value(c: char) -> (res: Option<u8>)
    ensures
        res == hex_value(c),
{
    let u = c as u32;
    if 48 <= u && u <= 57 {
        Some((u - 48) as u8)
    } else if 97 <= u && u <= 102 {
        Some((u - 87) as u8)
    } else if 65 <= u && u <= 70 {
        Some((u - 55) as u8)
    } else {
        None
    }
}

fn char_hex_pair(c0: char, c1: char) -> (res: Option<u8>)
    ensures
        res == hex_pair(c0, c1),
{
    if c0 == '+' {
        char_hex_value(c1)
    } else {
        match (char_hex_value(c0), char_hex_value(c1)) {
            (Some(h), Some(l)) => Some(h * 16 + l),
            _ => None,
        }
    }
}

fn char_width_is_odd(c: char) -> (res: bool)
    ensures
        res == (utf8_width(c) % 2 == 1),
{
    let u = c as u32;
    u < 0x80 || (0x800 <= u && u < 0x10000)
}

fn char_width_is_two(c: char) -> (res: bool)
    ensures
        res == (utf8_width(c) == 2),
{
    let u = c as u32;
    0x80 <= u && u < 0x800
}

/// Decodes the text held in `v`, telling apart the texts that the decoder
/// cannot read from those that are merely not hex.
pub fn hex_outcome(v: &Vec<char>) -> (res: HexOutcome)
    ensures
        outcome_is(res, hex_result(v@)),
{
    let t = trim_chars(v);
    let mut odd = false;
    let mut i: usize = 0;
    assert(t@.take(0) =~= Seq::<char>::empty());
    while i < t.len()
        invariant
            i <= t.len(),
            odd == (utf8_len(t@.take(i as int)) % 2 == 1),
        decreases t.len() - i,
    {
        assert(t@.take(i + 1).drop_last() =~= t@.take(i as int));
        if char_width_is_odd(t[i]) {
            odd = !odd;
        }
        i = i + 1;
    }
    assert(t@.take(t.len() as int) =~= t@);
    if odd {
        return HexOutcome::Rejected;
    }
    let mut out: Vec<u8> = Vec::new();
    let mut i: usize = 0;
    assert(t@.skip(0) =~= t@);
    assert(out@ + Seq::<u8>::empty() =~= out@);
    while i < t.len()
        invariant
            i <= t.len(),
            utf8_len(t@) % 2 == 0,
            t@ == trim(v@),
            scan_hex(t@) == prepend(out@, scan_hex(t@.skip(i as int))),
        decreases t.len() - i,
    {
        let ghost rest = t@.skip(i as int);
        let c0 = t[i];
        assert(rest[0] == c0);
        if (c0 as u32) >= 0x80 {
            if char_width_is_two(c0) {
                return HexOutcome::Rejected;
            } else {
                return HexOutcome::Panics;
            }
        }
        if i + 1 >= t.len() {
            assert(rest.len() == 1);
            return HexOutcome::Rejected;
        }
        let c1 = t[i + 1];
        assert(rest[1] == c1);
        if (c1 as u32) >= 0x80 {
            return HexOutcome::Panics;
        }
        match char_hex_pair(c0, c1) {
            None => {
                return HexOutcome::Rejected;
            },
            Some(b) => {
                assert(rest.skip(2) =~= t@.skip(i + 2));
                let ghost before = out@;
                out.push(b);
                proof {
                    match scan_hex(t@.skip(i + 2)) {
                        HexScan::Bytes(x) => {
                            assert(before + (seq![b] + x) =~= out@ + x);
                        },
                        _ => {},
                    }
                }
                i = i + 2;
            },
        }
    }
    assert(t@.skip(t.len() as int) =~= Seq::<char>::empty());
    assert(out@ + Seq::<u8>::empty() =~= out@);
    HexOutcome::Decoded(out)
}

/// Decodes a hex text: surrounding whitespace is ignored, the text must
/// have an even number of UTF-8 bytes, and each pair of bytes must be a
/// base-16 number.
pub fn decode_hex(value: &str) -> (res: Option<Vec<u8>>)
    requires
        !hex_panics(value@),
    ensures
        match res {
            Some(b) => spec_decode_hex(value@) == Some(b@),
            None => spec_decode_hex(value@) is None,
        },
{
    let chars = chars_of(value);
    match hex_outcome(&chars) {
        HexOutcome::Decoded(b) => Some(b),
        _ => None,
    }
}

/// Whether `decode_hex` cannot read `value`.
pub fn decode_hex_panics(value: &str) -> (res: bool)
    ensures
        res == hex_panics(value@),
{
    let chars = chars_of(value);
    match hex_outcome(&chars) {
        HexOutcome::Panics => true,
        _ => false,
    }
}

} // verus!
