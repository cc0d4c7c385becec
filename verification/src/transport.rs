//! Encrypted clipboard text and the one-line frame it travels in:
//! `RSCP_TEXT_V2 <tab> sender id <tab> nonce hex <tab> ciphertext hex <newline>`.

use vstd::prelude::*;
use vstd::utf8::{
    decode_utf8, encode_scalar, encode_utf8, has_width_1_encoding, has_width_2_encoding,
    has_width_3_encoding, last_continuation_byte, leading_byte_width_1, leading_byte_width_2,
    leading_byte_width_3, leading_byte_width_4, second_last_continuation_byte,
    third_last_continuation_byte, valid_utf8,
};
use crate::crypto::{shared_key, spec_shared_key, spec_shared_key_result};
use crate::device::DeviceId;
use crate::error::SpanError;
use crate::hex::{
    encode_hex, hex_outcome, hex_panics, spec_decode_hex, spec_encode_hex, HexOutcome, Reading,
};
use crate::primitives::{
    fits_cipher, random_nonce, utf8_to_string, x25519_public_key_of, xchacha_open, xchacha_open_of,
    xchacha_seal, xchacha_seal_of,
};
use crate::text::{
    chars_eq_str, is_blank, push_char, push_str_chars, split_chars, split_on, string_of, trim_end,
    trim_end_chars,
};

verus! {

broadcast use vstd::utf8::group_utf8_lib;

/// The TCP port clipboard text is sent to.
pub const TEXT_PORT: u16 = 46793;

/// The first field of every text frame.
pub const MAGIC: &'static str = "RSCP_TEXT_V2";

/// The largest clipboard text, in bytes.
pub const MAX_TEXT_BYTES: usize = 65536;

/// The largest ciphertext a frame may carry.
pub const MAX_CIPHERTEXT_BYTES: usize = 65568;

/// The HKDF info for text keys, the bytes of `rs-cp-text-v2`.
pub const KEY_INFO: [u8; 13] = [114, 115, 45, 99, 112, 45, 116, 101, 120, 116, 45, 118, 50];

/// Clipboard text encrypted for one recipient.
#[derive(Clone, Debug, PartialEq, Eq)]
pub struct EncryptedTextPacket {
    pub from: DeviceId,
    pub nonce: [u8; 24],
    pub ciphertext: Vec<u8>,
}

/// The contents of a packet.
pub struct PacketView {
    pub from: Seq<char>,
    pub nonce: Seq<u8>,
    pub ciphertext: Seq<u8>,
}

impl View for EncryptedTextPacket {
    type V = PacketView;

    open spec fn view(&self) -> PacketView {
        PacketView { from: self.from@, nonce: self.nonce@, ciphertext: self.ciphertext@ }
    }
}

/// The key used for text sent between a secret key and a peer public key
/// in hex.
pub open spec fn text_key(secret: Seq<u8>, peer_public_hex: Seq<char>) -> Result<Seq<u8>, SpanError> {
    spec_shared_key_result(secret, peer_public_hex, KEY_INFO@)
}

/// Encrypts `text` under `key` and `nonce` into a packet from `from`.
pub fn seal_text(from: &DeviceId, key: &[u8; 32], nonce: [u8; 24], text: &str) -> (res: Result<
    EncryptedTextPacket,
    SpanError,
>)
    ensures
        res is Ok <==> fits_cipher(encode_utf8(text@).len()),
        res matches Ok(p) ==> p.from@ == from@ && p.nonce@ == nonce@ && p.ciphertext@
            == xchacha_seal_of(key@, nonce@, encode_utf8(text@)) && p.ciphertext@.len()
            == encode_utf8(text@).len() + 16,
        res matches Err(e) ==> e == SpanError::EncryptFailed,
{
    match xchacha_seal(key, &nonce, text.as_bytes()) {
        Some(ciphertext) => Ok(EncryptedTextPacket { from: from.clone(), nonce, ciphertext }),
        None => Err(SpanError::EncryptFailed),
    }
}

/// Encrypts `text` for the device whose public key is given in hex, under a
/// fresh random nonce.
pub fn encrypt_text(
    from: &DeviceId,
    sender_private_key: &[u8; 32],
    recipient_public_key: &str,
    text: &str,
) -> (res: Result<EncryptedTextPacket, SpanError>)
    requires
        !hex_panics(recipient_public_key@),
    ensures
        text_key(sender_private_key@, recipient_public_key@) matches Err(e) ==> res == Err::<
            EncryptedTextPacket,
            SpanError,
        >(e),
        text_key(sender_private_key@, recipient_public_key@) matches Ok(k) ==> {
            &&& res is Ok <==> fits_cipher(encode_utf8(text@).len())
            &&& (res matches Ok(p) ==> p.from@ == from@ && p.ciphertext@ == xchacha_seal_of(
                k,
                p.nonce@,
                encode_utf8(text@),
            ) && p.ciphertext@.len() == encode_utf8(text@).len() + 16)
            &&& (res matches Err(e) ==> e == SpanError::EncryptFailed)
        },
{
    let key = shared_key(sender_private_key, recipient_public_key, &KEY_INFO)?;
    let nonce = random_nonce();
    seal_text(from, &key, nonce, text)
}

/// What decrypting `p` with a receiver's secret key and the sender's public
/// key in hex gives: a key error, a failed authentication, plaintext that is
/// not UTF-8, or the text.
pub open spec fn spec_decrypt_text(
    p: PacketView,
    receiver_secret: Seq<u8>,
    sender_public_hex: Seq<char>,
) -> Result<Seq<char>, SpanError> {
    match text_key(receiver_secret, sender_public_hex) {
        Err(e) => Err(e),
        Ok(k) => match xchacha_open_of(k, p.nonce, p.ciphertext) {
            None => Err(SpanError::DecryptFailed),
            Some(plain) => if valid_utf8(plain) {
                Ok(decode_utf8(plain))
            } else {
                Err(SpanError::PlaintextNotUtf8)
            },
        },
    }
}

/// Decrypts a packet sent by the device whose public key is given in hex.
///
/// What a device encrypted for this receiver decrypts to the text that was encrypted:
/// the sender used its own secret key and the receiver's public key, the
/// receiver uses its secret key and the sender's public key.
pub fn decrypt_text(
    packet: &EncryptedTextPacket,
    receiver_private_key: &[u8; 32],
    sender_public_key: &str,
) -> (res: Result<String, SpanError>)
    requires
        !hex_panics(sender_public_key@),
    ensures
        res matches Ok(t) ==> spec_decrypt_text(packet@, receiver_private_key@, sender_public_key@)
            == Ok::<Seq<char>, SpanError>(t@),
        res matches Err(e) ==> spec_decrypt_text(packet@, receiver_private_key@, sender_public_key@)
            == Err::<Seq<char>, SpanError>(e),
        forall|sender_secret: Seq<u8>, text: Seq<char>|
            sender_secret.len() == 32 && x25519_public_key_of(sender_secret).len() == 32
                && x25519_public_key_of(receiver_private_key@).len() == 32 && spec_decode_hex(
                sender_public_key@,
            ) == Some(x25519_public_key_of(sender_secret)) && fits_cipher(encode_utf8(text).len())
                && packet.ciphertext@ == #[trigger] xchacha_seal_of(
                spec_shared_key(
                    sender_secret,
                    x25519_public_key_of(receiver_private_key@),
                    KEY_INFO@,
                ),
                packet.nonce@,
                encode_utf8(text),
            ) ==> (res matches Ok(s) && s@ == text),
{
    let key = match shared_key(receiver_private_key, sender_public_key, &KEY_INFO) {
        Ok(k) => k,
        Err(e) => {
            return Err(e);
        },
    };
    let plaintext = match xchacha_open(&key, &packet.nonce, packet.ciphertext.as_slice()) {
        Some(p) => p,
        None => {
            return Err(SpanError::DecryptFailed);
        },
    };
    let ghost p = plaintext@;
    match utf8_to_string(plaintext) {
        Some(s) => Ok(s),
        None => Err(SpanError::PlaintextNotUtf8),
    }
}

/// The frame of a packet: magic word, sender id, nonce and ciphertext in
/// hex, tab-separated, ending with a newline.
pub open spec fn spec_packet_line(p: PacketView) -> Seq<char> {
    MAGIC@ + seq!['\t'] + p.from + seq!['\t'] + spec_encode_hex(p.nonce) + seq!['\t']
        + spec_encode_hex(p.ciphertext) + seq!['\n']
}

/// Writes the frame of `packet` to `out` as UTF-8, unless its ciphertext is
/// too large to send.
pub fn write_packet(out: &mut Vec<u8>, packet: &EncryptedTextPacket) -> (res: Result<(), SpanError>)
    ensures
        packet.ciphertext@.len() > MAX_CIPHERTEXT_BYTES ==> res == Err::<(), SpanError>(
            SpanError::CiphertextTooLargeToSend,
        ) && final(out)@ == old(out)@,
        packet.ciphertext@.len() <= MAX_CIPHERTEXT_BYTES ==> res is Ok && final(out)@ == old(out)@
            + encode_utf8(spec_packet_line(packet@)),
{
    if packet.ciphertext.len() > MAX_CIPHERTEXT_BYTES {
        return Err(SpanError::CiphertextTooLargeToSend);
    }
    let mut line = String::new();
    push_str_chars(&mut line, MAGIC);
    push_char(&mut line, '\t');
    let from = packet.from.to_string();
    push_str_chars(&mut line, from.as_str());
    push_char(&mut line, '\t');
    let nonce_hex = encode_hex(&packet.nonce);
    push_str_chars(&mut line, nonce_hex.as_str());
    push_char(&mut line, '\t');
    let ciphertext_hex = encode_hex(packet.ciphertext.as_slice());
    push_str_chars(&mut line, ciphertext_hex.as_str());
    push_char(&mut line, '\n');
    assert(line@ =~= spec_packet_line(packet@));
    out.extend_from_slice(line.as_str().as_bytes());
    Ok(())
}

/// The length of the first line of `d`, its newline byte included; all of
/// `d` when it has no newline.
pub open spec fn line_end(d: Seq<u8>) -> nat
    decreases d.len(),
{
    if d.len() == 0 {
        0
    } else if d[0] == 10 {
        1
    } else {
        1 + line_end(d.drop_first())
    }
}

/// The first line of `d`, as a line reader returns it.
pub open spec fn first_line(d: Seq<u8>) -> Seq<u8> {
    d.take(line_end(d) as int)
}

/// The tab-separated fields of a header line, trailing whitespace removed.
pub open spec fn header_fields(h: Seq<char>) -> Seq<Seq<char>> {
    split_on(trim_end(h), '\t')
}

/// What reading a packet from the bytes `d` gives.
pub open spec fn spec_read_packet(d: Seq<u8>) -> Result<PacketView, SpanError> {
    let line = first_line(d);
    if !valid_utf8(line) {
        Err(SpanError::HeaderNotUtf8)
    } else {
        let f = header_fields(decode_utf8(line));
        if f[0] != MAGIC@ {
            Err(SpanError::BadMagic)
        } else if f.len() < 2 || is_blank(f[1]) {
            Err(SpanError::BadDeviceId)
        } else if f.len() < 3 {
            Err(SpanError::BadNonce)
        } else {
            match spec_decode_hex(f[2]) {
                Some(n) => if n.len() != 24 {
                    Err(SpanError::BadNonce)
                } else if f.len() < 4 {
                    Err(SpanError::BadCiphertext)
                } else {
                    match spec_decode_hex(f[3]) {
                        None => Err(SpanError::BadCiphertext),
                        Some(c) => if c.len() > MAX_CIPHERTEXT_BYTES {
                            Err(SpanError::CiphertextTooLarge)
                        } else {
                            Ok(PacketView { from: f[1], nonce: n, ciphertext: c })
                        },
                    }
                },
                None => Err(SpanError::BadNonce),
            }
        }
    }
}

/// The inputs whose nonce or ciphertext field the reader cannot read at all.
pub open spec fn read_packet_panics(d: Seq<u8>) -> bool {
    let line = first_line(d);
    let f = header_fields(decode_utf8(line));
    &&& valid_utf8(line)
    &&& f[0] == MAGIC@
    &&& f.len() >= 3
    &&& !is_blank(f[1])
    &&& (hex_panics(f[2]) || (spec_decode_hex(f[2]) matches Some(n) && n.len() == 24 && f.len()
        >= 4 && hex_panics(f[3])))
}

fn nonce_of(bytes: &Vec<u8>) -> (res: Option<[u8; 24]>)
    ensures
        res is Some <==> bytes@.len() == 24,
        res matches Some(k) ==> k@ == bytes@,
{
    if bytes.len() != 24 {
        return None;
    }
    let mut nonce = [0u8; 24];
    let mut i: usize = 0;
    while i < 24
        invariant
            i <= 24,
            bytes@.len() == 24,
            forall|j: int| 0 <= j < i ==> nonce@[j] == bytes@[j],
        decreases 24 - i,
    {
        nonce[i] = bytes[i];
        i = i + 1;
    }
    assert(nonce@ =~= bytes@);
    Some(nonce)
}

proof fn lemma_line_end_prefix(d: Seq<u8>, i: int)
    requires
        0 <= i <= d.len(),
        forall|j: int| 0 <= j < i ==> d[j] != 10,
    ensures
        line_end(d) == i + line_end(d.skip(i)),
    decreases i,
{
    if i > 0 {
        assert(d.skip(1).skip(i - 1) =~= d.skip(i));
        lemma_line_end_prefix(d.skip(1), i - 1);
        assert(d.drop_first() =~= d.skip(1));
    } else {
        assert(d.skip(0) =~= d);
    }
}

fn first_line_of(data: &[u8]) -> (res: Vec<u8>)
    ensures
        res@ == first_line(data@),
{
    let mut i: usize = 0;
    while i < data.len() && data[i] != 10
        invariant
            i <= data.len(),
            forall|j: int| 0 <= j < i ==> data@[j] != 10,
        decreases data.len() - i,
    {
        i = i + 1;
    }
    proof {
        lemma_line_end_prefix(data@, i as int);
    }
    let end = if i < data.len() {
        i + 1
    } else {
        i
    };
    let mut line: Vec<u8> = Vec::new();
    let mut k: usize = 0;
    while k < end
        invariant
            k <= end <= data.len(),
            line@ == data@.take(k as int),
        decreases end - k,
    {
        line.push(data[k]);
        assert(data@.take(k + 1) =~= data@.take(k as int).push(data@[k as int]));
        k = k + 1;
    }
    line
}

fn read_packet_reading(data: &[u8]) -> (res: Reading<Result<EncryptedTextPacket, SpanError>>)
    ensures
        match res {
            Reading::Done(r) => !read_packet_panics(data@) && match r {
                Ok(p) => spec_read_packet(data@) == Ok::<PacketView, SpanError>(p@),
                Err(e) => spec_read_packet(data@) == Err::<PacketView, SpanError>(e),
            },
            Reading::Unreadable => read_packet_panics(data@),
        },
{
    let line = first_line_of(data);
    let ghost line_bytes = line@;
    let header = match utf8_to_string(line) {
        Some(h) => h,
        None => {
            return Reading::Done(Err(SpanError::HeaderNotUtf8));
        },
    };
    let chars = crate::text::chars_of(header.as_str());
    let trimmed = trim_end_chars(&chars);
    let fields = split_chars(&trimmed, '\t');
    proof {
        crate::text::lemma_split_on_nonempty(trimmed@, '\t');
    }
    let ghost f = header_fields(decode_utf8(line_bytes));
    assert(fields@[0]@ == f[0]);
    if !chars_eq_str(&fields[0], MAGIC) {
        return Reading::Done(Err(SpanError::BadMagic));
    }
    if fields.len() < 2 {
        return Reading::Done(Err(SpanError::BadDeviceId));
    }
    assert(fields@[1]@ == f[1]);
    let from = match DeviceId::new(string_of(&fields[1])) {
        Some(id) => id,
        None => {
            return Reading::Done(Err(SpanError::BadDeviceId));
        },
    };
    if fields.len() < 3 {
        return Reading::Done(Err(SpanError::BadNonce));
    }
    assert(fields@[2]@ == f[2]);
    let nonce = match hex_outcome(&fields[2]) {
        HexOutcome::Panics => {
            return Reading::Unreadable;
        },
        HexOutcome::Rejected => {
            return Reading::Done(Err(SpanError::BadNonce));
        },
        HexOutcome::Decoded(b) => match nonce_of(&b) {
            Some(n) => n,
            None => {
                return Reading::Done(Err(SpanError::BadNonce));
            },
        },
    };
    if fields.len() < 4 {
        return Reading::Done(Err(SpanError::BadCiphertext));
    }
    assert(fields@[3]@ == f[3]);
    let ciphertext = match hex_outcome(&fields[3]) {
        HexOutcome::Panics => {
            return Reading::Unreadable;
        },
        HexOutcome::Rejected => {
            return Reading::Done(Err(SpanError::BadCiphertext));
        },
        HexOutcome::Decoded(b) => b,
    };
    if ciphertext.len() > MAX_CIPHERTEXT_BYTES {
        return Reading::Done(Err(SpanError::CiphertextTooLarge));
    }
    Reading::Done(Ok(EncryptedTextPacket { from, nonce, ciphertext }))
}

/// Reads a packet from the first line of `data`; what follows the first
/// newline is ignored.
pub fn read_packet(data: &[u8]) -> (res: Result<EncryptedTextPacket, SpanError>)
    requires
        !read_packet_panics(data@),
    ensures
        res matches Ok(p) ==> spec_read_packet(data@) == Ok::<PacketView, SpanError>(p@),
        res matches Err(e) ==> spec_read_packet(data@) == Err::<PacketView, SpanError>(e),
{
    match read_packet_reading(data) {
        Reading::Done(r) => r,
        Reading::Unreadable => Err(SpanError::BadNonce),
    }
}

/// Whether `read_packet` cannot read `data`.
pub fn read_packet_panics_on(data: &[u8]) -> (res: bool)
    ensures
        res == read_packet_panics(data@),
{
    match read_packet_reading(data) {
        Reading::Done(_) => false,
        Reading::Unreadable => true,
    }
}

proof fn lemma_encode_utf8_concat(a: Seq<char>, b: Seq<char>)
    ensures
        encode_utf8(a + b) == encode_utf8(a) + encode_utf8(b),
    decreases a.len(),
{
    if a.len() == 0 {
        assert(a + b =~= b);
        assert(encode_utf8(a) + encode_utf8(b) =~= encode_utf8(b));
    } else {
        assert((a + b).drop_first() =~= a.drop_first() + b);
        assert((a + b)[0] == a[0]);
        lemma_encode_utf8_concat(a.drop_first(), b);
    }
}

proof fn lemma_encode_scalar_no_newline(c: char)
    requires
        c != '\n',
    ensures
        forall|i: int|
            0 <= i < encode_scalar(c as u32).len() ==> #[trigger] encode_scalar(c as u32)[i] != 10,
{
    let u = c as u32;
    assert(u != 10);
    if has_width_1_encoding(u) {
        assert(leading_byte_width_1(u) != 10u8) by (bit_vector)
            requires
                u <= 0x7f && u != 10,
        ;
    } else if has_width_2_encoding(u) {
        assert(leading_byte_width_2(u) != 10u8) by (bit_vector);
        assert(last_continuation_byte(u) != 10u8) by (bit_vector);
    } else if has_width_3_encoding(u) {
        assert(leading_byte_width_3(u) != 10u8) by (bit_vector);
        assert(second_last_continuation_byte(u) != 10u8) by (bit_vector);
        assert(last_continuation_byte(u) != 10u8) by (bit_vector);
    } else {
        assert(leading_byte_width_4(u) != 10u8) by (bit_vector);
        assert(third_last_continuation_byte(u) != 10u8) by (bit_vector);
        assert(second_last_continuation_byte(u) != 10u8) by (bit_vector);
        assert(last_continuation_byte(u) != 10u8) by (bit_vector);
    }
}

proof fn lemma_encode_utf8_no_newline(a: Seq<char>)
    requires
        !a.contains('\n'),
    ensures
        forall|i: int| 0 <= i < encode_utf8(a).len() ==> #[trigger] encode_utf8(a)[i] != 10,
    decreases a.len(),
{
    if a.len() > 0 {
        assert(a[0] != '\n') by {
            if a[0] == '\n' {
                assert(a.contains('\n'));
            }
        }
        assert(!a.drop_first().contains('\n')) by {
            if a.drop_first().contains('\n') {
                let k = choose|k: int| 0 <= k < a.drop_first().len() && a.drop_first()[k] == '\n';
                assert(a[k + 1] == '\n');
            }
        }
        lemma_encode_scalar_no_newline(a[0]);
        lemma_encode_utf8_no_newline(a.drop_first());
        let e0 = encode_scalar(a[0] as u32);
        let e1 = encode_utf8(a.drop_first());
        assert forall|i: int| 0 <= i < encode_utf8(a).len() implies #[trigger] encode_utf8(a)[i] != 10 by {
            if i < e0.len() {
                assert(encode_utf8(a)[i] == e0[i]);
            } else {
                assert(encode_utf8(a)[i] == e1[i - e0.len()]);
            }
        }
    }
}

proof fn lemma_encode_newline()
    ensures
        encode_utf8(seq!['\n']) == seq![10u8],
{
    let u = '\n' as u32;
    assert(u == 10);
    assert(leading_byte_width_1(u) == 10u8) by (bit_vector)
        requires
            u == 10,
    ;
    let s = seq!['\n'];
    assert(s.drop_first() =~= Seq::<char>::empty());
    assert(s[0] as u32 == 10);
    assert(has_width_1_encoding(u));
    assert(encode_scalar(u) =~= seq![10u8]);
    assert(encode_utf8(Seq::<char>::empty()) =~= Seq::<u8>::empty());
    assert(encode_utf8(s) == encode_scalar(s[0] as u32) + encode_utf8(s.drop_first()));
    assert(encode_utf8(s) =~= seq![10u8]);
}

/// A frame written for a packet reads back as the same packet, whatever
/// bytes follow it, when the sender id holds no tab or newline and the
/// ciphertext is not empty and not over the limit; the reader can always
/// read such a frame.
pub proof fn lemma_packet_round_trip(p: PacketView, rest: Seq<u8>)
    requires
        !is_blank(p.from),
        !p.from.contains('\t'),
        !p.from.contains('\n'),
        p.nonce.len() == 24,
        0 < p.ciphertext.len() <= MAX_CIPHERTEXT_BYTES,
    ensures
        !read_packet_panics(encode_utf8(spec_packet_line(p)) + rest),
        spec_read_packet(encode_utf8(spec_packet_line(p)) + rest) == Ok::<PacketView, SpanError>(p),
{
    reveal_strlit("RSCP_TEXT_V2");
    let tab = seq!['\t'];
    let m = MAGIC@;
    let hn = spec_encode_hex(p.nonce);
    let hc = spec_encode_hex(p.ciphertext);
    let r2 = hn + tab + hc;
    let r1 = p.from + tab + r2;
    let x = m + tab + r1;
    let line = spec_packet_line(p);
    assert(line =~= x + seq!['\n']);
    assert(!m.contains('\t') && !m.contains('\n')) by {
        assert(forall|i: int| 0 <= i < m.len() ==> m[i] != '\t' && m[i] != '\n');
    }
    crate::hex::lemma_encode_hex_plain(p.nonce);
    crate::hex::lemma_encode_hex_plain(p.ciphertext);
    crate::hex::lemma_hex_round_trip(p.nonce);
    crate::hex::lemma_hex_round_trip(p.ciphertext);
    assert(!x.contains('\n')) by {
        if x.contains('\n') {
            let k = choose|k: int| 0 <= k < x.len() && x[k] == '\n';
            if k < m.len() {
                assert(m[k] == '\n');
            } else if k < m.len() + 1 {
            } else if k < m.len() + 1 + p.from.len() {
                assert(p.from[k - m.len() - 1] == '\n');
            } else if k < m.len() + 2 + p.from.len() {
            } else if k < m.len() + 2 + p.from.len() + hn.len() {
                assert(hn[k - m.len() - 2 - p.from.len()] == '\n');
            } else if k < m.len() + 3 + p.from.len() + hn.len() {
            } else {
                assert(hc[k - m.len() - 3 - p.from.len() - hn.len()] == '\n');
            }
        }
    }
    lemma_encode_utf8_concat(x, seq!['\n']);
    lemma_encode_newline();
    lemma_encode_utf8_no_newline(x);
    let ex = encode_utf8(x);
    let d = encode_utf8(line) + rest;
    assert(d =~= ex + seq![10u8] + rest);
    assert forall|j: int| 0 <= j < ex.len() implies d[j] != 10 by {
        assert(d[j] == ex[j]);
    }
    lemma_line_end_prefix(d, ex.len() as int);
    assert(d.skip(ex.len() as int)[0] == 10);
    assert(first_line(d) =~= encode_utf8(line));
    assert(decode_utf8(first_line(d)) == line);
    assert(x.last() == hc[hc.len() - 1]);
    assert(crate::text::is_blank(seq!['\n'])) by {
        assert(crate::text::is_space_char('\n'));
    }
    crate::text::lemma_trim_end_suffix(x, seq!['\n']);
    crate::text::lemma_split_on_no_sep(m, '\t');
    crate::text::lemma_split_on_no_sep(p.from, '\t');
    crate::text::lemma_split_on_no_sep(hn, '\t');
    crate::text::lemma_split_on_no_sep(hc, '\t');
    crate::text::lemma_split_on_concat(hn, hc, '\t');
    crate::text::lemma_split_on_concat(p.from, r2, '\t');
    crate::text::lemma_split_on_concat(m, r1, '\t');
    let f = header_fields(decode_utf8(first_line(d)));
    assert(f =~= seq![m, p.from, hn, hc]);
}

} // verus!
