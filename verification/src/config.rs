//! The local device record, the platform names it is written with, and the
//! one-line tab-separated format in which it is saved and loaded.

use vstd::prelude::*;
use crate::device::{DeviceId, Platform};
use crate::hex::{
    encode_hex, hex_outcome, hex_panics, lemma_hex_round_trip, spec_decode_hex, spec_encode_hex,
    HexOutcome, Reading,
};
use crate::text::{
    chars_eq_str, chars_of, count_char, decimal, is_blank, is_space_char, lemma_count_char_absent, lemma_count_char_concat,
    lemma_split_on_concat,
    lemma_split_on_no_sep, lemma_trim_end_suffix, lemma_trim_start_noop, push_char, push_decimal,
    push_str_chars, split_chars, split_on, string_of, trim, trim_chars,
};

verus! {

/// This machine's identity and key pair.
#[derive(Clone, Debug)]
pub struct LocalDevice {
    pub id: DeviceId,
    pub name: String,
    pub platform: Platform,
    pub private_key: [u8; 32],
    pub public_key: [u8; 32],
}

/// The contents of a local device record.
pub struct LocalDeviceView {
    pub id: Seq<char>,
    pub name: Seq<char>,
    pub platform: Platform,
    pub private_key: Seq<u8>,
    pub public_key: Seq<u8>,
}

impl View for LocalDevice {
    type V = LocalDeviceView;

    open spec fn view(&self) -> LocalDeviceView {
        LocalDeviceView {
            id: self.id@,
            name: self.name@,
            platform: self.platform,
            private_key: self.private_key@,
            public_key: self.public_key@,
        }
    }
}

impl LocalDevice {
    /// The public key as lower-case hex.
    pub fn public_key_hex(&self) -> (res: String)
        ensures
            res@ == spec_encode_hex(self.public_key@),
    {
        encode_hex(&self.public_key)
    }
}

/// The name a platform is written with.
pub open spec fn spec_platform_name(platform: Platform) -> Seq<char> {
    match platform {
        Platform::Windows => "windows"@,
        Platform::MacOs => "macos"@,
        Platform::Linux => "linux"@,
        Platform::Android => "android"@,
        Platform::Ios => "ios"@,
        Platform::IpadOs => "ipados"@,
        Platform::Unknown => "unknown"@,
    }
}

/// The platform a name stands for; any other text is `Unknown`.
pub open spec fn spec_parse_platform(s: Seq<char>) -> Platform {
    if s == "windows"@ {
        Platform::Windows
    } else if s == "macos"@ {
        Platform::MacOs
    } else if s == "linux"@ {
        Platform::Linux
    } else if s == "android"@ {
        Platform::Android
    } else if s == "ios"@ {
        Platform::Ios
    } else if s == "ipados"@ {
        Platform::IpadOs
    } else {
        Platform::Unknown
    }
}

/// The name a platform is written with.
pub fn platform_name(platform: Platform) -> (res: &'static str)
    ensures
        res@ == spec_platform_name(platform),
{
    match platform {
        Platform::Windows => "windows",
        Platform::MacOs => "macos",
        Platform::Linux => "linux",
        Platform::Android => "android",
        Platform::Ios => "ios",
        Platform::IpadOs => "ipados",
        Platform::Unknown => "unknown",
    }
}

/// The platform named by `value`; unknown names give `Unknown`.
pub fn parse_platform(value: &str) -> (res: Platform)
    ensures
        res == spec_parse_platform(value@),
{
    let chars = chars_of(value);
    parse_platform_chars(&chars)
}

fn parse_platform_chars(chars: &Vec<char>) -> (res: Platform)
    ensures
        res == spec_parse_platform(chars@),
{
    if chars_eq_str(chars, "windows") {
        Platform::Windows
    } else if chars_eq_str(chars, "macos") {
        Platform::MacOs
    } else if chars_eq_str(chars, "linux") {
        Platform::Linux
    } else if chars_eq_str(chars, "android") {
        Platform::Android
    } else if chars_eq_str(chars, "ios") {
        Platform::Ios
    } else if chars_eq_str(chars, "ipados") {
        Platform::IpadOs
    } else {
        Platform::Unknown
    }
}

/// Reading a platform's name gives the platform back.
pub proof fn lemma_platform_round_trip(platform: Platform)
    ensures
        spec_parse_platform(spec_platform_name(platform)) == platform,
        !spec_platform_name(platform).contains('\t'),
        spec_platform_name(platform).len() > 0,
{
    reveal_strlit("windows");
    reveal_strlit("macos");
    reveal_strlit("linux");
    reveal_strlit("android");
    reveal_strlit("ios");
    reveal_strlit("ipados");
    reveal_strlit("unknown");
    let n = spec_platform_name(platform);
    assert(forall|i: int| 0 <= i < n.len() ==> n[i] != '\t');
    let w = "windows"@;
    let m = "macos"@;
    let l = "linux"@;
    let a = "android"@;
    let i = "ios"@;
    let p = "ipados"@;
    let u = "unknown"@;
    assert(w[0] == 'w' && m[0] == 'm' && l[0] == 'l' && a[0] == 'a' && i[0] == 'i' && p[0] == 'i'
        && u[0] == 'u');
    assert(i.len() == 3 && p.len() == 6);
    match platform {
        Platform::Windows => {},
        Platform::MacOs => {
            assert(m != w);
        },
        Platform::Linux => {
            assert(l != w && l != m);
        },
        Platform::Android => {
            assert(a != w && a != m && a != l);
        },
        Platform::Ios => {
            assert(i != w && i != m && i != l && i != a);
        },
        Platform::IpadOs => {
            assert(p != w && p != m && p != l && p != a && p != i);
        },
        Platform::Unknown => {
            assert(u != w && u != m && u != l && u != a && u != i && u != p);
        },
    }
}

/// The characters that would break a tab-separated line.
pub open spec fn is_field_break(c: char) -> bool {
    c == '\t' || c == '\n' || c == '\r'
}

/// Tabs and line breaks replaced by spaces.
pub open spec fn spec_sanitize(s: Seq<char>) -> Seq<char> {
    Seq::new(s.len(), |i: int| if is_field_break(s[i]) { ' ' } else { s[i] })
}

/// `value` with every tab, newline and carriage return replaced by a space.
pub fn sanitize(value: &str) -> (res: String)
    ensures
        res@ == spec_sanitize(value@),
{
    let chars = chars_of(value);
    let mut out = String::new();
    let mut i: usize = 0;
    while i < chars.len()
        invariant
            i <= chars.len(),
            chars@ == value@,
            out@ =~= spec_sanitize(chars@.take(i as int)),
        decreases chars.len() - i,
    {
        let c = chars[i];
        if c == '\t' || c == '\n' || c == '\r' {
            push_char(&mut out, ' ');
        } else {
            push_char(&mut out, c);
        }
        i = i + 1;
    }
    assert(chars@.take(chars.len() as int) =~= chars@);
    out
}

/// The 32 bytes that `v` decodes to, if it is hex for exactly 32 bytes.
pub open spec fn spec_decode_key(v: Seq<char>) -> Option<Seq<u8>> {
    match spec_decode_hex(v) {
        Some(b) => if b.len() == 32 {
            Some(b)
        } else {
            None
        },
        None => None,
    }
}

fn key_of(bytes: &Vec<u8>) -> (res: Option<[u8; 32]>)
    ensures
        res is Some <==> bytes@.len() == 32,
        res matches Some(k) ==> k@ == bytes@,
{
    if bytes.len() != 32 {
        return None;
    }
    let mut key = [0u8; 32];
    let mut i: usize = 0;
    while i < 32
        invariant
            i <= 32,
            bytes@.len() == 32,
            forall|j: int| 0 <= j < i ==> key@[j] == bytes@[j],
        decreases 32 - i,
    {
        key[i] = bytes[i];
        i = i + 1;
    }
    assert(key@ =~= bytes@);
    Some(key)
}

fn key_reading(v: &Vec<char>) -> (res: Reading<Option<[u8; 32]>>)
    ensures
        match res {
            Reading::Done(k) => !hex_panics(v@) && match k {
                Some(k) => spec_decode_key(v@) == Some(k@),
                None => spec_decode_key(v@) is None,
            },
            Reading::Unreadable => hex_panics(v@),
        },
{
    match hex_outcome(v) {
        HexOutcome::Decoded(b) => Reading::Done(key_of(&b)),
        HexOutcome::Rejected => Reading::Done(None),
        HexOutcome::Panics => Reading::Unreadable,
    }
}

/// A 32-byte key written as hex.
pub fn decode_key(value: &str) -> (res: Option<[u8; 32]>)
    requires
        !hex_panics(value@),
    ensures
        match res {
            Some(k) => spec_decode_key(value@) == Some(k@),
            None => spec_decode_key(value@) is None,
        },
{
    let chars = chars_of(value);
    match key_reading(&chars) {
        Reading::Done(k) => k,
        Reading::Unreadable => None,
    }
}

/// The fields of a saved local device record.
pub open spec fn record_fields(v: Seq<char>) -> Seq<Seq<char>> {
    split_on(trim(v), '\t')
}

/// The local device a saved record describes, if it is well formed: a
/// non-blank id, a name, a platform, and two 32-byte keys in hex.
pub open spec fn spec_parse_local_device(v: Seq<char>) -> Option<LocalDeviceView> {
    let f = record_fields(v);
    if is_blank(f[0]) || f.len() < 4 {
        None
    } else {
        match spec_decode_key(f[3]) {
            None => None,
            Some(private_key) => if f.len() < 5 {
                None
            } else {
                match spec_decode_key(f[4]) {
                    None => None,
                    Some(public_key) => Some(
                        LocalDeviceView {
                            id: f[0],
                            name: f[1],
                            platform: spec_parse_platform(f[2]),
                            private_key,
                            public_key,
                        },
                    ),
                }
            },
        }
    }
}

/// The records whose key fields cannot be read at all.
pub open spec fn local_device_panics(v: Seq<char>) -> bool {
    let f = record_fields(v);
    &&& !is_blank(f[0])
    &&& f.len() >= 4
    &&& (hex_panics(f[3]) || (spec_decode_key(f[3]) is Some && f.len() >= 5 && hex_panics(
        f[4],
    )))
}

fn parse_local_device_reading(value: &str) -> (res: Reading<Option<LocalDevice>>)
    ensures
        match res {
            Reading::Done(d) => !local_device_panics(value@) && match d {
                Some(d) => spec_parse_local_device(value@) == Some(d@),
                None => spec_parse_local_device(value@) is None,
            },
            Reading::Unreadable => local_device_panics(value@),
        },
{
    let chars = chars_of(value);
    let trimmed = trim_chars(&chars);
    let fields = split_chars(&trimmed, '\t');
    proof {
        crate::text::lemma_split_on_nonempty(trimmed@, '\t');
    }
    assert(fields@[0]@ == record_fields(value@)[0]);
    let id = match DeviceId::new(string_of(&fields[0])) {
        Some(id) => id,
        None => {
            return Reading::Done(None);
        },
    };
    if fields.len() < 4 {
        return Reading::Done(None);
    }
    assert(fields@[3]@ == record_fields(value@)[3]);
    let private_key = match key_reading(&fields[3]) {
        Reading::Unreadable => {
            return Reading::Unreadable;
        },
        Reading::Done(None) => {
            return Reading::Done(None);
        },
        Reading::Done(Some(k)) => k,
    };
    if fields.len() < 5 {
        return Reading::Done(None);
    }
    assert(fields@[4]@ == record_fields(value@)[4]);
    let public_key = match key_reading(&fields[4]) {
        Reading::Unreadable => {
            return Reading::Unreadable;
        },
        Reading::Done(None) => {
            return Reading::Done(None);
        },
        Reading::Done(Some(k)) => k,
    };
    assert(fields@[1]@ == record_fields(value@)[1]);
    assert(fields@[2]@ == record_fields(value@)[2]);
    let device = LocalDevice {
        id,
        name: string_of(&fields[1]),
        platform: parse_platform_chars(&fields[2]),
        private_key,
        public_key,
    };
    Reading::Done(Some(device))
}

/// Reads a saved local device record.
pub fn parse_local_device(value: &str) -> (res: Option<LocalDevice>)
    requires
        !local_device_panics(value@),
    ensures
        match res {
            Some(d) => spec_parse_local_device(value@) == Some(d@),
            None => spec_parse_local_device(value@) is None,
        },
{
    match parse_local_device_reading(value) {
        Reading::Done(d) => d,
        Reading::Unreadable => None,
    }
}

/// Whether `parse_local_device` cannot read `value`.
pub fn parse_local_device_panics(value: &str) -> (res: bool)
    ensures
        res == local_device_panics(value@),
{
    match parse_local_device_reading(value) {
        Reading::Done(_) => false,
        Reading::Unreadable => true,
    }
}

/// The saved form of a local device: id, sanitized name, platform name and
/// the two keys in hex, tab-separated, ending with a newline.
pub open spec fn spec_serialize_local_device(d: LocalDeviceView) -> Seq<char> {
    d.id + seq!['\t'] + spec_sanitize(d.name) + seq!['\t'] + spec_platform_name(d.platform) + seq![
        '\t',
    ] + spec_encode_hex(d.private_key) + seq!['\t'] + spec_encode_hex(d.public_key) + seq!['\n']
}

/// A sanitized text holds no tab, newline or carriage return.
pub proof fn lemma_sanitize_plain(s: Seq<char>)
    ensures
        forall|i: int| 0 <= i < spec_sanitize(s).len() ==> !is_field_break(#[trigger] spec_sanitize(s)[i]),
        !spec_sanitize(s).contains('\t'),
        !spec_sanitize(s).contains('\n'),
        spec_sanitize(s).len() == s.len(),
{
}

/// A saved local-device record is one line of exactly five tab-separated
/// fields: it holds four tabs and ends with a newline, whenever the id
/// holds no tab.
pub proof fn lemma_local_device_record_shape(d: LocalDeviceView)
    requires
        !d.id.contains('\t'),
    ensures
        count_char(spec_serialize_local_device(d), '\t') == 4,
        spec_serialize_local_device(d).last() == '\n',
{
    let tab = seq!['\t'];
    let nl = seq!['\n'];
    let sn = spec_sanitize(d.name);
    let pn = spec_platform_name(d.platform);
    let hs = spec_encode_hex(d.private_key);
    let hp = spec_encode_hex(d.public_key);
    lemma_sanitize_plain(d.name);
    lemma_platform_round_trip(d.platform);
    crate::hex::lemma_encode_hex_plain(d.private_key);
    crate::hex::lemma_encode_hex_plain(d.public_key);
    lemma_count_char_absent(d.id, '\t');
    lemma_count_char_absent(sn, '\t');
    lemma_count_char_absent(pn, '\t');
    lemma_count_char_absent(hs, '\t');
    lemma_count_char_absent(hp, '\t');
    assert(count_char(tab, '\t') == 1) by {
        assert(tab.drop_last() =~= Seq::<char>::empty());
        assert(count_char(tab.drop_last(), '\t') == 0);
        assert(tab.last() == '\t');
    }
    assert(count_char(nl, '\t') == 0) by {
        assert(nl.drop_last() =~= Seq::<char>::empty());
    }
    let p1 = d.id + tab;
    let p2 = p1 + sn;
    let p3 = p2 + tab;
    let p4 = p3 + pn;
    let p5 = p4 + tab;
    let p6 = p5 + hs;
    let p7 = p6 + tab;
    let p8 = p7 + hp;
    let p9 = p8 + nl;
    assert(spec_serialize_local_device(d) =~= p9);
    lemma_count_char_concat(d.id, tab, '\t');
    lemma_count_char_concat(p1, sn, '\t');
    lemma_count_char_concat(p2, tab, '\t');
    lemma_count_char_concat(p3, pn, '\t');
    lemma_count_char_concat(p4, tab, '\t');
    lemma_count_char_concat(p5, hs, '\t');
    lemma_count_char_concat(p6, tab, '\t');
    lemma_count_char_concat(p7, hp, '\t');
    lemma_count_char_concat(p8, nl, '\t');
}

/// Saving a local device and reading the record back gives the same
/// device, its name sanitized, whenever its id starts with a non-space
/// character and holds no tab; the reader can always read such a record.
pub proof fn lemma_local_device_round_trip(d: LocalDeviceView)
    requires
        d.id.len() > 0,
        !is_space_char(d.id[0]),
        !d.id.contains('\t'),
        d.private_key.len() == 32,
        d.public_key.len() == 32,
    ensures
        !local_device_panics(spec_serialize_local_device(d)),
        spec_parse_local_device(spec_serialize_local_device(d)) == Some(
            LocalDeviceView { name: spec_sanitize(d.name), ..d },
        ),
{
    let tab = seq!['\t'];
    let sn = spec_sanitize(d.name);
    let pn = spec_platform_name(d.platform);
    let hs = spec_encode_hex(d.private_key);
    let hp = spec_encode_hex(d.public_key);
    let line = spec_serialize_local_device(d);
    let r3 = hs + tab + hp;
    let r2 = pn + tab + r3;
    let r1 = sn + tab + r2;
    let x = d.id + tab + r1;
    assert(line =~= x + seq!['\n']);
    lemma_sanitize_plain(d.name);
    lemma_platform_round_trip(d.platform);
    crate::hex::lemma_encode_hex_plain(d.private_key);
    crate::hex::lemma_encode_hex_plain(d.public_key);
    lemma_hex_round_trip(d.private_key);
    lemma_hex_round_trip(d.public_key);
    assert(line[0] == d.id[0]);
    lemma_trim_start_noop(line);
    assert(x.last() == hp[hp.len() - 1]);
    assert(crate::text::is_blank(seq!['\n'])) by {
        assert(is_space_char('\n'));
    }
    lemma_trim_end_suffix(x, seq!['\n']);
    assert(trim(line) == x);
    lemma_split_on_no_sep(d.id, '\t');
    lemma_split_on_no_sep(sn, '\t');
    lemma_split_on_no_sep(pn, '\t');
    lemma_split_on_no_sep(hs, '\t');
    lemma_split_on_no_sep(hp, '\t');
    lemma_split_on_concat(hs, hp, '\t');
    lemma_split_on_concat(pn, r3, '\t');
    lemma_split_on_concat(sn, r2, '\t');
    lemma_split_on_concat(d.id, r1, '\t');
    let f = record_fields(line);
    assert(f =~= seq![d.id, sn, pn, hs, hp]);
    assert(!is_blank(d.id)) by {
        assert(!is_space_char(d.id[0]));
    }
}

/// The saved form of a local device.
pub fn serialize_local_device(device: &LocalDevice) -> (res: String)
    ensures
        res@ == spec_serialize_local_device(device@),
{
    let mut out = device.id.to_string();
    push_char(&mut out, '\t');
    let name = sanitize(device.name.as_str());
    push_str_chars(&mut out, name.as_str());
    push_char(&mut out, '\t');
    push_str_chars(&mut out, platform_name(device.platform));
    push_char(&mut out, '\t');
    let private_hex = encode_hex(&device.private_key);
    push_str_chars(&mut out, private_hex.as_str());
    push_char(&mut out, '\t');
    let public_hex = encode_hex(&device.public_key);
    push_str_chars(&mut out, public_hex.as_str());
    push_char(&mut out, '\n');
    out
}

/// A fresh local device: its id is the device name, a hyphen, and the
/// creation time in milliseconds.
pub fn new_local_device(
    name: String,
    timestamp_millis: u128,
    platform: Platform,
    private_key: [u8; 32],
    public_key: [u8; 32],
) -> (res: LocalDevice)
    ensures
        res.id@ == name@ + seq!['-'] + decimal(timestamp_millis as nat),
        res.name@ == name@,
        res.platform == platform,
        res.private_key@ == private_key@,
        res.public_key@ == public_key@,
{
    let mut id_text = name.clone();
    push_char(&mut id_text, '-');
    push_decimal(&mut id_text, timestamp_millis);
    assert(id_text@[name@.len() as int] == '-');
    assert(!is_space_char(id_text@[name@.len() as int]));
    let id = DeviceId::new(id_text).unwrap();
    LocalDevice { id, name, platform, private_key, public_key }
}

} // verus!
