//! Discovery announcements: one tab-separated line per device,
//! `magic <tab> id <tab> name <tab> platform <tab> public key hex`.
//! This module holds the packet and the `RSCP_DISCOVERY_V2` dialect; the
//! `SPAN_DISCOVERY_V2` dialect with its probe message is in
//! `span_discovery`.

use vstd::prelude::*;
use crate::config::{
    lemma_platform_round_trip, lemma_sanitize_plain, parse_platform, platform_name,
    sanitize, spec_decode_key, spec_parse_platform, spec_platform_name, spec_sanitize,
    LocalDevice,
};
use crate::device::{DeviceId, DeviceInfo, Platform, TrustState};
use crate::hex::{hex_outcome, hex_panics, spec_encode_hex, HexOutcome, Reading};
use crate::text::{
    chars_eq_str, chars_of, is_blank, is_space_char, push_char, push_str_chars, split_chars,
    split_on, string_of, trim, trim_chars,
};

verus! {

/// The UDP port announcements are sent to.
pub const DISCOVERY_PORT: u16 = 46792;

/// The first field of an announcement in this dialect.
pub const MAGIC: &'static str = "RSCP_DISCOVERY_V2";

/// A device's announcement.
#[derive(Clone, Debug, PartialEq, Eq)]
pub struct DiscoveryPacket {
    pub id: DeviceId,
    pub name: String,
    pub platform: Platform,
    pub public_key: String,
}

/// The contents of an announcement.
pub struct DiscoveryPacketView {
    pub id: Seq<char>,
    pub name: Seq<char>,
    pub platform: Platform,
    pub public_key: Seq<char>,
}

impl View for DiscoveryPacket {
    type V = DiscoveryPacketView;

    open spec fn view(&self) -> DiscoveryPacketView {
        DiscoveryPacketView {
            id: self.id@,
            name: self.name@,
            platform: self.platform,
            public_key: self.public_key@,
        }
    }
}

impl DiscoveryPacket {
    /// The announcement of the local device.
    pub fn from_local(device: &LocalDevice) -> (res: Self)
        ensures
            res.id@ == device.id@,
            res.name@ == device.name@,
            res.platform == device.platform,
            res.public_key@ == spec_encode_hex(device.public_key@),
    {
        DiscoveryPacket {
            id: device.id.clone(),
            name: device.name.clone(),
            platform: device.platform,
            public_key: device.public_key_hex(),
        }
    }

    /// The device an announcement describes, newly discovered, with no
    /// endpoint yet.
    pub fn into_device_info(self) -> (res: DeviceInfo)
        ensures
            res.id@ == self.id@,
            res.name@ == self.name@,
            res.platform == self.platform,
            res.trust_state == TrustState::Discovered,
            res.endpoint is None,
            res.public_key matches Some(k) && k@ == self.public_key@,
    {
        DeviceInfo {
            id: self.id,
            name: self.name,
            platform: self.platform,
            trust_state: TrustState::Discovered,
            endpoint: None,
            public_key: Some(self.public_key),
        }
    }
}

/// The line announcing `p` under the magic word `magic`; the name is
/// sanitized.
pub open spec fn spec_encode_packet(magic: Seq<char>, p: DiscoveryPacketView) -> Seq<char> {
    magic + seq!['\t'] + p.id + seq!['\t'] + spec_sanitize(p.name) + seq!['\t']
        + spec_platform_name(p.platform) + seq!['\t'] + p.public_key
}

/// The fields of a received announcement line.
pub open spec fn announcement_fields(v: Seq<char>) -> Seq<Seq<char>> {
    split_on(trim(v), '\t')
}

/// The announcement a received line holds under the magic word `magic`:
/// the magic word, a non-blank id, a name, a platform, and a public key
/// that is hex for 32 bytes.
pub open spec fn spec_decode_packet(magic: Seq<char>, v: Seq<char>) -> Option<DiscoveryPacketView> {
    let f = announcement_fields(v);
    if f[0] != magic || f.len() < 2 || is_blank(f[1]) || f.len() < 5 {
        None
    } else if spec_decode_key(f[4]) is Some {
        Some(
            DiscoveryPacketView {
                id: f[1],
                name: f[2],
                platform: spec_parse_platform(f[3]),
                public_key: f[4],
            },
        )
    } else {
        None
    }
}

/// The lines whose public key field cannot be read at all.
pub open spec fn decode_packet_panics(magic: Seq<char>, v: Seq<char>) -> bool {
    let f = announcement_fields(v);
    f[0] == magic && f.len() >= 5 && !is_blank(f[1]) && hex_panics(f[4])
}

/// The public key field is usable when it is hex for 32 bytes.
pub open spec fn spec_validate_public_key(v: Seq<char>) -> Option<Seq<char>> {
    if spec_decode_key(v) is Some {
        Some(v)
    } else {
        None
    }
}

fn validate_reading(v: &Vec<char>) -> (res: Reading<Option<String>>)
    ensures
        match res {
            Reading::Done(k) => !hex_panics(v@) && match k {
                Some(s) => spec_validate_public_key(v@) == Some(s@),
                None => spec_validate_public_key(v@) is None,
            },
            Reading::Unreadable => hex_panics(v@),
        },
{
    match hex_outcome(v) {
        HexOutcome::Panics => Reading::Unreadable,
        HexOutcome::Rejected => Reading::Done(None),
        HexOutcome::Decoded(b) => if b.len() == 32 {
            Reading::Done(Some(string_of(v)))
        } else {
            Reading::Done(None)
        },
    }
}

/// `value` itself when it is hex for a 32-byte key.
pub fn validate_public_key(value: &str) -> (res: Option<String>)
    requires
        !hex_panics(value@),
    ensures
        match res {
            Some(s) => spec_validate_public_key(value@) == Some(s@),
            None => spec_validate_public_key(value@) is None,
        },
{
    let chars = chars_of(value);
    match validate_reading(&chars) {
        Reading::Done(k) => k,
        Reading::Unreadable => None,
    }
}

/// Writes the announcement of `packet` under the magic word `magic`.
pub fn encode_with_magic(magic: &str, packet: &DiscoveryPacket) -> (res: String)
    ensures
        res@ == spec_encode_packet(magic@, packet@),
{
    let mut out = String::new();
    push_str_chars(&mut out, magic);
    push_char(&mut out, '\t');
    let id = packet.id.to_string();
    push_str_chars(&mut out, id.as_str());
    push_char(&mut out, '\t');
    let name = sanitize(packet.name.as_str());
    push_str_chars(&mut out, name.as_str());
    push_char(&mut out, '\t');
    push_str_chars(&mut out, platform_name(packet.platform));
    push_char(&mut out, '\t');
    push_str_chars(&mut out, packet.public_key.as_str());
    out
}

/// Reads an announcement under the magic word `magic`, telling apart the
/// lines whose key field cannot be read.
pub fn decode_with_magic(magic: &str, value: &Vec<char>) -> (res: Reading<Option<DiscoveryPacket>>)
    ensures
        match res {
            Reading::Done(p) => !decode_packet_panics(magic@, value@) && match p {
                Some(p) => spec_decode_packet(magic@, value@) == Some(p@),
                None => spec_decode_packet(magic@, value@) is None,
            },
            Reading::Unreadable => decode_packet_panics(magic@, value@),
        },
{
    let trimmed = trim_chars(value);
    let fields = split_chars(&trimmed, '\t');
    proof {
        crate::text::lemma_split_on_nonempty(trimmed@, '\t');
    }
    let ghost f = announcement_fields(value@);
    assert(fields@[0]@ == f[0]);
    if !chars_eq_str(&fields[0], magic) {
        return Reading::Done(None);
    }
    if fields.len() < 2 {
        return Reading::Done(None);
    }
    assert(fields@[1]@ == f[1]);
    let id = match DeviceId::new(string_of(&fields[1])) {
        Some(id) => id,
        None => {
            return Reading::Done(None);
        },
    };
    if fields.len() < 5 {
        return Reading::Done(None);
    }
    assert(fields@[2]@ == f[2]);
    assert(fields@[3]@ == f[3]);
    assert(fields@[4]@ == f[4]);
    let public_key = match validate_reading(&fields[4]) {
        Reading::Unreadable => {
            return Reading::Unreadable;
        },
        Reading::Done(None) => {
            return Reading::Done(None);
        },
        Reading::Done(Some(k)) => k,
    };
    let name = string_of(&fields[2]);
    let platform_text = string_of(&fields[3]);
    let platform = parse_platform(platform_text.as_str());
    Reading::Done(Some(DiscoveryPacket { id, name, platform, public_key }))
}

/// Writes an announcement in this dialect.
pub fn encode_packet(packet: &DiscoveryPacket) -> (res: String)
    ensures
        res@ == spec_encode_packet(MAGIC@, packet@),
{
    encode_with_magic(MAGIC, packet)
}

/// Reads an announcement in this dialect.
pub fn decode_packet(value: &str) -> (res: Option<DiscoveryPacket>)
    requires
        !decode_packet_panics(MAGIC@, value@),
    ensures
        match res {
            Some(p) => spec_decode_packet(MAGIC@, value@) == Some(p@),
            None => spec_decode_packet(MAGIC@, value@) is None,
        },
{
    let chars = chars_of(value);
    match decode_with_magic(MAGIC, &chars) {
        Reading::Done(p) => p,
        Reading::Unreadable => None,
    }
}

/// Whether `decode_packet` cannot read `value`.
pub fn decode_packet_panics_on(value: &str) -> (res: bool)
    ensures
        res == decode_packet_panics(MAGIC@, value@),
{
    let chars = chars_of(value);
    match decode_with_magic(MAGIC, &chars) {
        Reading::Done(_) => false,
        Reading::Unreadable => true,
    }
}

/// The announcements that survive the trip through a line unchanged but
/// for the name: a non-blank id without tabs, and a public key that is
/// 32-byte hex without tabs or trailing whitespace.
pub open spec fn announceable(p: DiscoveryPacketView) -> bool {
    &&& !is_blank(p.id)
    &&& !p.id.contains('\t')
    &&& !p.public_key.contains('\t')
    &&& p.public_key.len() > 0
    &&& !is_space_char(p.public_key.last())
    &&& spec_decode_key(p.public_key) is Some
}

/// Reading the line written for an announcement gives the announcement
/// back, its name sanitized, under any magic word that starts with a
/// non-space character and holds no tab.
pub proof fn lemma_packet_round_trip(magic: Seq<char>, p: DiscoveryPacketView)
    requires
        magic.len() > 0,
        !is_space_char(magic[0]),
        !magic.contains('\t'),
        announceable(p),
    ensures
        !decode_packet_panics(magic, spec_encode_packet(magic, p)),
        spec_decode_packet(magic, spec_encode_packet(magic, p)) == Some(
            DiscoveryPacketView { name: spec_sanitize(p.name), ..p },
        ),
        trim(spec_encode_packet(magic, p)) == spec_encode_packet(magic, p),
{
    let tab = seq!['\t'];
    let sn = spec_sanitize(p.name);
    let pn = spec_platform_name(p.platform);
    let r3 = pn + tab + p.public_key;
    let r2 = sn + tab + r3;
    let r1 = p.id + tab + r2;
    let line = spec_encode_packet(magic, p);
    assert(line =~= magic + tab + r1);
    lemma_sanitize_plain(p.name);
    lemma_platform_round_trip(p.platform);
    assert(line[0] == magic[0]);
    crate::text::lemma_trim_start_noop(line);
    assert(line.last() == p.public_key.last());
    assert(crate::text::is_blank(Seq::<char>::empty()));
    crate::text::lemma_trim_end_suffix(line, Seq::<char>::empty());
    assert(line + Seq::<char>::empty() =~= line);
    crate::text::lemma_split_on_no_sep(magic, '\t');
    crate::text::lemma_split_on_no_sep(p.id, '\t');
    crate::text::lemma_split_on_no_sep(sn, '\t');
    crate::text::lemma_split_on_no_sep(pn, '\t');
    crate::text::lemma_split_on_no_sep(p.public_key, '\t');
    crate::text::lemma_split_on_concat(pn, p.public_key, '\t');
    crate::text::lemma_split_on_concat(sn, r3, '\t');
    crate::text::lemma_split_on_concat(p.id, r2, '\t');
    crate::text::lemma_split_on_concat(magic, r1, '\t');
    let f = announcement_fields(line);
    assert(f =~= seq![magic, p.id, sn, pn, p.public_key]);
    assert(!crate::hex::hex_panics(p.public_key));
}

/// The announcement of a local device is announceable.
pub proof fn lemma_local_announceable(id: Seq<char>, name: Seq<char>, platform: Platform, public_key: Seq<u8>)
    requires
        !is_blank(id),
        !id.contains('\t'),
        public_key.len() == 32,
    ensures
        announceable(
            DiscoveryPacketView { id, name, platform, public_key: spec_encode_hex(public_key) },
        ),
{
    let e = spec_encode_hex(public_key);
    crate::hex::lemma_encode_hex_plain(public_key);
    crate::hex::lemma_hex_round_trip(public_key);
    assert(e.last() == e[e.len() - 1]);
}

} // verus!
