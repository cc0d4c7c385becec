//! The `SPAN_DISCOVERY_V2` dialect of announcements, and the probe that asks
//! every device on the network to announce itself.

use vstd::prelude::*;
use crate::config::spec_sanitize;
use crate::discovery::{
    announceable, decode_packet_panics, decode_with_magic, encode_with_magic,
    lemma_packet_round_trip, spec_decode_packet, spec_encode_packet, DiscoveryPacket,
    DiscoveryPacketView,
};
use crate::hex::Reading;
use crate::text::{chars_eq_str, chars_of, trim, trim_chars};

pub use crate::discovery::{validate_public_key, DISCOVERY_PORT};

verus! {

/// The first field of an announcement in this dialect.
pub const MAGIC: &'static str = "SPAN_DISCOVERY_V2";

/// The whole text of a probe.
pub const PROBE_MAGIC: &'static str = "SPAN_DISCOVERY_PROBE_V1";

/// What a discovery socket receives.
#[derive(Clone, Debug, PartialEq, Eq)]
pub enum DiscoveryMessage {
    Announcement(DiscoveryPacket),
    Probe,
}

/// The contents of a discovery message.
pub enum DiscoveryMessageView {
    Announcement(DiscoveryPacketView),
    Probe,
}

impl View for DiscoveryMessage {
    type V = DiscoveryMessageView;

    open spec fn view(&self) -> DiscoveryMessageView {
        match self {
            DiscoveryMessage::Announcement(p) => DiscoveryMessageView::Announcement(p@),
            DiscoveryMessage::Probe => DiscoveryMessageView::Probe,
        }
    }
}

/// The message a received text holds: a probe when the trimmed text is the
/// probe word, otherwise an announcement in this dialect, if it is one.
pub open spec fn spec_decode_message(v: Seq<char>) -> Option<DiscoveryMessageView> {
    if trim(v) == PROBE_MAGIC@ {
        Some(DiscoveryMessageView::Probe)
    } else {
        match spec_decode_packet(MAGIC@, v) {
            Some(p) => Some(DiscoveryMessageView::Announcement(p)),
            None => None,
        }
    }
}

/// The texts whose public key field cannot be read at all.
pub open spec fn decode_message_panics(v: Seq<char>) -> bool {
    trim(v) != PROBE_MAGIC@ && decode_packet_panics(MAGIC@, v)
}

fn decode_message_reading(value: &str) -> (res: Reading<Option<DiscoveryMessage>>)
    ensures
        match res {
            Reading::Done(m) => !decode_message_panics(value@) && match m {
                Some(m) => spec_decode_message(value@) == Some(m@),
                None => spec_decode_message(value@) is None,
            },
            Reading::Unreadable => decode_message_panics(value@),
        },
{
    let chars = chars_of(value);
    let trimmed = trim_chars(&chars);
    if chars_eq_str(&trimmed, PROBE_MAGIC) {
        return Reading::Done(Some(DiscoveryMessage::Probe));
    }
    match decode_with_magic(MAGIC, &chars) {
        Reading::Done(Some(p)) => Reading::Done(Some(DiscoveryMessage::Announcement(p))),
        Reading::Done(None) => Reading::Done(None),
        Reading::Unreadable => Reading::Unreadable,
    }
}

/// Writes an announcement in this dialect.
pub fn encode_packet(packet: &DiscoveryPacket) -> (res: String)
    ensures
        res@ == spec_encode_packet(MAGIC@, packet@),
{
    encode_with_magic(MAGIC, packet)
}

/// Reads a probe or an announcement.
pub fn decode_message(value: &str) -> (res: Option<DiscoveryMessage>)
    requires
        !decode_message_panics(value@),
    ensures
        match res {
            Some(m) => spec_decode_message(value@) == Some(m@),
            None => spec_decode_message(value@) is None,
        },
{
    match decode_message_reading(value) {
        Reading::Done(m) => m,
        Reading::Unreadable => None,
    }
}

/// Whether `decode_message` cannot read `value`.
pub fn decode_message_panics_on(value: &str) -> (res: bool)
    ensures
        res == decode_message_panics(value@),
{
    match decode_message_reading(value) {
        Reading::Done(_) => false,
        Reading::Unreadable => true,
    }
}

/// The probe word reads as a probe.
pub proof fn lemma_probe_round_trip()
    ensures
        spec_decode_message(PROBE_MAGIC@) == Some(DiscoveryMessageView::Probe),
        !decode_message_panics(PROBE_MAGIC@),
{
    reveal_strlit("SPAN_DISCOVERY_PROBE_V1");
    let p = PROBE_MAGIC@;
    assert(!crate::text::is_space_char(p[0]));
    crate::text::lemma_trim_start_noop(p);
    assert(!crate::text::is_space_char(p.last())) by {
        assert(p.last() == p[p.len() - 1]);
    }
    crate::text::lemma_trim_end_suffix(p, Seq::<char>::empty());
    assert(p + Seq::<char>::empty() =~= p);
}

/// An announcement written in this dialect reads back as the same
/// announcement, its name sanitized, and never as a probe.
pub proof fn lemma_announcement_round_trip(p: DiscoveryPacketView)
    requires
        announceable(p),
    ensures
        !decode_message_panics(spec_encode_packet(MAGIC@, p)),
        spec_decode_message(spec_encode_packet(MAGIC@, p)) == Some(
            DiscoveryMessageView::Announcement(DiscoveryPacketView { name: spec_sanitize(p.name), ..p }),
        ),
{
    reveal_strlit("SPAN_DISCOVERY_V2");
    reveal_strlit("SPAN_DISCOVERY_PROBE_V1");
    let m = MAGIC@;
    assert(!crate::text::is_space_char(m[0]));
    assert(!m.contains('\t')) by {
        assert(forall|i: int| 0 <= i < m.len() ==> m[i] != '\t');
    }
    lemma_packet_round_trip(m, p);
    let line = spec_encode_packet(m, p);
    assert(line[15] == m[15]);
    assert(PROBE_MAGIC@[15] == 'P');
    assert(trim(line) != PROBE_MAGIC@);
}

} // verus!
