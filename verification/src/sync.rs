//! The decisions of the clipboard-watching loop: when to read the
//! clipboard, which texts to send to the trusted devices, and how a text
//! just received from a peer is kept from being sent straight back.

use vstd::prelude::*;
use crate::device::{receives_broadcast, DeviceInfo, TrustState};
use crate::text::{chars_eq, chars_of};

verus! {

/// What asking the clipboard for its change counter gave.
#[derive(Clone, Copy, Debug, PartialEq, Eq, Structural)]
pub enum ChangeCount {
    /// The counter's value.
    Known(u64),
    /// The clipboard has no counter.
    Unsupported,
    /// The question failed.
    Failed,
}

/// What to do with a clipboard reading.
#[derive(Clone, Debug, PartialEq, Eq)]
pub enum ClipboardAction {
    /// Nothing new.
    Skip,
    /// The text was just received from a peer: do not send it back.
    Suppressed,
    /// Send this text to every trusted device.
    Broadcast(String),
}

fn same_text(a: &String, b: &str) -> (res: bool)
    ensures
        res == (a@ == b@),
{
    let x = chars_of(a.as_str());
    let y = chars_of(b);
    chars_eq(&x, &y)
}

/// Whether `text` is the text last written from a peer; if it is, the mark
/// is used up.
pub fn should_suppress(suppressed: &mut Option<String>, text: &str) -> (res: bool)
    ensures
        res == (*old(suppressed) matches Some(s) && s@ == text@),
        res ==> *final(suppressed) is None,
        !res ==> *final(suppressed) == *old(suppressed),
{
    let matches = match &*suppressed {
        Some(s) => same_text(s, text),
        None => false,
    };
    if matches {
        *suppressed = None;
    }
    matches
}

/// What the watching loop remembers between clipboard readings.
pub struct ClipboardWatch {
    /// The last text seen on the clipboard.
    pub last_text: Option<String>,
    /// The last change counter seen.
    pub last_change_count: Option<u64>,
}

impl ClipboardWatch {
    /// The state at start-up, from the first reading of the clipboard.
    pub fn new(text: Option<String>, change_count: Option<u64>) -> (res: Self)
        ensures
            res.last_text == text,
            res.last_change_count == change_count,
    {
        ClipboardWatch { last_text: text, last_change_count: change_count }
    }

    /// Whether to read the clipboard after a wait: always when the counter
    /// moved or could not be asked for, otherwise only when the wait
    /// reported a change.  A new counter value is remembered.
    pub fn should_read(&mut self, change_was_reported: bool, count: ChangeCount) -> (res: bool)
        ensures
            final(self).last_text == old(self).last_text,
            match count {
                ChangeCount::Known(c) => if old(self).last_change_count == Some(c) {
                    res == change_was_reported && final(self).last_change_count == Some(c)
                } else {
                    res && final(self).last_change_count == Some(c)
                },
                ChangeCount::Unsupported => res == change_was_reported
                    && final(self).last_change_count == old(self).last_change_count,
                ChangeCount::Failed => res && final(self).last_change_count == old(
                    self,
                ).last_change_count,
            },
    {
        match count {
            ChangeCount::Known(c) => {
                if self.last_change_count == Some(c) {
                    change_was_reported
                } else {
                    self.last_change_count = Some(c);
                    true
                }
            },
            ChangeCount::Unsupported => change_was_reported,
            ChangeCount::Failed => true,
        }
    }

    /// What to do with the text just read (`None` when there is none or it
    /// could not be read).  A text different from the last one seen is
    /// remembered, and sent on unless it is the text just received from a
    /// peer.
    pub fn on_text(&mut self, text: Option<String>, suppressed: &mut Option<String>) -> (res:
        ClipboardAction)
        ensures
            final(self).last_change_count == old(self).last_change_count,
            match text {
                Some(t) => if old(self).last_text matches Some(l) && l@ == t@ {
                    res == ClipboardAction::Skip && final(self).last_text == old(self).last_text
                        && *final(suppressed) == *old(suppressed)
                } else if *old(suppressed) matches Some(s) && s@ == t@ {
                    res == ClipboardAction::Suppressed && final(self).last_text == Some(t)
                        && *final(suppressed) is None
                } else {
                    res == ClipboardAction::Broadcast(t) && final(self).last_text == Some(t)
                        && *final(suppressed) == *old(suppressed)
                },
                None => res == ClipboardAction::Skip && final(self).last_text == old(self).last_text
                    && *final(suppressed) == *old(suppressed),
            },
    {
        let t = match text {
            Some(t) => t,
            None => {
                return ClipboardAction::Skip;
            },
        };
        let unchanged = match &self.last_text {
            Some(l) => same_text(l, t.as_str()),
            None => false,
        };
        if unchanged {
            return ClipboardAction::Skip;
        }
        self.last_text = Some(t.clone());
        if should_suppress(suppressed, t.as_str()) {
            ClipboardAction::Suppressed
        } else {
            ClipboardAction::Broadcast(t)
        }
    }
}

/// A device clipboard text is actually sent to: trusted, with a known
/// address and a public key.
pub open spec fn deliverable(device: DeviceInfo) -> bool {
    receives_broadcast(device) && device.endpoint is Some && device.public_key is Some
}

/// The devices of `devices` that clipboard text is sent to, in their order.
pub open spec fn spec_delivery_targets(devices: Seq<DeviceInfo>) -> Seq<DeviceInfo> {
    devices.filter(|d: DeviceInfo| deliverable(d))
}

/// The devices that a new clipboard text is sent to: the trusted ones
/// whose address and public key are known.
pub fn delivery_targets(devices: &[DeviceInfo]) -> (res: Vec<&DeviceInfo>)
    ensures
        res@.len() == spec_delivery_targets(devices@).len(),
        forall|i: int|
            0 <= i < res@.len() ==> *(#[trigger] res@[i]) == spec_delivery_targets(devices@)[i],
        forall|i: int|
            0 <= i < res@.len() ==> {
                &&& (#[trigger] res@[i]).trust_state == TrustState::Trusted
                &&& res@[i].endpoint is Some
                &&& res@[i].public_key is Some
            },
        forall|j: int|
            0 <= j < devices@.len() && (#[trigger] devices@[j]).trust_state == TrustState::Trusted
                && devices@[j].endpoint is Some && devices@[j].public_key is Some ==> exists|i: int|
                0 <= i < res@.len() && *res@[i] == devices@[j],
{
    let res = collect_delivery_targets(devices);
    proof {
        lemma_delivery_targets_rule(devices@);
        let t = spec_delivery_targets(devices@);
        assert forall|j: int|
            0 <= j < devices@.len() && (#[trigger] devices@[j]).trust_state == TrustState::Trusted
                && devices@[j].endpoint is Some && devices@[j].public_key is Some implies exists|i: int|
                0 <= i < res@.len() && *res@[i] == devices@[j] by {
            assert(t.contains(devices@[j]));
            let i = choose|i: int| 0 <= i < t.len() && t[i] == devices@[j];
            assert(*res@[i] == devices@[j]);
        }
        assert forall|i: int| 0 <= i < res@.len() implies {
            &&& (#[trigger] res@[i]).trust_state == TrustState::Trusted
            &&& res@[i].endpoint is Some
            &&& res@[i].public_key is Some
        } by {
            assert(t[i] == *res@[i]);
        }
    }
    res
}

/// Clipboard text goes to exactly the trusted devices of the list whose
/// address and key are known: every target is such a device of the list,
/// every such device of the list is a target, and the targets are the
/// list read at increasing positions, each device once.
pub proof fn lemma_delivery_targets_rule(devices: Seq<DeviceInfo>)
    ensures
        forall|i: int|
            0 <= i < spec_delivery_targets(devices).len() ==> {
                let d = #[trigger] spec_delivery_targets(devices)[i];
                &&& d.trust_state == TrustState::Trusted
                &&& d.endpoint is Some
                &&& d.public_key is Some
                &&& devices.contains(d)
            },
        forall|j: int|
            0 <= j < devices.len() && (#[trigger] devices[j]).trust_state == TrustState::Trusted
                && devices[j].endpoint is Some && devices[j].public_key is Some
                ==> spec_delivery_targets(devices).contains(devices[j]),
        spec_delivery_targets(devices).len() <= devices.len(),
        exists|pos: Seq<int>|
            #![trigger pos.len()]
            pos.len() == spec_delivery_targets(devices).len() && (forall|k: int|
                0 <= k < pos.len() ==> 0 <= #[trigger] pos[k] < devices.len()
                    && spec_delivery_targets(devices)[k] == devices[pos[k]]) && (forall|
                k1: int,
                k2: int,
            | 0 <= k1 < k2 < pos.len() ==> #[trigger] pos[k1] < #[trigger] pos[k2]),
{
    let pred = |d: DeviceInfo| deliverable(d);
    crate::device::lemma_filter_keeps_order(devices, pred);
    assert forall|i: int| 0 <= i < spec_delivery_targets(devices).len() implies {
        let d = #[trigger] spec_delivery_targets(devices)[i];
        &&& d.trust_state == TrustState::Trusted
        &&& d.endpoint is Some
        &&& d.public_key is Some
        &&& devices.contains(d)
    } by {
        devices.lemma_filter_pred(pred, i);
        let t = spec_delivery_targets(devices);
        assert(t.contains(t[i]));
        devices.lemma_filter_contains_rev(pred, t[i]);
    }
    assert forall|j: int|
        0 <= j < devices.len() && (#[trigger] devices[j]).trust_state == TrustState::Trusted
            && devices[j].endpoint is Some && devices[j].public_key is Some implies spec_delivery_targets(
        devices,
    ).contains(devices[j]) by {
        devices.lemma_filter_contains(pred, j);
    }
    devices.lemma_filter_len(pred);
}

fn collect_delivery_targets(devices: &[DeviceInfo]) -> (res: Vec<&DeviceInfo>)
    ensures
        res@.len() == spec_delivery_targets(devices@).len(),
        forall|i: int|
            0 <= i < res@.len() ==> *(#[trigger] res@[i]) == spec_delivery_targets(devices@)[i],
{
    let mut out: Vec<&DeviceInfo> = Vec::new();
    let mut i: usize = 0;
    while i < devices.len()
        invariant
            i <= devices.len(),
            out@.len() == spec_delivery_targets(devices@.take(i as int)).len(),
            forall|k: int|
                0 <= k < out@.len() ==> *(#[trigger] out@[k]) == spec_delivery_targets(
                    devices@.take(i as int),
                )[k],
        decreases devices.len() - i,
    {
        let device = &devices[i];
        proof {
            reveal_with_fuel(Seq::<_>::filter, 1);
            assert(devices@.take(i + 1).drop_last() =~= devices@.take(i as int));
        }
        if device.can_receive_broadcast() && device.endpoint.is_some()
            && device.public_key.is_some() {
            out.push(device);
        }
        i = i + 1;
    }
    assert(devices@.take(devices.len() as int) =~= devices@);
    out
}

/// A trusted device reachable at `host`.
pub open spec fn is_peer_at(device: DeviceInfo, host: Seq<char>) -> bool {
    receives_broadcast(device) && (device.endpoint matches Some(e) && e@ == host)
}

/// The peer rule: a device is the peer at `host` exactly when it is
/// trusted and its address is `host`.
pub proof fn lemma_peer_rule(device: DeviceInfo, host: Seq<char>)
    ensures
        is_peer_at(device, host) <==> (device.trust_state == TrustState::Trusted && (
        device.endpoint matches Some(e) && e@ == host)),
{
}

/// The first trusted device whose address is `host`, the peer that text
/// typed for that host is sent to.
pub fn find_trusted_peer<'a>(devices: &'a [DeviceInfo], host: &str) -> (res: Option<&'a DeviceInfo>)
    ensures
        res matches Some(d) ==> d.trust_state == TrustState::Trusted && (d.endpoint matches Some(e)
            && e@ == host@),
        res matches Some(d) ==> exists|i: int|
            0 <= i < devices@.len() && *d == devices@[i] && forall|j: int|
                0 <= j < i ==> !((#[trigger] devices@[j]).trust_state == TrustState::Trusted && (
                devices@[j].endpoint matches Some(e) && e@ == host@)),
        res is None ==> forall|i: int|
            0 <= i < devices@.len() ==> !((#[trigger] devices@[i]).trust_state == TrustState::Trusted
                && (devices@[i].endpoint matches Some(e) && e@ == host@)),
        res matches Some(d) ==> exists|i: int|
            0 <= i < devices@.len() && *d == devices@[i] && is_peer_at(devices@[i], host@) && forall|
                j: int,
            |
                0 <= j < i ==> !is_peer_at(#[trigger] devices@[j], host@),
        res is None ==> forall|i: int|
            0 <= i < devices@.len() ==> !is_peer_at(#[trigger] devices@[i], host@),
{
    let mut i: usize = 0;
    while i < devices.len()
        invariant
            i <= devices.len(),
            forall|j: int| 0 <= j < i ==> !is_peer_at(#[trigger] devices@[j], host@),
        decreases devices.len() - i,
    {
        let device = &devices[i];
        if device.can_receive_broadcast() {
            match &device.endpoint {
                Some(e) => {
                    if same_text(e, host) {
                        return Some(device);
                    }
                },
                None => {},
            }
        }
        i = i + 1;
    }
    None
}

/// How long the daemon waits between two announcements of this device, in
/// milliseconds.
pub const ANNOUNCE_INTERVAL_MILLIS: u64 = 15000;

/// When the daemon next announces itself, on a clock of milliseconds.
#[derive(Clone, Copy, Debug, PartialEq, Eq, Structural)]
pub struct AnnounceSchedule {
    /// The time of the next announcement.
    pub next_announce_millis: u64,
}

impl AnnounceSchedule {
    /// A schedule that announces at once.
    pub fn new(now_millis: u64) -> (res: Self)
        ensures
            res.next_announce_millis == now_millis,
    {
        AnnounceSchedule { next_announce_millis: now_millis }
    }

    /// Whether to announce at `now_millis`; when it is time, the next
    /// announcement is put one interval after now.
    pub fn due(&mut self, now_millis: u64) -> (res: bool)
        requires
            now_millis + ANNOUNCE_INTERVAL_MILLIS <= u64::MAX,
        ensures
            res == (now_millis >= old(self).next_announce_millis),
            res ==> final(self).next_announce_millis == now_millis + ANNOUNCE_INTERVAL_MILLIS,
            !res ==> *final(self) == *old(self),
    {
        if now_millis >= self.next_announce_millis {
            self.next_announce_millis = now_millis + ANNOUNCE_INTERVAL_MILLIS;
            true
        } else {
            false
        }
    }
}

} // verus!
