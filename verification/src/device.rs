//! The device model shared by every part of the tool: identifiers,
//! platforms, trust states, the device record, clipboard text, the wire
//! messages, and the rule that only trusted devices are sent clipboard text.

use vstd::prelude::*;
use crate::text::{blank, chars_of, is_blank, push_char, push_chars, sub_chars};

verus! {

/// A device identifier: any text that is not blank.
#[derive(Debug, PartialEq, Eq, Hash)]
pub struct DeviceId(String);

impl View for DeviceId {
    type V = Seq<char>;

    closed spec fn view(&self) -> Seq<char> {
        self.0@
    }
}

impl DeviceId {
    #[verifier::type_invariant]
    spec fn not_blank(self) -> bool {
        !is_blank(self.0@)
    }

    /// An identifier holding `value`, if `value` has a non-whitespace
    /// character.
    pub fn new(value: String) -> (res: Option<Self>)
        ensures
            res is Some <==> !is_blank(value@),
            res matches Some(id) ==> id@ == value@,
    {
        let chars = chars_of(value.as_str());
        if blank(&chars) {
            None
        } else {
            Some(DeviceId(value))
        }
    }

    /// The identifier's text, which is never blank.
    pub fn as_str(&self) -> (res: &str)
        ensures
            res@ == self@,
            !is_blank(self@),
    {
        proof {
            use_type_invariant(self);
        }
        self.0.as_str()
    }

    /// The identifier's text as an owned `String`, which is never blank.
    pub fn to_string(&self) -> (res: String)
        ensures
            res@ == self@,
            !is_blank(self@),
    {
        proof {
            use_type_invariant(self);
        }
        self.0.clone()
    }
}

impl Clone for DeviceId {
    fn clone(&self) -> (res: Self)
        ensures
            res@ == self@,
            !is_blank(self@),
    {
        proof {
            use_type_invariant(self);
        }
        DeviceId(self.0.clone())
    }
}

/// The operating system a device runs.
#[derive(Clone, Copy, Debug, PartialEq, Eq, Structural)]
pub enum Platform {
    Windows,
    MacOs,
    Linux,
    Android,
    Ios,
    IpadOs,
    Unknown,
}

/// Where a device stands in the trust workflow.
#[derive(Clone, Copy, Debug, PartialEq, Eq, Structural)]
pub enum TrustState {
    Discovered,
    Pending,
    Trusted,
    Blocked,
    Revoked,
}

/// What is known of a remote device.
#[derive(Clone, Debug, PartialEq, Eq)]
pub struct DeviceInfo {
    pub id: DeviceId,
    pub name: String,
    pub platform: Platform,
    pub trust_state: TrustState,
    pub endpoint: Option<String>,
    pub public_key: Option<String>,
}

/// The broadcast rule: a device receives clipboard text exactly when it is
/// trusted.
pub open spec fn receives_broadcast(device: DeviceInfo) -> bool {
    device.trust_state == TrustState::Trusted
}

impl DeviceInfo {
    /// Whether this device may be sent clipboard text.
    pub fn can_receive_broadcast(&self) -> (res: bool)
        ensures
            res == receives_broadcast(*self),
    {
        self.trust_state == TrustState::Trusted
    }
}

/// Clipboard text: any text that is not empty.
#[derive(Debug, PartialEq, Eq)]
pub struct ClipboardText(String);

impl View for ClipboardText {
    type V = Seq<char>;

    closed spec fn view(&self) -> Seq<char> {
        self.0@
    }
}

/// The first `max` characters of `s`, followed by `…` when `s` is longer.
pub open spec fn spec_preview(s: Seq<char>, max: nat) -> Seq<char> {
    if s.len() > max {
        s.take(max as int).push('…')
    } else {
        s
    }
}

impl ClipboardText {
    #[verifier::type_invariant]
    spec fn not_empty(self) -> bool {
        self.0@.len() > 0
    }

    /// Clipboard text holding `value`, if `value` is not empty.
    pub fn new(value: String) -> (res: Option<Self>)
        ensures
            res is Some <==> value@.len() > 0,
            res matches Some(t) ==> t@ == value@,
    {
        let chars = chars_of(value.as_str());
        if chars.len() == 0 {
            None
        } else {
            Some(ClipboardText(value))
        }
    }

    /// The text.
    pub fn as_str(&self) -> (res: &str)
        ensures
            res@ == self@,
    {
        self.0.as_str()
    }

    /// A short form of the text: at most `max_chars` characters, with `…`
    /// added when something was cut off.
    pub fn preview(&self, max_chars: usize) -> (res: String)
        ensures
            res@ == spec_preview(self@, max_chars as nat),
    {
        let chars = chars_of(self.0.as_str());
        let mut out = String::new();
        if chars.len() > max_chars {
            let head = sub_chars(&chars, 0, max_chars);
            push_chars(&mut out, &head);
            push_char(&mut out, '…');
            assert(out@ =~= self@.take(max_chars as int).push('…'));
        } else {
            push_chars(&mut out, &chars);
            assert(out@ =~= self@);
        }
        out
    }
}

impl Clone for ClipboardText {
    fn clone(&self) -> (res: Self)
        ensures
            res@ == self@,
    {
        proof {
            use_type_invariant(self);
        }
        ClipboardText(self.0.clone())
    }
}

/// The messages two devices exchange.
#[derive(Clone, Debug, PartialEq, Eq)]
pub enum WireMessage {
    Announce(DeviceInfo),
    TrustRequest { from: DeviceId, fingerprint: String },
    TrustAccepted { from: DeviceId },
    TrustRevoked { from: DeviceId },
    ClipboardBroadcast { from: DeviceId, text: ClipboardText },
}

/// The devices of `devices` that receive clipboard text, in their order.
pub open spec fn spec_broadcast_targets(devices: Seq<DeviceInfo>) -> Seq<DeviceInfo> {
    devices.filter(|d: DeviceInfo| receives_broadcast(d))
}

/// Only trusted devices are broadcast targets, every trusted device is
/// one, and the targets keep the list's order, each device once.
pub proof fn lemma_only_trusted_receive(devices: Seq<DeviceInfo>)
    ensures
        forall|i: int|
            0 <= i < spec_broadcast_targets(devices).len() ==> (#[trigger] spec_broadcast_targets(
                devices,
            )[i]).trust_state == TrustState::Trusted,
        forall|i: int|
            0 <= i < devices.len() && (#[trigger] devices[i]).trust_state == TrustState::Trusted
                ==> spec_broadcast_targets(devices).contains(devices[i]),
        spec_broadcast_targets(devices).len() <= devices.len(),
        exists|pos: Seq<int>|
            #![trigger pos.len()]
            pos.len() == spec_broadcast_targets(devices).len() && (forall|k: int|
                0 <= k < pos.len() ==> 0 <= #[trigger] pos[k] < devices.len()
                    && spec_broadcast_targets(devices)[k] == devices[pos[k]]) && (forall|
                k1: int,
                k2: int,
            | 0 <= k1 < k2 < pos.len() ==> #[trigger] pos[k1] < #[trigger] pos[k2]),
{
    let pred = |d: DeviceInfo| receives_broadcast(d);
    lemma_filter_keeps_order(devices, pred);
    assert forall|i: int|
        0 <= i < spec_broadcast_targets(devices).len() implies (#[trigger] spec_broadcast_targets(
            devices,
        )[i]).trust_state == TrustState::Trusted by {
        devices.lemma_filter_pred(pred, i);
    }
    assert forall|i: int|
        0 <= i < devices.len() && (#[trigger] devices[i]).trust_state == TrustState::Trusted implies spec_broadcast_targets(
            devices,
        ).contains(devices[i]) by {
        devices.lemma_filter_contains(pred, i);
    }
    devices.lemma_filter_len(pred);
}

/// Filtering keeps the chosen items in their order and takes each one
/// once: the result is `s` read at strictly increasing positions.
pub proof fn lemma_filter_keeps_order<A>(s: Seq<A>, p: spec_fn(A) -> bool)
    ensures
        exists|pos: Seq<int>|
            #![trigger pos.len()]
            pos.len() == s.filter(p).len() && (forall|k: int|
                0 <= k < pos.len() ==> 0 <= #[trigger] pos[k] < s.len() && s.filter(p)[k]
                    == s[pos[k]]) && (forall|k1: int, k2: int|
                0 <= k1 < k2 < pos.len() ==> #[trigger] pos[k1] < #[trigger] pos[k2]),
    decreases s.len(),
{
    reveal_with_fuel(Seq::<_>::filter, 1);
    if s.len() == 0 {
        let pos = Seq::<int>::empty();
        assert(pos.len() == s.filter(p).len());
    } else {
        let r = s.drop_last();
        lemma_filter_keeps_order(r, p);
        let q = choose|pos: Seq<int>|
            #![trigger pos.len()]
            pos.len() == r.filter(p).len() && (forall|k: int|
                0 <= k < pos.len() ==> 0 <= #[trigger] pos[k] < r.len() && r.filter(p)[k]
                    == r[pos[k]]) && (forall|k1: int, k2: int|
                0 <= k1 < k2 < pos.len() ==> #[trigger] pos[k1] < #[trigger] pos[k2]);
        if p(s.last()) {
            let pos = q.push(s.len() - 1);
            assert forall|k: int| 0 <= k < pos.len() implies 0 <= #[trigger] pos[k] < s.len()
                && s.filter(p)[k] == s[pos[k]] by {
                if k < q.len() {
                    assert(pos[k] == q[k]);
                }
            }
            assert forall|k1: int, k2: int| 0 <= k1 < k2 < pos.len() implies #[trigger] pos[k1]
                < #[trigger] pos[k2] by {
                if k2 < q.len() {
                    assert(q[k1] < q[k2]);
                } else {
                    assert(pos[k1] == q[k1]);
                }
            }
            assert(pos.len() == s.filter(p).len());
        } else {
            assert(q.len() == s.filter(p).len());
        }
    }
}

/// References to the devices that receive clipboard text: the trusted
/// ones, in the order given.
pub fn broadcast_targets(devices: &[DeviceInfo]) -> (res: Vec<&DeviceInfo>)
    ensures
        res@.len() == spec_broadcast_targets(devices@).len(),
        forall|i: int|
            0 <= i < res@.len() ==> *(#[trigger] res@[i]) == spec_broadcast_targets(devices@)[i],
{
    let mut out: Vec<&DeviceInfo> = Vec::new();
    let mut i: usize = 0;
    while i < devices.len()
        invariant
            i <= devices.len(),
            out@.len() == spec_broadcast_targets(devices@.take(i as int)).len(),
            forall|k: int|
                0 <= k < out@.len() ==> *(#[trigger] out@[k]) == spec_broadcast_targets(
                    devices@.take(i as int),
                )[k],
        decreases devices.len() - i,
    {
        let device = &devices[i];
        proof {
            reveal_with_fuel(Seq::<_>::filter, 1);
            assert(devices@.take(i + 1).drop_last() =~= devices@.take(i as int));
        }
        if device.can_receive_broadcast() {
            out.push(device);
        }
        i = i + 1;
    }
    assert(devices@.take(devices.len() as int) =~= devices@);
    out
}

} // verus!
