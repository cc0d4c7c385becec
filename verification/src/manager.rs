//! The decisions of the device manager window and of the receiving side:
//! which discovered devices are offered for pairing, which are trusted
//! after the user's answers, which row stays selected after a reload, which
//! device a removal applies to, what the controls show, and whose text is
//! accepted.

use vstd::prelude::*;
use crate::device::{DeviceId, DeviceInfo, TrustState};
use crate::error::SpanError;
use crate::hex::hex_panics;
use crate::text::{chars_eq, chars_of, decimal, push_decimal, push_str_chars};
use crate::transport::{decrypt_text, spec_decrypt_text, EncryptedTextPacket};

verus! {

/// Whether two identifiers are the same text.
pub fn same_id(a: &DeviceId, b: &DeviceId) -> (res: bool)
    ensures
        res == (a@ == b@),
{
    let x = chars_of(a.as_str());
    let y = chars_of(b.as_str());
    chars_eq(&x, &y)
}

/// A discovered device that may be offered for pairing: not yet trusted,
/// and not this machine.
pub open spec fn is_pairing_candidate(device: DeviceInfo, local: Seq<char>) -> bool {
    device.trust_state != TrustState::Trusted && device.id@ != local
}

/// The devices offered for pairing, in the order found.
pub open spec fn spec_pairing_candidates(devices: Seq<DeviceInfo>, local: Seq<char>) -> Seq<
    DeviceInfo,
> {
    devices.filter(|d: DeviceInfo| is_pairing_candidate(d, local))
}

/// The discovered devices to offer for pairing: every one that is neither
/// trusted already nor the local device, in the order found.
pub fn pairing_candidates<'a>(devices: &'a [DeviceInfo], local: &DeviceId) -> (res: Vec<
    &'a DeviceInfo,
>)
    ensures
        res@.len() == spec_pairing_candidates(devices@, local@).len(),
        forall|i: int|
            0 <= i < res@.len() ==> *(#[trigger] res@[i]) == spec_pairing_candidates(
                devices@,
                local@,
            )[i],
        forall|i: int|
            0 <= i < res@.len() ==> (#[trigger] res@[i]).trust_state != TrustState::Trusted
                && res@[i].id@ != local@,
        forall|j: int|
            0 <= j < devices@.len() && (#[trigger] devices@[j]).trust_state != TrustState::Trusted
                && devices@[j].id@ != local@ ==> exists|i: int|
                0 <= i < res@.len() && *res@[i] == devices@[j],
{
    let res = collect_pairing_candidates(devices, local);
    proof {
        lemma_pairing_candidates_rule(devices@, local@);
        let t = spec_pairing_candidates(devices@, local@);
        assert forall|j: int|
            0 <= j < devices@.len() && (#[trigger] devices@[j]).trust_state != TrustState::Trusted
                && devices@[j].id@ != local@ implies exists|i: int|
                0 <= i < res@.len() && *res@[i] == devices@[j] by {
            assert(t.contains(devices@[j]));
            let i = choose|i: int| 0 <= i < t.len() && t[i] == devices@[j];
            assert(*res@[i] == devices@[j]);
        }
        assert forall|i: int| 0 <= i < res@.len() implies (#[trigger] res@[i]).trust_state
            != TrustState::Trusted && res@[i].id@ != local@ by {
            assert(t[i] == *res@[i]);
        }
    }
    res
}

/// The pairing offer: every device offered is one of the list that is not
/// trusted and is not this machine, every such device is offered, and the
/// offers follow the list's order, each device once.
pub proof fn lemma_pairing_candidates_rule(devices: Seq<DeviceInfo>, local: Seq<char>)
    ensures
        forall|i: int|
            0 <= i < spec_pairing_candidates(devices, local).len() ==> {
                let d = #[trigger] spec_pairing_candidates(devices, local)[i];
                &&& d.trust_state != TrustState::Trusted
                &&& d.id@ != local
                &&& devices.contains(d)
            },
        forall|j: int|
            0 <= j < devices.len() && (#[trigger] devices[j]).trust_state != TrustState::Trusted
                && devices[j].id@ != local ==> spec_pairing_candidates(devices, local).contains(
                devices[j],
            ),
        exists|pos: Seq<int>|
            #![trigger pos.len()]
            pos.len() == spec_pairing_candidates(devices, local).len() && (forall|k: int|
                0 <= k < pos.len() ==> 0 <= #[trigger] pos[k] < devices.len()
                    && spec_pairing_candidates(devices, local)[k] == devices[pos[k]]) && (forall|
                k1: int,
                k2: int,
            | 0 <= k1 < k2 < pos.len() ==> #[trigger] pos[k1] < #[trigger] pos[k2]),
{
    let pred = |d: DeviceInfo| is_pairing_candidate(d, local);
    crate::device::lemma_filter_keeps_order(devices, pred);
    assert forall|i: int| 0 <= i < spec_pairing_candidates(devices, local).len() implies {
        let d = #[trigger] spec_pairing_candidates(devices, local)[i];
        &&& d.trust_state != TrustState::Trusted
        &&& d.id@ != local
        &&& devices.contains(d)
    } by {
        devices.lemma_filter_pred(pred, i);
        let t = spec_pairing_candidates(devices, local);
        assert(t.contains(t[i]));
        devices.lemma_filter_contains_rev(pred, t[i]);
    }
    assert forall|j: int|
        0 <= j < devices.len() && (#[trigger] devices[j]).trust_state != TrustState::Trusted
            && devices[j].id@ != local implies spec_pairing_candidates(devices, local).contains(
        devices[j],
    ) by {
        devices.lemma_filter_contains(pred, j);
    }
}

fn collect_pairing_candidates<'a>(devices: &'a [DeviceInfo], local: &DeviceId) -> (res: Vec<
    &'a DeviceInfo,
>)
    ensures
        res@.len() == spec_pairing_candidates(devices@, local@).len(),
        forall|i: int|
            0 <= i < res@.len() ==> *(#[trigger] res@[i]) == spec_pairing_candidates(
                devices@,
                local@,
            )[i],
{
    let mut out: Vec<&DeviceInfo> = Vec::new();
    let mut i: usize = 0;
    while i < devices.len()
        invariant
            i <= devices.len(),
            out@.len() == spec_pairing_candidates(devices@.take(i as int), local@).len(),
            forall|k: int|
                0 <= k < out@.len() ==> *(#[trigger] out@[k]) == spec_pairing_candidates(
                    devices@.take(i as int),
                    local@,
                )[k],
        decreases devices.len() - i,
    {
        let device = &devices[i];
        proof {
            reveal_with_fuel(Seq::<_>::filter, 1);
            assert(devices@.take(i + 1).drop_last() =~= devices@.take(i as int));
        }
        if device.trust_state != TrustState::Trusted && !same_id(&device.id, local) {
            out.push(device);
        }
        i = i + 1;
    }
    assert(devices@.take(devices.len() as int) =~= devices@);
    out
}

/// What follows a pairing scan once the user has answered for each
/// candidate.
#[derive(Clone, Debug, PartialEq, Eq)]
pub enum PairingStep {
    /// No device was offered.
    NothingFound,
    /// Devices were offered and none was accepted.
    Cancelled,
    /// Trust these devices.
    Trust(Vec<DeviceId>),
}

/// The ids of the candidates the user accepted, in order.
pub open spec fn accepted_ids(candidates: Seq<DeviceInfo>, accepted: Seq<bool>) -> Seq<Seq<char>>
    decreases candidates.len(),
{
    if candidates.len() == 0 || accepted.len() == 0 {
        Seq::empty()
    } else {
        let init = accepted_ids(candidates.drop_last(), accepted.drop_last());
        if accepted.last() {
            init.push(candidates.last().id@)
        } else {
            init
        }
    }
}

/// The positions below `m` at which the user answered yes, in increasing
/// order.
pub open spec fn accepted_indices_upto(accepted: Seq<bool>, m: nat) -> Seq<int> {
    Seq::new(m, |i: int| i).filter(|i: int| accepted[i])
}

/// The positions at which the user answered yes, in increasing order.
pub open spec fn accepted_indices(accepted: Seq<bool>) -> Seq<int> {
    accepted_indices_upto(accepted, accepted.len())
}

proof fn lemma_accepted_prefix(candidates: Seq<DeviceInfo>, accepted: Seq<bool>, m: nat)
    requires
        candidates.len() == accepted.len(),
        m <= accepted.len(),
    ensures
        accepted_ids(candidates.take(m as int), accepted.take(m as int)).len()
            == accepted_indices_upto(accepted, m).len(),
        forall|k: int|
            0 <= k < accepted_indices_upto(accepted, m).len() ==> accepted_ids(
                candidates.take(m as int),
                accepted.take(m as int),
            )[k] == candidates[(#[trigger] accepted_indices_upto(accepted, m)[k])].id@,
        forall|k: int|
            0 <= k < accepted_indices_upto(accepted, m).len() ==> 0 <= (#[trigger] accepted_indices_upto(
                accepted,
                m,
            )[k]) < m && accepted[accepted_indices_upto(accepted, m)[k]],
        forall|k1: int, k2: int|
            0 <= k1 < k2 < accepted_indices_upto(accepted, m).len() ==> (#[trigger] accepted_indices_upto(
                accepted,
                m,
            )[k1]) < (#[trigger] accepted_indices_upto(accepted, m)[k2]),
        forall|i: int|
            0 <= i < m && #[trigger] accepted[i] ==> accepted_indices_upto(accepted, m).contains(i),
    decreases m,
{
    let ct = candidates.take(m as int);
    let at = accepted.take(m as int);
    let f = accepted_indices_upto(accepted, m);
    if m == 0 {
        reveal_with_fuel(Seq::<_>::filter, 1);
        assert(at.len() == 0);
        assert(f.len() == 0);
    } else {
        let m1 = (m - 1) as nat;
        reveal_with_fuel(Seq::<_>::filter, 1);
        lemma_accepted_prefix(candidates, accepted, m1);
        let g = accepted_indices_upto(accepted, m1);
        let n = Seq::new(m, |i: int| i);
        assert(n.drop_last() =~= Seq::new(m1, |i: int| i));
        assert(n.last() == m - 1);
        assert(ct.drop_last() =~= candidates.take(m1 as int));
        assert(at.drop_last() =~= accepted.take(m1 as int));
        assert(ct.last() == candidates[m - 1]);
        assert(at.last() == accepted[m - 1]);
        let prev = accepted_ids(candidates.take(m1 as int), accepted.take(m1 as int));
        if accepted[m - 1] {
            assert(f == g.push(m - 1));
            assert(accepted_ids(ct, at) == prev.push(candidates[m - 1].id@));
            assert forall|i: int| 0 <= i < m && #[trigger] accepted[i] implies f.contains(i) by {
                if i < m - 1 {
                    assert(g.contains(i));
                    let k = choose|k: int| 0 <= k < g.len() && g[k] == i;
                    assert(f[k] == i);
                } else {
                    assert(f[g.len() as int] == i);
                }
            }
            assert forall|k1: int, k2: int|
                0 <= k1 < k2 < f.len() implies (#[trigger] f[k1]) < (#[trigger] f[k2]) by {
                if k2 < g.len() {
                    assert(g[k1] < g[k2]);
                } else {
                    assert(0 <= g[k1] < m1);
                }
            }
        } else {
            assert(f == g);
            assert(accepted_ids(ct, at) == prev);
        }
    }
}

/// The answers the user accepted, by position: `accepted_indices` holds
/// exactly the positions whose answer is yes, each once, in increasing
/// order.
pub proof fn lemma_accepted_indices(accepted: Seq<bool>)
    ensures
        forall|k: int|
            0 <= k < accepted_indices(accepted).len() ==> 0 <= (#[trigger] accepted_indices(
                accepted,
            )[k]) < accepted.len() && accepted[accepted_indices(accepted)[k]],
        forall|k1: int, k2: int|
            0 <= k1 < k2 < accepted_indices(accepted).len() ==> (#[trigger] accepted_indices(
                accepted,
            )[k1]) < (#[trigger] accepted_indices(accepted)[k2]),
        forall|i: int|
            0 <= i < accepted.len() && #[trigger] accepted[i] ==> accepted_indices(accepted).contains(
                i,
            ),
{
    let c = Seq::new(accepted.len(), |i: int| vstd::pervasive::arbitrary::<DeviceInfo>());
    lemma_accepted_prefix(c, accepted, accepted.len());
}

/// The outcome of a pairing scan: nothing found, cancelled when no
/// candidate was accepted, or trust for exactly the accepted candidates.
pub fn pairing_step(candidates: &[DeviceInfo], accepted: &[bool]) -> (res: PairingStep)
    requires
        candidates@.len() == accepted@.len(),
    ensures
        candidates@.len() == 0 ==> res == PairingStep::NothingFound,
        candidates@.len() > 0 && accepted_ids(candidates@, accepted@).len() == 0 ==> res
            == PairingStep::Cancelled,
        candidates@.len() > 0 && accepted_ids(candidates@, accepted@).len() > 0 ==> (res matches PairingStep::Trust(
            ids,
        ) && ids@.len() == accepted_ids(candidates@, accepted@).len() && forall|i: int|
            0 <= i < ids@.len() ==> (#[trigger] ids@[i])@ == accepted_ids(candidates@, accepted@)[i]),
        candidates@.len() > 0 && accepted_indices(accepted@).len() == 0 ==> res
            == PairingStep::Cancelled,
        candidates@.len() > 0 && accepted_indices(accepted@).len() > 0 ==> (res matches PairingStep::Trust(
            ids,
        ) && ids@.len() == accepted_indices(accepted@).len() && forall|k: int|
            0 <= k < ids@.len() ==> (#[trigger] ids@[k])@
                == candidates@[accepted_indices(accepted@)[k]].id@),
{
    proof {
        lemma_accepted_prefix(candidates@, accepted@, accepted@.len());
        assert(candidates@.take(candidates@.len() as int) =~= candidates@);
        assert(accepted@.take(accepted@.len() as int) =~= accepted@);
    }
    if candidates.len() == 0 {
        return PairingStep::NothingFound;
    }
    let mut ids: Vec<DeviceId> = Vec::new();
    let mut i: usize = 0;
    while i < candidates.len()
        invariant
            i <= candidates.len(),
            candidates@.len() == accepted@.len(),
            ids@.len() == accepted_ids(candidates@.take(i as int), accepted@.take(i as int)).len(),
            forall|k: int|
                0 <= k < ids@.len() ==> (#[trigger] ids@[k])@ == accepted_ids(
                    candidates@.take(i as int),
                    accepted@.take(i as int),
                )[k],
        decreases candidates.len() - i,
    {
        assert(candidates@.take(i + 1).drop_last() =~= candidates@.take(i as int));
        assert(accepted@.take(i + 1).drop_last() =~= accepted@.take(i as int));
        assert(candidates@.take(i + 1).last() == candidates@[i as int]);
        assert(accepted@.take(i + 1).last() == accepted@[i as int]);
        if accepted[i] {
            ids.push(candidates[i].id.clone());
        }
        i = i + 1;
    }
    assert(candidates@.take(candidates.len() as int) =~= candidates@);
    assert(accepted@.take(accepted.len() as int) =~= accepted@);
    if ids.len() == 0 {
        PairingStep::Cancelled
    } else {
        PairingStep::Trust(ids)
    }
}

/// The status line after a pairing step.
pub open spec fn spec_pairing_status(step: PairingStep) -> Seq<char> {
    match step {
        PairingStep::NothingFound => "没有发现新设备。请确认另一台设备已打开 Span，且位于同一网络。"@,
        PairingStep::Cancelled => "已取消添加，未共享剪贴板内容。"@,
        PairingStep::Trust(_) => "正在添加可信设备…"@,
    }
}

impl PairingStep {
    /// The status line shown for this step.
    pub fn status(&self) -> (res: &'static str)
        ensures
            res@ == spec_pairing_status(*self),
    {
        match self {
            PairingStep::NothingFound => "没有发现新设备。请确认另一台设备已打开 Span，且位于同一网络。",
            PairingStep::Cancelled => "已取消添加，未共享剪贴板内容。",
            PairingStep::Trust(_) => "正在添加可信设备…",
        }
    }
}

/// The status line once `count` devices have been trusted.
pub fn added_status(count: usize) -> (res: String)
    ensures
        res@ == "已添加 "@ + decimal(count as nat) + " 台可信设备。"@,
{
    let mut out = String::new();
    push_str_chars(&mut out, "已添加 ");
    push_decimal(&mut out, count as u128);
    push_str_chars(&mut out, " 台可信设备。");
    out
}

/// The id of the selected row of `shown`, if a row is selected.
pub open spec fn selected_id(shown: Seq<DeviceInfo>, selected: Option<usize>) -> Option<Seq<char>> {
    match selected {
        Some(i) => if i < shown.len() {
            Some(shown[i as int].id@)
        } else {
            None
        },
        None => None,
    }
}

/// The row to select after the list is reloaded: the first row of `fresh`
/// with the id of the device that was selected in `shown`, so that the
/// selection follows the device and not the row number.
pub fn reselect(shown: &[DeviceInfo], selected: Option<usize>, fresh: &[DeviceInfo]) -> (res:
    Option<usize>)
    ensures
        res matches Some(j) ==> (selected_id(shown@, selected) matches Some(id) && j < fresh@.len()
            && fresh@[j as int].id@ == id && forall|k: int|
            0 <= k < j ==> (#[trigger] fresh@[k]).id@ != id),
        res is None ==> (selected_id(shown@, selected) matches Some(id) ==> forall|k: int|
            0 <= k < fresh@.len() ==> (#[trigger] fresh@[k]).id@ != id),
{
    let i = match selected {
        Some(i) => i,
        None => {
            return None;
        },
    };
    if i >= shown.len() {
        return None;
    }
    let target = &shown[i].id;
    let mut j: usize = 0;
    while j < fresh.len()
        invariant
            j <= fresh.len(),
            i < shown@.len(),
            selected == Some(i),
            target@ == shown@[i as int].id@,
            forall|k: int| 0 <= k < j ==> (#[trigger] fresh@[k]).id@ != shown@[i as int].id@,
        decreases fresh.len() - j,
    {
        if same_id(&fresh[j].id, target) {
            return Some(j);
        }
        j = j + 1;
    }
    None
}

/// The device a macOS-style removal applies to: the popup's selected index,
/// with "no selection" (a negative index) read as the first row.
pub fn removal_target<'a>(trusted: &'a [DeviceInfo], index: isize) -> (res: Option<
    &'a DeviceInfo,
>)
    ensures
        ({
            let k = if index < 0 {
                0
            } else {
                index as int
            };
            &&& k < trusted@.len() ==> (res matches Some(d) && *d == trusted@[k])
            &&& k >= trusted@.len() ==> res is None
        }),
{
    let k: usize = if index < 0 {
        0
    } else {
        index as usize
    };
    if k < trusted.len() {
        Some(&trusted[k])
    } else {
        None
    }
}

/// The device a list selection refers to; a negative index means no
/// selection.
pub fn selected_device<'a>(shown: &'a [DeviceInfo], index: isize) -> (res: Option<&'a DeviceInfo>)
    ensures
        0 <= index < shown@.len() ==> (res matches Some(d) && *d == shown@[index as int]),
        !(0 <= index < shown@.len()) ==> res is None,
{
    if index < 0 {
        return None;
    }
    let k = index as usize;
    if k < shown.len() {
        Some(&shown[k])
    } else {
        None
    }
}

/// What a removal request leads to.
#[derive(Clone, Debug, PartialEq, Eq)]
pub enum RemovalStep {
    /// There is no trusted device to remove.
    NothingToRemove,
    /// The user did not confirm.
    Cancelled,
    /// Revoke this device.
    Revoke(DeviceId),
}

/// A removal goes ahead only for an existing device and only once the user
/// has confirmed it.
pub fn removal_step(target: Option<&DeviceInfo>, confirmed: bool) -> (res: RemovalStep)
    ensures
        target is None ==> res == RemovalStep::NothingToRemove,
        target is Some && !confirmed ==> res == RemovalStep::Cancelled,
        target is Some && confirmed ==> (res matches RemovalStep::Revoke(id) && id@
            == target->0.id@),
{
    match target {
        None => RemovalStep::NothingToRemove,
        Some(d) => if confirmed {
            RemovalStep::Revoke(d.id.clone())
        } else {
            RemovalStep::Cancelled
        },
    }
}

/// The status line after a removal step.
pub open spec fn spec_removal_status(step: RemovalStep) -> Seq<char> {
    match step {
        RemovalStep::NothingToRemove => "暂无可移除的可信设备。"@,
        RemovalStep::Cancelled => "已取消移除。"@,
        RemovalStep::Revoke(_) => "正在移除设备…"@,
    }
}

impl RemovalStep {
    /// The status line shown for this step.
    pub fn status(&self) -> (res: &'static str)
        ensures
            res@ == spec_removal_status(*self),
    {
        match self {
            RemovalStep::NothingToRemove => "暂无可移除的可信设备。",
            RemovalStep::Cancelled => "已取消移除。",
            RemovalStep::Revoke(_) => "正在移除设备…",
        }
    }
}

/// The status line once the device called `name` has been removed.
pub fn removed_status(name: &str) -> (res: String)
    ensures
        res@ == "已移除 "@ + name@ + "。"@,
{
    let mut out = String::new();
    push_str_chars(&mut out, "已移除 ");
    push_str_chars(&mut out, name);
    push_str_chars(&mut out, "。");
    out
}

/// What the manager window's controls show.
pub struct ControlState {
    /// The list is shown; otherwise the empty-state hint is.
    pub list_visible: bool,
    pub add_enabled: bool,
    pub list_enabled: bool,
    pub remove_enabled: bool,
    /// The label of the add button.
    pub add_label: &'static str,
}

/// The controls for `shown_len` trusted devices, the selected row
/// (negative when none) and whether an action is running: nothing can be
/// started while one runs, and removal needs a selected row.
pub fn control_state(busy: bool, selected: isize, shown_len: usize) -> (res: ControlState)
    ensures
        res.list_visible == (shown_len > 0),
        res.add_enabled == !busy,
        res.list_enabled == (!busy && shown_len > 0),
        res.remove_enabled == (!busy && 0 <= selected && selected < shown_len),
        res.add_label@ == if shown_len == 0 {
            "添加设备…"@
        } else {
            "添加另一台设备…"@
        },
{
    ControlState {
        list_visible: shown_len > 0,
        add_enabled: !busy,
        list_enabled: !busy && shown_len > 0,
        remove_enabled: !busy && 0 <= selected && (selected as usize) < shown_len,
        add_label: if shown_len == 0 {
            "添加设备…"
        } else {
            "添加另一台设备…"
        },
    }
}

/// A trusted device with the given id.
pub open spec fn is_trusted_with_id(device: DeviceInfo, id: Seq<char>) -> bool {
    device.trust_state == TrustState::Trusted && device.id@ == id
}

/// The public key of the first trusted device with id `from`, if that
/// device has one.
pub open spec fn spec_sender_key(devices: Seq<DeviceInfo>, from: Seq<char>) -> Option<Seq<char>>
    decreases devices.len(),
{
    if devices.len() == 0 {
        None
    } else if is_trusted_with_id(devices[0], from) {
        match devices[0].public_key {
            Some(k) => Some(k@),
            None => None,
        }
    } else {
        spec_sender_key(devices.drop_first(), from)
    }
}

/// The sender rule: the key found for `from` is the public key of the
/// first device of the list that is trusted and has the id `from`; there
/// is none when no device is trusted with that id, or when that first one
/// has no key.
pub proof fn lemma_sender_key_rule(devices: Seq<DeviceInfo>, from: Seq<char>)
    ensures
        spec_sender_key(devices, from) matches Some(k) ==> exists|i: int|
            0 <= i < devices.len() && (#[trigger] devices[i]).trust_state == TrustState::Trusted
                && devices[i].id@ == from && (devices[i].public_key matches Some(pk) && pk@ == k)
                && forall|j: int|
                0 <= j < i ==> !((#[trigger] devices[j]).trust_state == TrustState::Trusted
                    && devices[j].id@ == from),
        spec_sender_key(devices, from) is None ==> forall|i: int|
            0 <= i < devices.len() && (#[trigger] devices[i]).trust_state == TrustState::Trusted
                && devices[i].id@ == from && (forall|j: int|
                0 <= j < i ==> !((#[trigger] devices[j]).trust_state == TrustState::Trusted
                    && devices[j].id@ == from)) ==> devices[i].public_key is None,
{
    lemma_sender_key_found(devices, from);
    lemma_sender_key_missing(devices, from);
}

proof fn lemma_sender_key_found(devices: Seq<DeviceInfo>, from: Seq<char>)
    ensures
        spec_sender_key(devices, from) matches Some(k) ==> exists|i: int|
            0 <= i < devices.len() && (#[trigger] devices[i]).trust_state == TrustState::Trusted
                && devices[i].id@ == from && (devices[i].public_key matches Some(pk) && pk@ == k)
                && forall|j: int|
                0 <= j < i ==> !((#[trigger] devices[j]).trust_state == TrustState::Trusted
                    && devices[j].id@ == from),
    decreases devices.len(),
{
    if devices.len() > 0 && !(devices[0].trust_state == TrustState::Trusted && devices[0].id@
        == from) {
        let rest = devices.drop_first();
        lemma_sender_key_found(rest, from);
        if let Some(k) = spec_sender_key(rest, from) {
            let i = choose|i: int|
                0 <= i < rest.len() && (#[trigger] rest[i]).trust_state == TrustState::Trusted
                    && rest[i].id@ == from && (rest[i].public_key matches Some(pk) && pk@ == k)
                    && forall|j: int|
                    0 <= j < i ==> !((#[trigger] rest[j]).trust_state == TrustState::Trusted
                        && rest[j].id@ == from);
            assert(devices[i + 1] == rest[i]);
            assert forall|j: int| 0 <= j < i + 1 implies !((#[trigger] devices[j]).trust_state
                == TrustState::Trusted && devices[j].id@ == from) by {
                if j > 0 {
                    assert(devices[j] == rest[j - 1]);
                }
            }
        }
    }
}

proof fn lemma_sender_key_missing(devices: Seq<DeviceInfo>, from: Seq<char>)
    ensures
        spec_sender_key(devices, from) is None ==> forall|i: int|
            0 <= i < devices.len() && (#[trigger] devices[i]).trust_state == TrustState::Trusted
                && devices[i].id@ == from && (forall|j: int|
                0 <= j < i ==> !((#[trigger] devices[j]).trust_state == TrustState::Trusted
                    && devices[j].id@ == from)) ==> devices[i].public_key is None,
    decreases devices.len(),
{
    if devices.len() > 0 && spec_sender_key(devices, from) is None {
        let rest = devices.drop_first();
        if devices[0].trust_state == TrustState::Trusted && devices[0].id@ == from {
            assert forall|i: int|
                0 <= i < devices.len() && (#[trigger] devices[i]).trust_state == TrustState::Trusted
                    && devices[i].id@ == from && (forall|j: int|
                    0 <= j < i ==> !((#[trigger] devices[j]).trust_state == TrustState::Trusted
                        && devices[j].id@ == from)) implies devices[i].public_key is None by {
                if i > 0 {
                    assert(!(devices[0].trust_state == TrustState::Trusted && devices[0].id@
                        == from));
                }
            }
        } else {
            lemma_sender_key_missing(rest, from);
            assert forall|i: int|
                0 <= i < devices.len() && (#[trigger] devices[i]).trust_state == TrustState::Trusted
                    && devices[i].id@ == from && (forall|j: int|
                    0 <= j < i ==> !((#[trigger] devices[j]).trust_state == TrustState::Trusted
                        && devices[j].id@ == from)) implies devices[i].public_key is None by {
                assert(i > 0);
                assert(rest[i - 1] == devices[i]);
                assert forall|j: int| 0 <= j < i - 1 implies !((#[trigger] rest[j]).trust_state
                    == TrustState::Trusted && rest[j].id@ == from) by {
                    assert(rest[j] == devices[j + 1]);
                }
            }
        }
    }
}

/// The key to decrypt text from `from` with: that of the first trusted
/// device with this id; none when the sender is not trusted or its key is
/// unknown.
pub fn sender_key<'a>(devices: &'a [DeviceInfo], from: &DeviceId) -> (res: Option<&'a String>)
    ensures
        res matches Some(k) ==> spec_sender_key(devices@, from@) == Some(k@),
        res is None ==> spec_sender_key(devices@, from@) is None,
        res matches Some(k) ==> exists|i: int|
            0 <= i < devices@.len() && (#[trigger] devices@[i]).trust_state == TrustState::Trusted
                && devices@[i].id@ == from@ && (devices@[i].public_key matches Some(pk) && pk@ == k@)
                && forall|j: int|
                0 <= j < i ==> !((#[trigger] devices@[j]).trust_state == TrustState::Trusted
                    && devices@[j].id@ == from@),
        res is None ==> forall|i: int|
            0 <= i < devices@.len() && (#[trigger] devices@[i]).trust_state == TrustState::Trusted
                && devices@[i].id@ == from@ && (forall|j: int|
                0 <= j < i ==> !((#[trigger] devices@[j]).trust_state == TrustState::Trusted
                    && devices@[j].id@ == from@)) ==> devices@[i].public_key is None,
{
    proof {
        lemma_sender_key_rule(devices@, from@);
    }
    let mut i: usize = 0;
    assert(devices@.skip(0) =~= devices@);
    while i < devices.len()
        invariant
            i <= devices.len(),
            spec_sender_key(devices@, from@) == spec_sender_key(devices@.skip(i as int), from@),
        decreases devices.len() - i,
    {
        let device = &devices[i];
        assert(devices@.skip(i as int)[0] == devices@[i as int]);
        if device.trust_state == TrustState::Trusted && same_id(&device.id, from) {
            proof {
                lemma_sender_key_rule(devices@, from@);
            }
            return match &device.public_key {
                Some(k) => Some(k),
                None => None,
            };
        }
        assert(devices@.skip(i as int).drop_first() =~= devices@.skip(i + 1));
        i = i + 1;
    }
    assert(devices@.skip(devices.len() as int) =~= Seq::<DeviceInfo>::empty());
    None
}

/// The key-dependent inputs on which accepting a text cannot read the
/// sender's key.
pub open spec fn accept_text_panics(devices: Seq<DeviceInfo>, from: Seq<char>) -> bool {
    spec_sender_key(devices, from) matches Some(k) && hex_panics(k)
}

/// What the receiver does with a packet: text from a sender that is not a
/// trusted device with a known key is dropped (`Ok(None)`); any other
/// packet is decrypted with the sender's key.
pub fn accept_text(
    devices: &[DeviceInfo],
    packet: &EncryptedTextPacket,
    receiver_private_key: &[u8; 32],
) -> (res: Result<Option<String>, SpanError>)
    requires
        !accept_text_panics(devices@, packet.from@),
    ensures
        spec_sender_key(devices@, packet.from@) is None ==> res matches Ok(None),
        spec_sender_key(devices@, packet.from@) matches Some(k) ==> {
            &&& !(res matches Ok(None))
            &&& res matches Ok(Some(t)) ==> spec_decrypt_text(packet@, receiver_private_key@, k)
                == Ok::<Seq<char>, SpanError>(t@)
            &&& res matches Err(e) ==> spec_decrypt_text(packet@, receiver_private_key@, k)
                == Err::<Seq<char>, SpanError>(e)
        },
        res matches Ok(Some(_)) ==> exists|i: int|
            0 <= i < devices@.len() && (#[trigger] devices@[i]).trust_state == TrustState::Trusted
                && devices@[i].id@ == packet.from@ && devices@[i].public_key is Some,
        (forall|i: int|
            0 <= i < devices@.len() ==> !((#[trigger] devices@[i]).trust_state
                == TrustState::Trusted && devices@[i].id@ == packet.from@)) ==> res matches Ok(
            None,
        ),
{
    proof {
        lemma_sender_key_rule(devices@, packet.from@);
    }
    let key = match sender_key(devices, &packet.from) {
        Some(k) => k,
        None => {
            return Ok(None);
        },
    };
    match decrypt_text(packet, receiver_private_key, key.as_str()) {
        Ok(t) => Ok(Some(t)),
        Err(e) => Err(e),
    }
}

} // verus!
