//! What the device manager shows and how its native layers are fed: device
//! summaries, shortened labels, XML-escaped paths, UTF-16 window text and
//! DPI scaling.

use vstd::prelude::*;
use crate::device::{broadcast_targets, spec_broadcast_targets, DeviceInfo, TrustState};
use crate::text::{chars_of, decimal, push_char, push_chars, push_decimal, push_str_chars, sub_chars};

verus! {

/// The manager window's width in logical pixels.
pub const WIDTH: i32 = 580;

/// The manager window's height in logical pixels.
pub const HEIGHT: i32 = 530;

/// The label shown when no device is trusted yet ("add a device").
pub const ADD_DEVICE_LABEL: &'static str = "添加一台设备";

/// Integer division rounding toward zero, as Rust's `/` does.
pub open spec fn trunc_div(a: int, b: int) -> int {
    if a >= 0 {
        a / b
    } else {
        -((-a) / b)
    }
}

/// `value` logical pixels at `dpi` dots per inch, rounded to the nearest
/// device pixel (96 DPI is one to one); the result wraps to `i32`.
pub fn scale(value: i32, dpi: u32) -> (res: i32)
    ensures
        res == (trunc_div(value * dpi + 48, 96) as i32),
{
    let v = value as i64;
    let d = dpi as i64;
    assert(-0x8000_0000 * 0xffff_ffff <= v * d <= 0x7fff_ffff * 0xffff_ffff) by (nonlinear_arith)
        requires
            -0x8000_0000 <= v <= 0x7fff_ffff,
            0 <= d <= 0xffff_ffff,
    ;
    let x: i64 = v * d + 48;
    #[verifier::truncate]
    let r = (x / 96) as i32;
    r
}

/// The UTF-16 code units of `c`: one unit in the basic plane, a surrogate
/// pair beyond it.
pub open spec fn utf16_units(c: char) -> Seq<u16> {
    let u = c as u32;
    if u < 0x10000 {
        seq![u as u16]
    } else {
        let v = u - 0x10000;
        seq![(0xd800 + v / 1024) as u16, (0xdc00 + v % 1024) as u16]
    }
}

/// The UTF-16 encoding of `s`.
pub open spec fn encode_utf16(s: Seq<char>) -> Seq<u16>
    decreases s.len(),
{
    if s.len() == 0 {
        Seq::empty()
    } else {
        encode_utf16(s.drop_last()) + utf16_units(s.last())
    }
}

/// `value` as NUL-terminated UTF-16, the form native window text takes.
pub fn wide(value: &str) -> (res: Vec<u16>)
    ensures
        res@ == encode_utf16(value@).push(0u16),
{
    let chars = chars_of(value);
    let mut out: Vec<u16> = Vec::new();
    let mut i: usize = 0;
    assert(chars@.take(0) =~= Seq::<char>::empty());
    while i < chars.len()
        invariant
            i <= chars.len(),
            out@ == encode_utf16(chars@.take(i as int)),
        decreases chars.len() - i,
    {
        let c = chars[i];
        let u = c as u32;
        assert(chars@.take(i + 1).drop_last() =~= chars@.take(i as int));
        assert(chars@.take(i + 1).last() == c);
        proof {
            vstd::utf8::char_is_scalar(c);
        }
        if u < 0x10000 {
            out.push(u as u16);
        } else {
            let v = u - 0x10000;
            out.push((0xd800 + v / 1024) as u16);
            out.push((0xdc00 + v % 1024) as u16);
        }
        assert(out@ =~= encode_utf16(chars@.take(i + 1)));
        i = i + 1;
    }
    assert(chars@.take(chars.len() as int) =~= chars@);
    out.push(0);
    out
}

/// At most `max` characters of `s`; when `s` is longer, its last kept
/// character gives way to `…`.
pub open spec fn spec_truncate(s: Seq<char>, max: nat) -> Seq<char> {
    if s.len() > max {
        if max > 0 {
            s.take(max - 1).push('…')
        } else {
            seq!['…']
        }
    } else {
        s
    }
}

/// `value` cut to at most `max_chars` characters, ending in `…` when it
/// was cut.
pub fn truncate(value: &str, max_chars: usize) -> (res: String)
    ensures
        res@ == spec_truncate(value@, max_chars as nat),
{
    let chars = chars_of(value);
    let mut out = String::new();
    if chars.len() > max_chars {
        if max_chars > 0 {
            let head = sub_chars(&chars, 0, max_chars - 1);
            push_chars(&mut out, &head);
        }
        push_char(&mut out, '…');
        assert(out@ =~= spec_truncate(value@, max_chars as nat));
    } else {
        push_chars(&mut out, &chars);
        assert(out@ =~= value@);
    }
    out
}

/// The one-line summary of the trusted devices: a prompt to add one when
/// there are none, the only one's name, or the first one's name and how
/// many more there are.
pub open spec fn spec_trusted_device_summary(devices: Seq<DeviceInfo>) -> Seq<char> {
    let t = spec_broadcast_targets(devices);
    if t.len() == 0 {
        ADD_DEVICE_LABEL@
    } else if t.len() == 1 {
        t[0].name@
    } else {
        t[0].name@ + "  +"@ + decimal((t.len() - 1) as nat)
    }
}

/// The one-line summary of the trusted devices.
pub fn trusted_device_summary(devices: &[DeviceInfo]) -> (res: String)
    ensures
        res@ == spec_trusted_device_summary(devices@),
{
    let trusted = broadcast_targets(devices);
    let mut out = String::new();
    if trusted.len() == 0 {
        push_str_chars(&mut out, ADD_DEVICE_LABEL);
        assert(out@ =~= ADD_DEVICE_LABEL@);
        return out;
    }
    let first = trusted[0];
    push_str_chars(&mut out, first.name.as_str());
    if trusted.len() > 1 {
        push_str_chars(&mut out, "  +");
        push_decimal(&mut out, (trusted.len() - 1) as u128);
    }
    assert(out@ =~= spec_trusted_device_summary(devices@));
    out
}

proof fn lemma_targets_insert_untrusted(devices: Seq<DeviceInfo>, pos: int, d: DeviceInfo)
    requires
        0 <= pos <= devices.len(),
        d.trust_state != TrustState::Trusted,
    ensures
        spec_broadcast_targets(devices.insert(pos, d)) == spec_broadcast_targets(devices),
    decreases devices.len(),
{
    reveal_with_fuel(Seq::<_>::filter, 1);
    let s = devices.insert(pos, d);
    if pos == devices.len() {
        assert(s.drop_last() =~= devices);
        assert(s.last() == d);
    } else {
        assert(s.drop_last() =~= devices.drop_last().insert(pos, d));
        assert(s.last() == devices.last());
        lemma_targets_insert_untrusted(devices.drop_last(), pos, d);
    }
}

proof fn lemma_targets_all_trusted(devices: Seq<DeviceInfo>)
    requires
        forall|i: int| 0 <= i < devices.len() ==> (#[trigger] devices[i]).trust_state
            == TrustState::Trusted,
    ensures
        spec_broadcast_targets(devices) == devices,
    decreases devices.len(),
{
    reveal_with_fuel(Seq::<_>::filter, 1);
    if devices.len() > 0 {
        lemma_targets_all_trusted(devices.drop_last());
        assert(devices.drop_last().push(devices.last()) =~= devices);
    }
}

/// The summary counts trusted devices only: putting a device that is not
/// trusted anywhere in the list leaves the summary as it was.
pub proof fn lemma_summary_ignores_untrusted(devices: Seq<DeviceInfo>, pos: int, d: DeviceInfo)
    requires
        0 <= pos <= devices.len(),
        d.trust_state != TrustState::Trusted,
    ensures
        spec_trusted_device_summary(devices.insert(pos, d)) == spec_trusted_device_summary(devices),
{
    lemma_targets_insert_untrusted(devices, pos, d);
}

/// On a list of trusted devices the summary is the prompt to add one when
/// the list is empty, the only device's name, or the first device's name,
/// two spaces, `+` and how many more devices follow it.
pub proof fn lemma_summary_of_trusted(devices: Seq<DeviceInfo>)
    requires
        forall|i: int| 0 <= i < devices.len() ==> (#[trigger] devices[i]).trust_state
            == TrustState::Trusted,
    ensures
        devices.len() == 0 ==> spec_trusted_device_summary(devices) == ADD_DEVICE_LABEL@,
        devices.len() == 1 ==> spec_trusted_device_summary(devices) == devices[0].name@,
        devices.len() >= 2 ==> spec_trusted_device_summary(devices) == devices[0].name@ + "  +"@
            + decimal((devices.len() - 1) as nat),
{
    lemma_targets_all_trusted(devices);
}

/// The XML escape of one character.
pub open spec fn xml_escape_char(c: char) -> Seq<char> {
    if c == '&' {
        "&amp;"@
    } else if c == '"' {
        "&quot;"@
    } else if c == '<' {
        "&lt;"@
    } else if c == '>' {
        "&gt;"@
    } else {
        seq![c]
    }
}

/// `s` with `&`, `"`, `<` and `>` escaped.
pub open spec fn spec_escape_xml(s: Seq<char>) -> Seq<char>
    decreases s.len(),
{
    if s.len() == 0 {
        Seq::empty()
    } else {
        spec_escape_xml(s.drop_last()) + xml_escape_char(s.last())
    }
}

/// `value` with `&`, `"`, `<` and `>` escaped for an XML text node.
pub fn escape_xml(value: &str) -> (res: String)
    ensures
        res@ == spec_escape_xml(value@),
{
    let chars = chars_of(value);
    let mut out = String::new();
    let mut i: usize = 0;
    assert(chars@.take(0) =~= Seq::<char>::empty());
    while i < chars.len()
        invariant
            i <= chars.len(),
            out@ == spec_escape_xml(chars@.take(i as int)),
        decreases chars.len() - i,
    {
        let c = chars[i];
        assert(chars@.take(i + 1).drop_last() =~= chars@.take(i as int));
        assert(chars@.take(i + 1).last() == c);
        if c == '&' {
            push_str_chars(&mut out, "&amp;");
        } else if c == '"' {
            push_str_chars(&mut out, "&quot;");
        } else if c == '<' {
            push_str_chars(&mut out, "&lt;");
        } else if c == '>' {
            push_str_chars(&mut out, "&gt;");
        } else {
            push_char(&mut out, c);
            assert(out@ =~= spec_escape_xml(chars@.take(i + 1)));
        }
        i = i + 1;
    }
    assert(chars@.take(chars.len() as int) =~= chars@);
    out
}

} // verus!
