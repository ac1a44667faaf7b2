//! The two capture lanes and what is known of the devices behind them.

use vstd::prelude::*;
use vstd::string::StringExecFns;
use crate::config::Config;
use crate::millis::Millis;
use crate::scalar::Scalar64;
use crate::text::{chars_of, same_text, string_of};

verus! {

/// Lane of the microphone: what the user says.
pub const LANE_MIC: usize = 0;

/// Lane of the system audio output: what the bot says.
pub const LANE_SYS: usize = 1;

/// Sent by a capture stream once per audio buffer, so that sample counts can be
/// mapped onto the clock.
#[derive(Clone, Copy, Debug, PartialEq, Eq, Structural)]
pub struct SyncEvent {
    /// Mono samples of the stream before this buffer.
    pub samples_before: u64,
    /// Best estimate of when the buffer's first sample was heard.
    pub first_frame_ns: u64,
    pub sample_rate: Scalar64,
}

/// Numbers the capture streams, so that a new stream is told from the old.
#[derive(Clone, Copy, Debug, PartialEq, Eq, Structural)]
pub struct Generations {
    pub next: u64,
}

impl Default for Generations {
    fn default() -> (g: Generations)
        ensures
            g.next == 1,
    {
        Generations { next: 1 }
    }
}

/// The number of a new stream: one more than the last.
pub fn next_gen(generations: &mut Generations) -> (gen: u64)
    ensures
        gen == old(generations).next,
        final(generations).next == (old(generations).next + 1) % 0x1_0000_0000_0000_0000,
{
    let gen: u64 = generations.next;
    generations.next = gen.wrapping_add(1);
    gen
}

/// Reported latency of a physical device.
#[derive(Clone, Debug)]
pub struct DeviceInfo {
    pub name: String,
    pub device_latency_ms: Millis,
    pub safety_offset_ms: Millis,
    pub buffer_ms: Millis,
    pub stream_latency_ms: Millis,
    pub total_latency_ms: Millis,
    pub sample_rate: Scalar64,
    pub transport: String,
    pub is_bluetooth: bool,
}

/// The devices to capture from.
#[derive(Clone, Debug)]
pub struct DeviceSelection {
    pub input_device: Option<String>,
    /// Linux only: the monitor source of the system audio.
    pub linux_system_device: Option<String>,
}

impl Default for DeviceSelection {
    fn default() -> (sel: DeviceSelection)
        ensures
            sel.input_device is None,
            sel.linux_system_device is None,
    {
        DeviceSelection { input_device: None, linux_system_device: None }
    }
}

/// The devices that the settings name.
pub fn selection(cfg: &Config) -> (sel: DeviceSelection)
    ensures
        sel.input_device == cfg.input_device,
        sel.linux_system_device == cfg.linux_system_device,
{
    DeviceSelection {
        input_device: copied(&cfg.input_device),
        linux_system_device: copied(&cfg.linux_system_device),
    }
}

fn copied(name: &Option<String>) -> (copy: Option<String>)
    ensures
        copy == *name,
{
    match name {
        Some(s) => Some(s.clone()),
        None => None,
    }
}

/// Where to capture from.
#[derive(Clone, Copy, Debug, PartialEq, Eq, Structural)]
pub enum DeviceChoice {
    /// The device at this position.
    Listed(usize),
    /// The system's default device.
    Standard,
}

/// The device at position `i` has the name wanted.
pub open spec fn is_named(names: Seq<Option<String>>, wanted: Seq<char>, i: int) -> bool {
    0 <= i < names.len() && (names[i] matches Some(n) && n@ == wanted)
}

/// Picks a device: the first of the name wanted, else the default one. Devices
/// whose name could not be read match nothing.
pub fn choose_device(
    names: &Vec<Option<String>>,
    wanted: Option<&str>,
    has_default: bool,
) -> (choice: Result<DeviceChoice, String>)
    ensures
        match (wanted, choice) {
            (Some(w), Ok(DeviceChoice::Listed(i))) => is_named(names@, w@, i as int) && forall|
                j: int,
            |
                0 <= j < i ==> !is_named(names@, w@, j),
            (Some(w), Ok(DeviceChoice::Standard)) => has_default && forall|j: int|
                !is_named(names@, w@, j),
            (Some(w), Err(why)) => !has_default && (forall|j: int| !is_named(names@, w@, j))
                && why@ == "input device '"@ + w@ + "' not found and no default available"@,
            (None, Ok(c)) => has_default && c == DeviceChoice::Standard,
            (None, Err(why)) => !has_default && why@ == "no default input device"@,
        },
{
    match wanted {
        Some(w) => {
            let mut i: usize = 0;
            while i < names.len()
                invariant
                    wanted == Some(w),
                    i <= names@.len(),
                    forall|j: int| 0 <= j < i ==> !is_named(names@, w@, j),
                decreases names@.len() - i,
            {
                if let Some(n) = &names[i] {
                    if same_text(n.as_str(), w) {
                        return Ok(DeviceChoice::Listed(i));
                    }
                }
                i = i + 1;
            }
            if has_default {
                Ok(DeviceChoice::Standard)
            } else {
                let mut why = String::from_str("input device '");
                why.append(w);
                why.append("' not found and no default available");
                Err(why)
            }
        },
        None => {
            if has_default {
                Ok(DeviceChoice::Standard)
            } else {
                Err(String::from_str("no default input device"))
            }
        },
    }
}

/// What `char::is_whitespace` says of a character.
pub uninterp spec fn unicode_whitespace(c: char) -> bool;

/// `char::is_whitespace` is a fixed Unicode property; in ASCII it holds of the
/// space and of the characters from tab to carriage return.
pub assume_specification[ char::is_whitespace ](c: char) -> (b: bool)
    ensures
        b == unicode_whitespace(c),
        c as u32 <= 0x7f ==> b == (c == ' ' || 9 <= c as u32 <= 13),
;

/// What `String::from_utf8_lossy` makes of bytes.
pub uninterp spec fn utf8_lossy(bytes: Seq<u8>) -> Seq<char>;

/// `String::from_utf8_lossy` decodes bytes as UTF-8, with replacement
/// characters for what is not UTF-8. ASCII bytes stand for themselves.
#[verifier::external_body]
fn from_utf8_lossy(bytes: &[u8]) -> (s: String)
    ensures
        s@ == utf8_lossy(bytes@),
        (forall|i: int| 0 <= i < bytes@.len() ==> bytes@[i] < 0x80) ==> s@ == Seq::new(
            bytes@.len(),
            |i: int| bytes@[i] as char,
        ),
{
    String::from_utf8_lossy(bytes).into_owned()
}

/// The text without the whitespace at its start and end.
pub open spec fn trimmed(text: Seq<char>) -> Seq<char>
    decreases text.len(),
{
    if text.len() > 0 && unicode_whitespace(text[0]) {
        trimmed(text.skip(1))
    } else if text.len() > 0 && unicode_whitespace(text.last()) {
        trimmed(text.drop_last())
    } else {
        text
    }
}

/// The four bytes of a code, the most significant first.
pub open spec fn big_endian(code: u32) -> Seq<u8> {
    seq![
        (code / 0x100_0000) as u8,
        (code / 0x1_0000 % 0x100) as u8,
        (code / 0x100 % 0x100) as u8,
        (code % 0x100) as u8,
    ]
}

/// The plain name of a device transport, where its code is known.
pub open spec fn known_transport(fourcc: u32) -> Option<Seq<char>> {
    if fourcc == 0x626C_746E {
        Some("Built-in"@)
    } else if fourcc == 0x7573_6220 {
        Some("USB"@)
    } else if fourcc == 0x626C_7565 {
        Some("Bluetooth"@)
    } else if fourcc == 0x626C_6561 {
        Some("Bluetooth LE"@)
    } else if fourcc == 0x6864_6D69 {
        Some("HDMI"@)
    } else if fourcc == 0x6470_7274 {
        Some("DisplayPort"@)
    } else if fourcc == 0x6169_7270 {
        Some("AirPlay"@)
    } else if fourcc == 0x7669_7274 {
        Some("Virtual"@)
    } else if fourcc == 0x6772_7570 {
        Some("Aggregate"@)
    } else if fourcc == 0x7468_756E {
        Some("Thunderbolt"@)
    } else if fourcc == 0x3133_3934 {
        Some("FireWire"@)
    } else if fourcc == 0x7063_6920 {
        Some("PCI"@)
    } else if fourcc == 0x6561_7662 {
        Some("AVB"@)
    } else if fourcc == 0 {
        Some("Unknown"@)
    } else {
        None
    }
}

/// The name of a device transport; an unknown code is shown as its four
/// characters.
pub fn transport_name(fourcc: u32) -> (name: String)
    ensures
        name@ == match known_transport(fourcc) {
            Some(known) => known,
            None => trimmed(utf8_lossy(big_endian(fourcc))),
        },
{
    let s: &str = match fourcc {
        0x626C_746E => "Built-in",
        0x7573_6220 => "USB",
        0x626C_7565 => "Bluetooth",
        0x626C_6561 => "Bluetooth LE",
        0x6864_6D69 => "HDMI",
        0x6470_7274 => "DisplayPort",
        0x6169_7270 => "AirPlay",
        0x7669_7274 => "Virtual",
        0x6772_7570 => "Aggregate",
        0x7468_756E => "Thunderbolt",
        0x3133_3934 => "FireWire",
        0x7063_6920 => "PCI",
        0x6561_7662 => "AVB",
        0 => "Unknown",
        _ => {
            return four_characters(fourcc);
        },
    };
    String::from_str(s)
}

/// The four characters of a code, trimmed.
pub fn four_characters(code: u32) -> (name: String)
    ensures
        name@ == trimmed(utf8_lossy(big_endian(code))),
{
    let bytes: [u8; 4] = [
        (code / 0x100_0000) as u8,
        (code / 0x1_0000 % 0x100) as u8,
        (code / 0x100 % 0x100) as u8,
        (code % 0x100) as u8,
    ];
    assert(bytes@ =~= big_endian(code));
    let text = from_utf8_lossy(&bytes);
    trim(&text)
}

/// The text without the whitespace at its start and end.
pub fn trim(text: &str) -> (trimmed_text: String)
    ensures
        trimmed_text@ == trimmed(text@),
{
    let chars = chars_of(text);
    let mut start: usize = 0;
    let mut end: usize = chars.len();
    assert(chars@.subrange(0, end as int) =~= chars@);
    while start < end && chars[start].is_whitespace()
        invariant
            start <= end == chars@.len(),
            trimmed(text@) == trimmed(chars@.subrange(start as int, end as int)),
        ensures
            start <= end == chars@.len(),
            trimmed(text@) == trimmed(chars@.subrange(start as int, end as int)),
            start < end ==> !unicode_whitespace(chars@[start as int]),
        decreases end - start,
    {
        assert(chars@.subrange(start as int, end as int).skip(1) =~= chars@.subrange(
            start + 1,
            end as int,
        ));
        start = start + 1;
    }
    while start < end && chars[end - 1].is_whitespace()
        invariant
            start <= end <= chars@.len(),
            trimmed(text@) == trimmed(chars@.subrange(start as int, end as int)),
            start < end ==> !unicode_whitespace(chars@[start as int]),
        ensures
            start <= end <= chars@.len(),
            trimmed(text@) == trimmed(chars@.subrange(start as int, end as int)),
            start < end ==> !unicode_whitespace(chars@[start as int]),
            start < end ==> !unicode_whitespace(chars@[end - 1]),
        decreases end - start,
    {
        assert(chars@.subrange(start as int, end as int).drop_last() =~= chars@.subrange(
            start as int,
            end - 1,
        ));
        end = end - 1;
    }
    let mut kept: Vec<char> = Vec::new();
    let mut i: usize = start;
    while i < end
        invariant
            start <= i <= end <= chars@.len(),
            kept@ == chars@.subrange(start as int, i as int),
        decreases end - i,
    {
        kept.push(chars[i]);
        assert(kept@ =~= chars@.subrange(start as int, i + 1));
        i = i + 1;
    }
    string_of(&kept)
}

/// What is trimmed away is whitespace at the start and at the end, all of it and
/// nothing else.
pub proof fn law_trimming_takes_the_outer_whitespace(text: Seq<char>)
    ensures
        exists|start: int, end: int| #[trigger] trims(text, start, end),
    decreases text.len(),
{
    if text.len() > 0 && unicode_whitespace(text[0]) {
        let rest = text.skip(1);
        law_trimming_takes_the_outer_whitespace(rest);
        let (start, end) = choose|start: int, end: int| #[trigger] trims(rest, start, end);
        lemma_trims_front(text, start, end);
    } else if text.len() > 0 && unicode_whitespace(text.last()) {
        let rest = text.drop_last();
        law_trimming_takes_the_outer_whitespace(rest);
        let (start, end) = choose|start: int, end: int| #[trigger] trims(rest, start, end);
        lemma_trims_back(text, start, end);
    } else {
        assert(text.subrange(0, text.len() as int) =~= text);
        assert(trims(text, 0, text.len() as int));
    }
}

proof fn lemma_trims_front(text: Seq<char>, start: int, end: int)
    requires
        text.len() > 0,
        unicode_whitespace(text[0]),
        trims(text.skip(1), start, end),
    ensures
        trims(text, start + 1, end + 1),
{
    let rest = text.skip(1);
    assert(rest.subrange(start, end) =~= text.subrange(start + 1, end + 1));
    assert forall|i: int| 0 <= i < start + 1 implies unicode_whitespace(#[trigger] text[i]) by {
        assert(i > 0 ==> unicode_whitespace(rest[i - 1]));
    }
    assert forall|i: int| end + 1 <= i < text.len() implies unicode_whitespace(
        #[trigger] text[i],
    ) by {
        assert(unicode_whitespace(rest[i - 1]));
    }
}

proof fn lemma_trims_back(text: Seq<char>, start: int, end: int)
    requires
        text.len() > 0,
        !unicode_whitespace(text[0]),
        unicode_whitespace(text.last()),
        trims(text.drop_last(), start, end),
    ensures
        trims(text, start, end),
{
    let rest = text.drop_last();
    assert(rest.subrange(start, end) =~= text.subrange(start, end));
    assert forall|i: int| 0 <= i < start implies unicode_whitespace(#[trigger] text[i]) by {
        assert(unicode_whitespace(rest[i]));
    }
    assert forall|i: int| end <= i < text.len() implies unicode_whitespace(#[trigger] text[i]) by {
        assert(i < rest.len() ==> unicode_whitespace(rest[i]));
    }
}

/// The trimmed text is the one from `start` to `end`: it neither begins nor ends
/// with whitespace, and there is nothing but whitespace round it.
pub open spec fn trims(text: Seq<char>, start: int, end: int) -> bool {
    &&& 0 <= start <= end <= text.len()
    &&& trimmed(text) == text.subrange(start, end)
    &&& forall|i: int| 0 <= i < start ==> unicode_whitespace(#[trigger] text[i])
    &&& forall|i: int| end <= i < text.len() ==> unicode_whitespace(#[trigger] text[i])
    &&& start < end ==> !unicode_whitespace(text[start]) && !unicode_whitespace(text[end - 1])
}

/// The bytes of a code make it up again, the most significant first.
pub proof fn law_code_bytes_make_up_the_code(code: u32)
    ensures
        big_endian(code).len() == 4,
        big_endian(code)[0] * 0x100_0000 + big_endian(code)[1] * 0x1_0000 + big_endian(code)[2]
            * 0x100 + big_endian(code)[3] == code,
{
}

/// The code made of four characters.
pub open spec fn fourcc(a: char, b: char, c: char, d: char) -> u32 {
    (a as u32 * 0x100_0000 + b as u32 * 0x1_0000 + c as u32 * 0x100 + d as u32) as u32
}

/// The transports that have a plain name, by their four characters; zero is
/// unknown, and no other code has a name.
pub proof fn law_named_transports(code: u32)
    ensures
        known_transport(fourcc('b', 'l', 't', 'n')) == Some("Built-in"@),
        known_transport(fourcc('u', 's', 'b', ' ')) == Some("USB"@),
        known_transport(fourcc('b', 'l', 'u', 'e')) == Some("Bluetooth"@),
        known_transport(fourcc('b', 'l', 'e', 'a')) == Some("Bluetooth LE"@),
        known_transport(fourcc('h', 'd', 'm', 'i')) == Some("HDMI"@),
        known_transport(fourcc('d', 'p', 'r', 't')) == Some("DisplayPort"@),
        known_transport(fourcc('a', 'i', 'r', 'p')) == Some("AirPlay"@),
        known_transport(fourcc('v', 'i', 'r', 't')) == Some("Virtual"@),
        known_transport(fourcc('g', 'r', 'u', 'p')) == Some("Aggregate"@),
        known_transport(fourcc('t', 'h', 'u', 'n')) == Some("Thunderbolt"@),
        known_transport(fourcc('1', '3', '9', '4')) == Some("FireWire"@),
        known_transport(fourcc('p', 'c', 'i', ' ')) == Some("PCI"@),
        known_transport(fourcc('e', 'a', 'v', 'b')) == Some("AVB"@),
        known_transport(0) == Some("Unknown"@),
        code != 0 && code != fourcc('b', 'l', 't', 'n') && code != fourcc('u', 's', 'b', ' ')
            && code != fourcc('b', 'l', 'u', 'e') && code != fourcc('b', 'l', 'e', 'a') && code
            != fourcc('h', 'd', 'm', 'i') && code != fourcc('d', 'p', 'r', 't') && code != fourcc(
            'a',
            'i',
            'r',
            'p',
        ) && code != fourcc('v', 'i', 'r', 't') && code != fourcc('g', 'r', 'u', 'p') && code
            != fourcc('t', 'h', 'u', 'n') && code != fourcc('1', '3', '9', '4') && code != fourcc(
            'p',
            'c',
            'i',
            ' ',
        ) && code != fourcc('e', 'a', 'v', 'b') ==> known_transport(code) is None,
{
}

/// The name wanted is looked for letter by letter among the names that could be
/// read.
pub proof fn law_device_is_found_by_its_name(names: Seq<Option<String>>, wanted: Seq<char>, i: int)
    ensures
        is_named(names, wanted, i) <==> 0 <= i < names.len() && names[i] is Some && names[i]->0@
            == wanted,
{
}

} // verus!
