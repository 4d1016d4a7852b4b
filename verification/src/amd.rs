//! Decoding of AMD GPU readings: the Linux hwmon/sysfs files and the values
//! of AMD's Display Library (ADL) on Windows.
use vstd::prelude::*;
use vstd::string::StringExecFns;
use vstd::arithmetic::div_mod::lemma_div_is_ordered;
use crate::num::{parse_unsigned, parse_unsigned_range};
use crate::text::{chars_of, line_ranges, lines_of, range_ends_with, range_starts_with, trim_end, trim_end_range};

verus! {

/// `n / d` rounded to the nearest integer, halves away from zero.
pub open spec fn round_half_away(n: int, d: int) -> int {
    if n >= 0 {
        (2 * n + d) / (2 * d)
    } else {
        -((-2 * n + d) / (2 * d))
    }
}

/// `x` as a `u8` the way a float-to-integer `as` cast saturates: negative
/// values give 0, values above 255 give 255.
pub open spec fn saturate_u8(x: int) -> u8 {
    if x < 0 {
        0
    } else if x > 255 {
        255
    } else {
        x as u8
    }
}

/// Whether `s` ends with `p`.
pub open spec fn ends_with(s: Seq<char>, p: Seq<char>) -> bool {
    p.len() <= s.len() && s.skip(s.len() - p.len()) == p
}

/// Whether `s` starts with `p`.
pub open spec fn starts_with(s: Seq<char>, p: Seq<char>) -> bool {
    p.len() <= s.len() && s.take(p.len() as int) == p
}

// ---------------------------------------------------------------------------
// Linux: sysfs and hwmon
// ---------------------------------------------------------------------------

/// The hwmon file that holds the edge temperature in millidegrees Celsius.
pub const TEMP_INPUT: &'static str = "temp1_input";

/// The hwmon file that holds the average power in microwatts.
pub const POWER_AVERAGE: &'static str = "power1_average";

/// The hwmon file that holds the core frequency in hertz.
pub const FREQ_INPUT: &'static str = "freq1_input";

/// The sysfs directory of a PCI device.
pub fn device_path(pci_address: &str) -> (p: String)
    ensures
        p@ == "/sys/bus/pci/devices/"@ + pci_address@,
{
    let mut p = String::from_str("/sys/bus/pci/devices/");
    p.append(pci_address);
    p
}

/// A file inside a directory.
pub fn file_in(dir: &str, file: &str) -> (p: String)
    ensures
        p@ == dir@ + "/"@ + file@,
{
    let mut p = String::from_str(dir);
    p.append("/");
    p.append(file);
    p
}

/// The GPU usage file of the device at `device_path`, when the first line of
/// its `uevent` text (the driver) ends with `amdgpu`.
pub fn card_usage_file(device_path: &str, uevent: &str) -> (r: Option<String>)
    ensures
        match r {
            Some(f) => lines_of(uevent@).len() > 0 && ends_with(lines_of(uevent@)[0], "amdgpu"@)
                && f@ == device_path@ + "/"@ + "gpu_busy_percent"@,
            None => !(lines_of(uevent@).len() > 0 && ends_with(lines_of(uevent@)[0], "amdgpu"@)),
        },
{
    let chars = chars_of(uevent);
    let lines = line_ranges(&chars);
    if lines.len() == 0 {
        return None;
    }
    let (s, e) = lines[0];
    assert(lines@[0].0 <= lines@[0].1);
    let ghost l = chars@.subrange(s as int, e as int);
    proof {
        if "amdgpu"@.len() <= l.len() {
            assert(l.skip(l.len() - "amdgpu"@.len()) =~= chars@.subrange(
                e - "amdgpu"@.len(),
                e as int,
            ));
        }
    }
    if range_ends_with(&chars, s, e, "amdgpu") {
        Some(file_in(device_path, "gpu_busy_percent"))
    } else {
        None
    }
}

/// Whether the name of a hwmon device marks it as the `amdgpu` sensor.
pub fn is_amdgpu_hwmon(name: &str) -> (r: bool)
    ensures
        r == starts_with(name@, "amdgpu"@),
{
    let chars = chars_of(name);
    proof {
        if "amdgpu"@.len() <= chars@.len() {
            assert(chars@.take("amdgpu"@.len() as int) =~= chars@.subrange(
                0,
                "amdgpu"@.len() as int,
            ));
        }
    }
    range_starts_with(&chars, 0, chars.len(), "amdgpu")
}

/// The number that a sensor file holds: its text, trailing whitespace
/// trimmed, as a decimal number no larger than `max`.
pub fn parse_reading(data: &str, max: u64) -> (r: Option<u64>)
    ensures
        match r {
            Some(v) => parse_unsigned(trim_end(data@), 10, max as nat) == Some(v as nat),
            None => parse_unsigned(trim_end(data@), 10, max as nat) is None,
        },
{
    let chars = chars_of(data);
    let e = trim_end_range(&chars, 0, chars.len());
    assert(chars@.subrange(0, chars@.len() as int) =~= chars@);
    parse_unsigned_range(&chars, 0, e, 10, max)
}

/// The temperature that the display shows for a reading of `millidegrees`
/// Celsius: in degrees Celsius, or Fahrenheit (`t * 9 / 5 + 32000`
/// millidegrees), rounded to the nearest degree and capped at 255.
pub open spec fn sysfs_temperature_spec(millidegrees: nat, fahrenheit: bool) -> u8 {
    let t: int = if fahrenheit {
        (millidegrees * 9 / 5 + 32000) as int
    } else {
        millidegrees as int
    };
    saturate_u8(round_half_away(t, 1000))
}

/// The displayed temperature for an hwmon reading (see `sysfs_temperature_spec`).
pub fn sysfs_temperature(millidegrees: u32, fahrenheit: bool) -> (r: u8)
    requires
        fahrenheit ==> millidegrees * 9 <= u32::MAX,
    ensures
        r == sysfs_temperature_spec(millidegrees as nat, fahrenheit),
{
    let t: u32 = if fahrenheit {
        millidegrees * 9 / 5 + 32000
    } else {
        millidegrees
    };
    let rounded: u64 = (2 * (t as u64) + 1000) / 2000;
    if rounded > 255 {
        255
    } else {
        rounded as u8
    }
}

/// A reading in millionths (microwatts, or hertz for millions of hertz) in
/// whole units, truncated to 16 bits as an `as u16` cast does.
pub fn sysfs_megaunits(value: u64) -> (r: u16)
    ensures
        r == (value / 1_000_000) as u16,
{
    (value / 1_000_000) as u16
}

/// The displayed temperature never decreases as the reading increases.
pub proof fn lemma_sysfs_temperature_monotone(a: nat, b: nat, fahrenheit: bool)
    requires
        a <= b,
    ensures
        sysfs_temperature_spec(a, fahrenheit) <= sysfs_temperature_spec(b, fahrenheit),
{
    if fahrenheit {
        lemma_div_is_ordered((a * 9) as int, (b * 9) as int, 5);
    }
    let ta: int = if fahrenheit {
        (a * 9 / 5 + 32000) as int
    } else {
        a as int
    };
    let tb: int = if fahrenheit {
        (b * 9 / 5 + 32000) as int
    } else {
        b as int
    };
    lemma_div_is_ordered(2 * ta + 1000, 2 * tb + 1000, 2000);
}

// ---------------------------------------------------------------------------
// Windows: AMD Display Library
// ---------------------------------------------------------------------------

/// What the adapter table of ADL says of one adapter.
#[derive(Clone, Copy, Debug)]
pub struct AdlAdapter {
    pub adapter_index: i32,
    pub vendor_id: i32,
    pub present: i32,
}

/// The adapter index of the first present AMD adapter, or 0.
pub open spec fn selected_adapter(adapters: Seq<AdlAdapter>) -> i32
    decreases adapters.len(),
{
    if adapters.len() == 0 {
        0
    } else if adapters[0].vendor_id == 0x1002 && adapters[0].present != 0 {
        adapters[0].adapter_index
    } else {
        selected_adapter(adapters.drop_first())
    }
}

/// Chooses the adapter to monitor: the first present one of vendor AMD.
pub fn select_adapter(adapters: &Vec<AdlAdapter>) -> (r: i32)
    ensures
        r == selected_adapter(adapters@),
{
    let mut i: usize = 0;
    assert(adapters@.skip(0) =~= adapters@);
    while i < adapters.len()
        invariant
            i <= adapters@.len(),
            selected_adapter(adapters@) == selected_adapter(adapters@.skip(i as int)),
        decreases adapters@.len() - i,
    {
        let a = adapters[i];
        assert(adapters@.skip(i as int)[0] == a);
        if a.vendor_id == 0x1002 && a.present != 0 {
            return a.adapter_index;
        }
        assert(adapters@.skip(i as int).drop_first() =~= adapters@.skip(i + 1));
        i = i + 1;
    }
    assert(adapters@.skip(i as int) =~= Seq::<AdlAdapter>::empty());
    0
}

/// The temperature that the display shows for an ADL reading of
/// `millidegrees` Celsius: the reading rounded to whole degrees Celsius
/// (halves away from zero), then for Fahrenheit `c * 9 / 5 + 32` rounded the
/// same way, saturated to 0..=255.
pub open spec fn adl_temperature_spec(millidegrees: int, fahrenheit: bool) -> u8 {
    let c = round_half_away(millidegrees, 1000);
    if fahrenheit {
        saturate_u8(round_half_away(9 * c + 160, 5))
    } else {
        saturate_u8(c)
    }
}

/// `round_half_away(n, d)`, computed for the ranges used here.
fn round_half_away_i64(n: i64, d: i64) -> (r: i64)
    requires
        0 < d <= 1000,
        -0x1_0000_0000_0000 <= n <= 0x1_0000_0000_0000,
    ensures
        r == round_half_away(n as int, d as int),
        -0x1_0000_0000_0000 <= r <= 0x1_0000_0000_0000,
{
    if n >= 0 {
        let q: u64 = (2 * (n as u64) + (d as u64)) / (2 * (d as u64));
        assert(q <= 2 * n + d) by (nonlinear_arith)
            requires
                q == (2 * n + d) / (2 * d),
                n >= 0,
                d > 0,
        ;
        assert(q <= 0x1_0000_0000_0000) by (nonlinear_arith)
            requires
                q == (2 * n + d) / (2 * d),
                0 <= n <= 0x1_0000_0000_0000,
                d > 0,
        ;
        q as i64
    } else {
        let a: u64 = (-n) as u64;
        let q: u64 = (2 * a + (d as u64)) / (2 * (d as u64));
        assert(q <= 0x1_0000_0000_0000) by (nonlinear_arith)
            requires
                q == (2 * a + d) / (2 * d),
                0 <= a <= 0x1_0000_0000_0000,
                d > 0,
        ;
        -(q as i64)
    }
}

fn saturate_to_u8(x: i64) -> (r: u8)
    ensures
        r == saturate_u8(x as int),
{
    if x < 0 {
        0
    } else if x > 255 {
        255
    } else {
        x as u8
    }
}

/// The displayed temperature for an ADL reading (see `adl_temperature_spec`).
pub fn adl_temperature(millidegrees: i32, fahrenheit: bool) -> (r: u8)
    ensures
        r == adl_temperature_spec(millidegrees as int, fahrenheit),
{
    let c = round_half_away_i64(millidegrees as i64, 1000);
    if fahrenheit {
        assert(-0x1_0000_0000_0000 <= 9 * c + 160 <= 0x1_0000_0000_0000) by (nonlinear_arith)
            requires
                c == round_half_away(millidegrees as int, 1000),
                -0x8000_0000 <= millidegrees < 0x8000_0000,
        {
            assert(-0x1_0000_0000 <= c <= 0x1_0000_0000) by (nonlinear_arith)
                requires
                    c == round_half_away(millidegrees as int, 1000),
                    -0x8000_0000 <= millidegrees < 0x8000_0000,
            ;
        }
        saturate_to_u8(round_half_away_i64(9 * c + 160, 5))
    } else {
        saturate_to_u8(c)
    }
}

/// The GPU activity in percent, clamped to 0..=100.
pub fn adl_usage(activity: i32) -> (r: u8)
    ensures
        r == (if activity < 0 {
            0
        } else if activity > 100 {
            100
        } else {
            activity
        }),
{
    if activity < 0 {
        0
    } else if activity > 100 {
        100
    } else {
        activity as u8
    }
}

/// The core clock in MHz: values above 10000 are taken to be in units of
/// 10 kHz and divided by 100; the result is truncated to 16 bits as an
/// `as u16` cast does.
pub fn adl_core_clock_mhz(core_clock: i32) -> (r: u16)
    ensures
        r == (if core_clock > 10000 {
            (core_clock / 100) as u16
        } else {
            core_clock as u16
        }),
{
    if core_clock > 10000 {
        ((core_clock as u32) / 100) as u16
    } else {
        core_clock as u16
    }
}


proof fn lemma_round_half_away_monotone(a: int, b: int, d: int)
    requires
        a <= b,
        d > 0,
    ensures
        round_half_away(a, d) <= round_half_away(b, d),
{
    if a >= 0 {
        lemma_div_is_ordered(2 * a + d, 2 * b + d, 2 * d);
    } else if b < 0 {
        lemma_div_is_ordered(-2 * b + d, -2 * a + d, 2 * d);
    } else {
        lemma_div_is_ordered(0, -2 * a + d, 2 * d);
        lemma_div_is_ordered(0, 2 * b + d, 2 * d);
    }
}

/// The temperature shown from an ADL reading never decreases as the reading increases.
pub proof fn lemma_adl_temperature_monotone(a: int, b: int, fahrenheit: bool)
    requires
        a <= b,
    ensures
        adl_temperature_spec(a, fahrenheit) <= adl_temperature_spec(b, fahrenheit),
{
    lemma_round_half_away_monotone(a, b, 1000);
    let ca = round_half_away(a, 1000);
    let cb = round_half_away(b, 1000);
    if fahrenheit {
        lemma_round_half_away_monotone(9 * ca + 160, 9 * cb + 160, 5);
    }
}

/// For a non-negative reading in millidegrees, the Linux hwmon path and the
/// Windows ADL path show the same temperature in degrees Celsius.
pub proof fn lemma_celsius_agrees(millidegrees: nat)
    ensures
        adl_temperature_spec(millidegrees as int, false) == sysfs_temperature_spec(
            millidegrees,
            false,
        ),
{
}


/// The adapter chosen is the first one (in table order) that is AMD's
/// (vendor 0x1002) and present, whatever its adapter index, 0 included; when
/// there is none, adapter index 0 is used.
pub proof fn lemma_first_present_amd_adapter(adapters: Seq<AdlAdapter>, i: int)
    ensures
        (0 <= i < adapters.len() && adapters[i].vendor_id == 0x1002 && adapters[i].present != 0
            && forall|j: int|
            0 <= j < i ==> !(#[trigger] adapters[j].vendor_id == 0x1002 && adapters[j].present != 0))
            ==> selected_adapter(adapters) == adapters[i].adapter_index,
        (forall|j: int|
            0 <= j < adapters.len() ==> !(#[trigger] adapters[j].vendor_id == 0x1002
                && adapters[j].present != 0)) ==> selected_adapter(adapters) == 0,
    decreases adapters.len(),
{
    if adapters.len() > 0 {
        let rest = adapters.drop_first();
        lemma_first_present_amd_adapter(rest, i - 1);
        if forall|j: int|
            0 <= j < adapters.len() ==> !(#[trigger] adapters[j].vendor_id == 0x1002
                && adapters[j].present != 0) {
            assert(!(adapters[0].vendor_id == 0x1002 && adapters[0].present != 0));
            assert forall|j: int| 0 <= j < rest.len() implies !(#[trigger] rest[j].vendor_id
                == 0x1002 && rest[j].present != 0) by {
                assert(rest[j] == adapters[j + 1]);
            }
        }
        if 0 < i < adapters.len() && adapters[i].vendor_id == 0x1002 && adapters[i].present != 0
            && forall|j: int|
            0 <= j < i ==> !(#[trigger] adapters[j].vendor_id == 0x1002 && adapters[j].present
                != 0) {
            assert(!(adapters[0].vendor_id == 0x1002 && adapters[0].present != 0));
            assert(rest[i - 1] == adapters[i]);
            assert forall|j: int| 0 <= j < i - 1 implies !(#[trigger] rest[j].vendor_id == 0x1002
                && rest[j].present != 0) by {
                assert(rest[j] == adapters[j + 1]);
            }
        }
    }
}

} // verus!
