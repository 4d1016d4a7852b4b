//! Identification of GPUs as PCI devices.
use vstd::prelude::*;
use crate::text::{
    chars_of, field_ranges, line_ranges, lines_of, range_eq_str, range_starts_with, split_fields, str_eq,
    Separators,
};
use vstd::string::StrSliceExecFns;
use vstd::string::StringExecFns;
use vstd::utf8::{encode_utf8, is_char_boundary};
use crate::num::{parse_unsigned, parse_unsigned_range};

verus! {

/// The GPU vendors that the display can report on.
#[derive(PartialEq, Eq, Structural, Hash, Clone, Copy, Debug)]
pub enum Vendor {
    Amd,
    Intel,
    Nvidia,
}

/// The display name of a vendor.
pub open spec fn vendor_name(v: Vendor) -> Seq<char> {
    match v {
        Vendor::Amd => "AMD"@,
        Vendor::Intel => "Intel"@,
        Vendor::Nvidia => "NVIDIA"@,
    }
}

/// The vendor that a command-line symbol selects, if any.
pub open spec fn vendor_of_symbol(s: Seq<char>) -> Option<Vendor> {
    if s == "amd"@ {
        Some(Vendor::Amd)
    } else if s == "intel"@ {
        Some(Vendor::Intel)
    } else if s == "nvidia"@ {
        Some(Vendor::Nvidia)
    } else {
        None
    }
}

/// The command-line symbol of a vendor.
pub open spec fn vendor_symbol(v: Vendor) -> Seq<char> {
    match v {
        Vendor::Amd => "amd"@,
        Vendor::Intel => "intel"@,
        Vendor::Nvidia => "nvidia"@,
    }
}

/// Every vendor is selected by its own symbol, and no two vendors share a
/// display name.
pub proof fn lemma_vendor_symbols_and_names(v: Vendor, w: Vendor)
    ensures
        vendor_of_symbol(vendor_symbol(v)) == Some(v),
        v != w ==> vendor_name(v) != vendor_name(w),
{
    reveal_strlit("amd");
    reveal_strlit("intel");
    reveal_strlit("nvidia");
    reveal_strlit("AMD");
    reveal_strlit("Intel");
    reveal_strlit("NVIDIA");
    assert("amd"@ != "intel"@ && "amd"@ != "nvidia"@ && "intel"@ != "nvidia"@) by {
        assert("amd"@.len() != "intel"@.len());
        assert("amd"@.len() != "nvidia"@.len());
        assert("intel"@[0] != "nvidia"@[0]);
    }
    assert("AMD"@ != "Intel"@ && "AMD"@ != "NVIDIA"@ && "Intel"@ != "NVIDIA"@) by {
        assert("AMD"@.len() != "Intel"@.len());
        assert("AMD"@.len() != "NVIDIA"@.len());
        assert("Intel"@[0] != "NVIDIA"@[0]);
    }
}

impl Vendor {
    /// The display name of the vendor.
    pub fn name(&self) -> (s: &'static str)
        ensures
            s@ == vendor_name(*self),
    {
        match self {
            Vendor::Amd => "AMD",
            Vendor::Intel => "Intel",
            Vendor::Nvidia => "NVIDIA",
        }
    }

    /// Parses a vendor symbol as given on the command line (`amd`, `intel`, `nvidia`).
    pub fn get(symbol: &str) -> (r: Option<Vendor>)
        ensures
            r == vendor_of_symbol(symbol@),
    {
        if str_eq(symbol, "amd") {
            Some(Vendor::Amd)
        } else if str_eq(symbol, "intel") {
            Some(Vendor::Intel)
        } else if str_eq(symbol, "nvidia") {
            Some(Vendor::Nvidia)
        } else {
            None
        }
    }
}


/// The (domain, bus, device, function) of a PCI address written
/// `<domain>:<bus>:<device>.<function>`: the first four fields between `:` and
/// `.`, the first three hexadecimal and the last decimal, each within its type.
pub open spec fn pci_addr_spec(s: Seq<char>) -> Option<(u16, u8, u8, u8)> {
    let f = split_fields(s, Separators::ColonOrDot);
    if f.len() < 4 {
        None
    } else {
        match (
            parse_unsigned(f[0], 16, 0xffff),
            parse_unsigned(f[1], 16, 0xff),
            parse_unsigned(f[2], 16, 0xff),
            parse_unsigned(f[3], 10, 0xff),
        ) {
            (Some(a), Some(b), Some(c), Some(d)) => Some((a as u16, b as u8, c as u8, d as u8)),
            _ => None,
        }
    }
}

/// The (vendor, device) of a PCI ID written `<vendor>:<device>`: the first two
/// fields between `:`, both hexadecimal 16-bit numbers.
pub open spec fn pci_id_spec(s: Seq<char>) -> Option<(u16, u16)> {
    let f = split_fields(s, Separators::Colon);
    if f.len() < 2 {
        None
    } else {
        match (parse_unsigned(f[0], 16, 0xffff), parse_unsigned(f[1], 16, 0xffff)) {
            (Some(a), Some(b)) => Some((a as u16, b as u16)),
            _ => None,
        }
    }
}

/// Parses a PCI address such as `0000:03:00.0`.
pub fn parse_pci_addr(addr: &str) -> (r: Option<(u16, u8, u8, u8)>)
    ensures
        r == pci_addr_spec(addr@),
{
    let chars = chars_of(addr);
    let f = field_ranges(&chars, Separators::ColonOrDot);
    if f.len() < 4 {
        return None;
    }
    let ghost g = split_fields(chars@, Separators::ColonOrDot);
    assert(f@[0].0 <= f@[0].1 && f@[1].0 <= f@[1].1 && f@[2].0 <= f@[2].1 && f@[3].0 <= f@[3].1);
    let domain = match parse_unsigned_range(&chars, f[0].0, f[0].1, 16, 0xffff) {
        Some(v) => v,
        None => return None,
    };
    let bus = match parse_unsigned_range(&chars, f[1].0, f[1].1, 16, 0xff) {
        Some(v) => v,
        None => return None,
    };
    let device = match parse_unsigned_range(&chars, f[2].0, f[2].1, 16, 0xff) {
        Some(v) => v,
        None => return None,
    };
    let function = match parse_unsigned_range(&chars, f[3].0, f[3].1, 10, 0xff) {
        Some(v) => v,
        None => return None,
    };
    Some((domain as u16, bus as u8, device as u8, function as u8))
}

/// Parses a PCI ID such as `1002:73bf`.
pub fn parse_pci_id(id: &str) -> (r: Option<(u16, u16)>)
    ensures
        r == pci_id_spec(id@),
{
    let chars = chars_of(id);
    let f = field_ranges(&chars, Separators::Colon);
    if f.len() < 2 {
        return None;
    }
    assert(f@[0].0 <= f@[0].1 && f@[1].0 <= f@[1].1);
    let vendor = match parse_unsigned_range(&chars, f[0].0, f[0].1, 16, 0xffff) {
        Some(v) => v,
        None => return None,
    };
    let device = match parse_unsigned_range(&chars, f[1].0, f[1].1, 16, 0xffff) {
        Some(v) => v,
        None => return None,
    };
    Some((vendor as u16, device as u16))
}


/// A GPU found on the PCI bus.
#[derive(Clone, Debug)]
pub struct PciDevice {
    pub vendor: Vendor,
    pub bus: u8,
    pub address: String,
    pub name: String,
}

/// The value that a `PciDevice` holds.
pub struct PciDeviceView {
    pub vendor: Vendor,
    pub bus: u8,
    pub address: Seq<char>,
    pub name: Seq<char>,
}

impl View for PciDevice {
    type V = PciDeviceView;

    open spec fn view(&self) -> PciDeviceView {
        PciDeviceView { vendor: self.vendor, bus: self.bus, address: self.address@, name: self.name@ }
    }
}

/// The key of a device name: vendor, device ID and, optionally, the
/// subsystem (vendor, device) IDs.
pub type NameKey = (Vendor, u16, Option<(u16, u16)>);

/// One entry of a device-name table.
pub struct DeviceName {
    pub vendor: Vendor,
    pub device: u16,
    pub subsystem: Option<(u16, u16)>,
    pub name: String,
}

pub open spec fn name_key(e: DeviceName) -> NameKey {
    (e.vendor, e.device, e.subsystem)
}

/// The name that the first entry of `s` with key `k` holds.
pub open spec fn lookup_entries(s: Seq<DeviceName>, k: NameKey) -> Option<Seq<char>>
    decreases s.len(),
{
    if s.len() == 0 {
        None
    } else if name_key(s[0]) == k {
        Some(s[0].name@)
    } else {
        lookup_entries(s.drop_first(), k)
    }
}

proof fn lemma_lookup_push(s: Seq<DeviceName>, e: DeviceName, k: NameKey)
    ensures
        lookup_entries(s.push(e), k) == (if lookup_entries(s, k) is Some {
            lookup_entries(s, k)
        } else if name_key(e) == k {
            Some(e.name@)
        } else {
            None
        }),
    decreases s.len(),
{
    if s.len() > 0 {
        assert(s.push(e)[0] == s[0]);
        assert(s.push(e).drop_first() =~= s.drop_first().push(e));
        lemma_lookup_push(s.drop_first(), e, k);
    } else {
        assert(s.push(e)[0] == e);
        assert(s.push(e).drop_first() =~= Seq::<DeviceName>::empty());
        assert(lookup_entries(s.push(e).drop_first(), k) is None);
        assert(lookup_entries(s, k) is None);
    }
}

proof fn lemma_lookup_update(s: Seq<DeviceName>, j: int, e: DeviceName, k: NameKey)
    requires
        0 <= j < s.len(),
        name_key(s[j]) == name_key(e),
        forall|i: int| 0 <= i < j ==> name_key(#[trigger] s[i]) != name_key(e),
    ensures
        lookup_entries(s.update(j, e), k) == (if name_key(e) == k {
            Some(e.name@)
        } else {
            lookup_entries(s, k)
        }),
    decreases s.len(),
{
    if j > 0 {
        assert(s.update(j, e)[0] == s[0]);
        assert(name_key(s[0]) != name_key(e));
        assert(s.update(j, e).drop_first() =~= s.drop_first().update(j - 1, e));
        assert forall|i: int| 0 <= i < j - 1 implies name_key(#[trigger] s.drop_first()[i]) != name_key(e) by {
            assert(s.drop_first()[i] == s[i + 1]);
        }
        lemma_lookup_update(s.drop_first(), j - 1, e, k);
    } else {
        assert(s.update(j, e)[0] == e);
        assert(s.update(j, e).drop_first() =~= s.drop_first());
    }
}

proof fn lemma_lookup_absent(s: Seq<DeviceName>, k: NameKey)
    requires
        forall|i: int| 0 <= i < s.len() ==> name_key(#[trigger] s[i]) != k,
    ensures
        lookup_entries(s, k) is None,
    decreases s.len(),
{
    if s.len() > 0 {
        assert(forall|i: int| 0 <= i < s.drop_first().len() ==> s.drop_first()[i] == s[i + 1]);
        lemma_lookup_absent(s.drop_first(), k);
    }
}

proof fn lemma_lookup_found(s: Seq<DeviceName>, j: int, k: NameKey)
    requires
        0 <= j < s.len(),
        name_key(s[j]) == k,
        forall|i: int| 0 <= i < j ==> name_key(#[trigger] s[i]) != k,
    ensures
        lookup_entries(s, k) == Some(s[j].name@),
    decreases s.len(),
{
    if j > 0 {
        lemma_lookup_found(s.drop_first(), j - 1, k);
    }
}

/// A table of GPU names, keyed by vendor, device ID and optional subsystem IDs.
pub struct DeviceNames {
    entries: Vec<DeviceName>,
}

impl View for DeviceNames {
    type V = Map<NameKey, Seq<char>>;

    closed spec fn view(&self) -> Map<NameKey, Seq<char>> {
        Map::new(
            |k: NameKey| lookup_entries(self.entries@, k) is Some,
            |k: NameKey| lookup_entries(self.entries@, k)->0,
        )
    }
}

fn key_eq(e: &DeviceName, vendor: Vendor, device: u16, subsystem: Option<(u16, u16)>) -> (r: bool)
    ensures
        r == (name_key(*e) == (vendor, device, subsystem)),
{
    if e.vendor != vendor || e.device != device {
        return false;
    }
    match (e.subsystem, subsystem) {
        (None, None) => true,
        (Some((a, b)), Some((c, d))) => a == c && b == d,
        _ => false,
    }
}

impl DeviceNames {
    /// An empty table.
    pub fn new() -> (t: DeviceNames)
        ensures
            t@ == Map::<NameKey, Seq<char>>::empty(),
    {
        let t = DeviceNames { entries: Vec::new() };
        assert(t@ =~= Map::<NameKey, Seq<char>>::empty());
        t
    }

    /// The index of the first entry with the given key.
    fn position(&self, vendor: Vendor, device: u16, subsystem: Option<(u16, u16)>) -> (r: Option<
        usize,
    >)
        ensures
            match r {
                Some(j) => j < self.entries@.len() && name_key(self.entries@[j as int]) == (
                    vendor,
                    device,
                    subsystem,
                ) && forall|i: int|
                    0 <= i < j ==> name_key(#[trigger] self.entries@[i]) != (
                        vendor,
                        device,
                        subsystem,
                    ),
                None => forall|i: int|
                    0 <= i < self.entries@.len() ==> name_key(#[trigger] self.entries@[i]) != (
                        vendor,
                        device,
                        subsystem,
                    ),
            },
    {
        let mut i: usize = 0;
        while i < self.entries.len()
            invariant
                i <= self.entries@.len(),
                forall|j: int|
                    0 <= j < i ==> name_key(#[trigger] self.entries@[j]) != (
                        vendor,
                        device,
                        subsystem,
                    ),
            decreases self.entries@.len() - i,
        {
            if key_eq(&self.entries[i], vendor, device, subsystem) {
                return Some(i);
            }
            i = i + 1;
        }
        None
    }

    /// Sets the name for a key, replacing any name it had.
    pub fn insert(
        &mut self,
        vendor: Vendor,
        device: u16,
        subsystem: Option<(u16, u16)>,
        name: String,
    )
        ensures
            final(self)@ == old(self)@.insert((vendor, device, subsystem), name@),
    {
        let ghost old_entries = self.entries@;
        let ghost k = (vendor, device, subsystem);
        let e = DeviceName { vendor, device, subsystem, name };
        let ghost ev = e;
        match self.position(vendor, device, subsystem) {
            Some(j) => {
                self.entries.set(j, e);
                proof {
                    assert forall|q: NameKey| #[trigger] lookup_entries(self.entries@, q) == (if q
                        == k {
                        Some(ev.name@)
                    } else {
                        lookup_entries(old_entries, q)
                    }) by {
                        lemma_lookup_update(old_entries, j as int, ev, q);
                    }
                }
            },
            None => {
                self.entries.push(e);
                proof {
                    lemma_lookup_absent(old_entries, k);
                    assert forall|q: NameKey| #[trigger] lookup_entries(self.entries@, q) == (if q
                        == k {
                        Some(ev.name@)
                    } else {
                        lookup_entries(old_entries, q)
                    }) by {
                        lemma_lookup_push(old_entries, ev, q);
                    }
                }
            },
        }
        assert(self@ =~= old(self)@.insert(k, name@));
    }

    /// The name stored for a key.
    pub fn get(&self, vendor: Vendor, device: u16, subsystem: Option<(u16, u16)>) -> (r: Option<
        &String,
    >)
        ensures
            match r {
                Some(n) => self@.contains_key((vendor, device, subsystem)) && self@[(
                    vendor,
                    device,
                    subsystem,
                )] == n@,
                None => !self@.contains_key((vendor, device, subsystem)),
            },
    {
        match self.position(vendor, device, subsystem) {
            Some(j) => {
                proof {
                    lemma_lookup_found(self.entries@, j as int, (vendor, device, subsystem));
                }
                Some(&self.entries[j].name)
            },
            None => {
                proof {
                    lemma_lookup_absent(self.entries@, (vendor, device, subsystem));
                }
                None
            },
        }
    }
}


/// A name read back after it was stored is the name stored, and storing a
/// name leaves the names of all other keys as they were.
pub proof fn lemma_names_read_after_write(
    before: Map<NameKey, Seq<char>>,
    k: NameKey,
    name: Seq<char>,
    other: NameKey,
)
    ensures
        before.insert(k, name).contains_key(k),
        before.insert(k, name)[k] == name,
        other != k ==> (before.insert(k, name).contains_key(other) == before.contains_key(other)),
        other != k && before.contains_key(other) ==> before.insert(k, name)[other] == before[other],
{
}

/// The names table as the specifications see it, when there is one.
pub open spec fn names_view(names: Option<&DeviceNames>) -> Option<Map<NameKey, Seq<char>>> {
    match names {
        Some(n) => Some(n@),
        None => None,
    }
}

/// The name of a device: the one stored for its subsystem IDs, else the one
/// stored for the device alone.
pub open spec fn device_name_spec(
    names: Option<Map<NameKey, Seq<char>>>,
    vendor: Vendor,
    device: u16,
    subsystem: (u16, u16),
) -> Option<Seq<char>> {
    match names {
        Some(m) => if m.contains_key((vendor, device, Some(subsystem))) {
            Some(m[(vendor, device, Some(subsystem))])
        } else if m.contains_key((vendor, device, None)) {
            Some(m[(vendor, device, None)])
        } else {
            None
        },
        None => None,
    }
}

/// The displayed name of a GPU: the vendor, a space, and the device name, or
/// `GPU` for a device off bus 0 and `iGPU` for one on it when no name is known.
pub open spec fn display_name(vendor: Vendor, bus: u8, found: Option<Seq<char>>) -> Seq<char> {
    match found {
        Some(n) => vendor_name(vendor) + " "@ + n,
        None => vendor_name(vendor) + " "@ + (if bus > 0 {
            "GPU"@
        } else {
            "iGPU"@
        }),
    }
}

/// `l` without the prefix `p`, when it has it.
pub open spec fn strip_prefix(l: Seq<char>, p: Seq<char>) -> Option<Seq<char>> {
    if p.len() <= l.len() && l.take(p.len() as int) == p {
        Some(l.skip(p.len() as int))
    } else {
        None
    }
}

/// The `DRIVER=`, `PCI_ID=` and `PCI_SUBSYS_ID=` values of a uevent file:
/// for each, the value on the last line that sets it.
pub open spec fn scan_uevent(lines: Seq<Seq<char>>) -> (
    Option<Seq<char>>,
    Option<Seq<char>>,
    Option<Seq<char>>,
)
    decreases lines.len(),
{
    if lines.len() == 0 {
        (None, None, None)
    } else {
        let prev = scan_uevent(lines.drop_last());
        let l = lines.last();
        if strip_prefix(l, "DRIVER="@) is Some {
            (strip_prefix(l, "DRIVER="@), prev.1, prev.2)
        } else if strip_prefix(l, "PCI_ID="@) is Some {
            (prev.0, strip_prefix(l, "PCI_ID="@), prev.2)
        } else if strip_prefix(l, "PCI_SUBSYS_ID="@) is Some {
            (prev.0, prev.1, strip_prefix(l, "PCI_SUBSYS_ID="@))
        } else {
            prev
        }
    }
}

/// Whether the two bytes at 5..7 of the UTF-8 form of an `i915` device's PCI ID
/// can be taken as a string slice (both ends on character boundaries).
pub open spec fn i915_slice_ok(pci_id: Seq<char>) -> bool {
    let b = encode_utf8(pci_id);
    is_char_boundary(b, 5) && is_char_boundary(b, 7)
}

/// Whether the device ID of an `i915` device starts with `56` (Arc A-series)
/// or `E2` (Arc B-series), read at bytes 5..7 of the PCI ID.
pub open spec fn i915_is_arc(pci_id: Seq<char>) -> bool {
    let b = encode_utf8(pci_id);
    (b[5] == 0x35 && b[6] == 0x36) || (b[5] == 0x45 && b[6] == 0x32)
}

/// The vendor that a kernel driver name stands for.
pub open spec fn driver_vendor(driver: Seq<char>, pci_id: Seq<char>) -> Option<Vendor> {
    if driver == "amdgpu"@ {
        Some(Vendor::Amd)
    } else if driver == "nvidia"@ {
        Some(Vendor::Nvidia)
    } else if driver == "xe"@ {
        Some(Vendor::Intel)
    } else if driver == "i915"@ && i915_is_arc(pci_id) {
        Some(Vendor::Intel)
    } else {
        None
    }
}

/// Whether a PCI device directory (its name `addr` and its uevent text) can be
/// examined: an `i915` device needs its PCI ID sliceable at bytes 5..7, and a
/// recognised GPU needs a valid address, PCI ID and subsystem ID.
pub open spec fn sysfs_entry_ok(addr: Seq<char>, uevent: Seq<char>) -> bool {
    match scan_uevent(lines_of(uevent)) {
        (Some(d), Some(p), Some(s)) => {
            &&& d == "i915"@ ==> i915_slice_ok(p)
            &&& driver_vendor(d, p) is Some ==> {
                &&& pci_addr_spec(addr) is Some
                &&& pci_id_spec(p) is Some
                &&& pci_id_spec(s) is Some
            }
        },
        _ => true,
    }
}

/// The GPU that a PCI device directory describes, if it is one.
pub open spec fn sysfs_gpu(
    addr: Seq<char>,
    uevent: Seq<char>,
    names: Option<Map<NameKey, Seq<char>>>,
) -> Option<PciDeviceView> {
    match scan_uevent(lines_of(uevent)) {
        (Some(d), Some(p), Some(s)) => match (
            driver_vendor(d, p),
            pci_addr_spec(addr),
            pci_id_spec(p),
            pci_id_spec(s),
        ) {
            (Some(v), Some(a), Some(id), Some(sub)) => Some(
                PciDeviceView {
                    vendor: v,
                    bus: a.1,
                    address: addr,
                    name: display_name(v, a.1, device_name_spec(names, v, id.1, sub)),
                },
            ),
            _ => None,
        },
        _ => None,
    }
}

/// The ranges of the uevent values in `chars`, as `scan_uevent` finds them.
fn scan_uevent_ranges(chars: &Vec<char>) -> (r: (
    Option<(usize, usize)>,
    Option<(usize, usize)>,
    Option<(usize, usize)>,
))
    ensures
        ({
            let spec = scan_uevent(lines_of(chars@));
            &&& match r.0 {
                Some((s, e)) => s <= e <= chars@.len() && spec.0 == Some(
                    chars@.subrange(s as int, e as int),
                ),
                None => spec.0 is None,
            }
            &&& match r.1 {
                Some((s, e)) => s <= e <= chars@.len() && spec.1 == Some(
                    chars@.subrange(s as int, e as int),
                ),
                None => spec.1 is None,
            }
            &&& match r.2 {
                Some((s, e)) => s <= e <= chars@.len() && spec.2 == Some(
                    chars@.subrange(s as int, e as int),
                ),
                None => spec.2 is None,
            }
        }),
{
    let lines = line_ranges(chars);
    let ghost ls = lines_of(chars@);
    let mut driver: Option<(usize, usize)> = None;
    let mut pci_id: Option<(usize, usize)> = None;
    let mut subsys: Option<(usize, usize)> = None;
    let mut k: usize = 0;
    assert(ls.take(0) =~= Seq::<Seq<char>>::empty());
    while k < lines.len()
        invariant
            ls == lines_of(chars@),
            lines@.len() == ls.len(),
            forall|j: int|
                #![trigger lines@[j]] 0 <= j < lines@.len() ==> lines@[j].0 <= lines@[j].1 <= chars@.len()
                    && ls[j] == chars@.subrange(lines@[j].0 as int, lines@[j].1 as int),
            k <= lines@.len(),
            ({
                let spec = scan_uevent(ls.take(k as int));
                &&& match driver {
                    Some((s, e)) => s <= e <= chars@.len() && spec.0 == Some(
                        chars@.subrange(s as int, e as int),
                    ),
                    None => spec.0 is None,
                }
                &&& match pci_id {
                    Some((s, e)) => s <= e <= chars@.len() && spec.1 == Some(
                        chars@.subrange(s as int, e as int),
                    ),
                    None => spec.1 is None,
                }
                &&& match subsys {
                    Some((s, e)) => s <= e <= chars@.len() && spec.2 == Some(
                        chars@.subrange(s as int, e as int),
                    ),
                    None => spec.2 is None,
                }
            }),
        decreases lines@.len() - k,
    {
        let (s, e) = lines[k];
        assert(lines@[k as int].0 <= lines@[k as int].1);
        let ghost l = chars@.subrange(s as int, e as int);
        assert(ls.take(k + 1).drop_last() =~= ls.take(k as int));
        assert(ls.take(k + 1).last() == l);
        proof {
            let pd = "DRIVER="@;
            let pp = "PCI_ID="@;
            let ps = "PCI_SUBSYS_ID="@;
            if pd.len() <= l.len() {
                assert(l.take(pd.len() as int) =~= chars@.subrange(s as int, s + pd.len()));
            }
            if pp.len() <= l.len() {
                assert(l.take(pp.len() as int) =~= chars@.subrange(s as int, s + pp.len()));
            }
            if ps.len() <= l.len() {
                assert(l.take(ps.len() as int) =~= chars@.subrange(s as int, s + ps.len()));
            }
        }
        if range_starts_with(chars, s, e, "DRIVER=") {
            let n = "DRIVER=".unicode_len();
            assert(l.take(n as int) =~= chars@.subrange(s as int, s + n));
            assert(l.skip(n as int) =~= chars@.subrange(s + n, e as int));
            driver = Some((s + n, e));
        } else if range_starts_with(chars, s, e, "PCI_ID=") {
            let n = "PCI_ID=".unicode_len();
            assert(l.take(n as int) =~= chars@.subrange(s as int, s + n));
            assert(l.skip(n as int) =~= chars@.subrange(s + n, e as int));
            pci_id = Some((s + n, e));
        } else if range_starts_with(chars, s, e, "PCI_SUBSYS_ID=") {
            let n = "PCI_SUBSYS_ID=".unicode_len();
            assert(l.take(n as int) =~= chars@.subrange(s as int, s + n));
            assert(l.skip(n as int) =~= chars@.subrange(s + n, e as int));
            subsys = Some((s + n, e));
        }
        k = k + 1;
    }
    assert(ls.take(lines@.len() as int) =~= ls);
    (driver, pci_id, subsys)
}


/// The vendor that the driver in `chars[d]` stands for, with the PCI ID in `chars[p]`.
fn driver_vendor_of(chars: &Vec<char>, uevent: &str, d: (usize, usize), p: (usize, usize)) -> (r:
    Option<Vendor>)
    requires
        uevent@ == chars@,
        d.0 <= d.1 <= chars@.len(),
        p.0 <= p.1 <= chars@.len(),
        chars@.subrange(d.0 as int, d.1 as int) == "i915"@ ==> i915_slice_ok(
            chars@.subrange(p.0 as int, p.1 as int),
        ),
    ensures
        r == driver_vendor(
            chars@.subrange(d.0 as int, d.1 as int),
            chars@.subrange(p.0 as int, p.1 as int),
        ),
{
    if range_eq_str(chars, d.0, d.1, "amdgpu") {
        Some(Vendor::Amd)
    } else if range_eq_str(chars, d.0, d.1, "nvidia") {
        Some(Vendor::Nvidia)
    } else if range_eq_str(chars, d.0, d.1, "xe") {
        Some(Vendor::Intel)
    } else if range_eq_str(chars, d.0, d.1, "i915") {
        let pid = uevent.substring_char(p.0, p.1);
        let b = pid.as_bytes();
        proof {
            vstd::utf8::encode_utf8_valid_utf8(pid@);
            assert(b@.len() >= 7);
        }
        if (b[5] == 0x35 && b[6] == 0x36) || (b[5] == 0x45 && b[6] == 0x32) {
            Some(Vendor::Intel)
        } else {
            None
        }
    } else {
        None
    }
}

/// Whether a PCI device directory can be examined (see `sysfs_entry_ok`); a
/// directory for which this is false stops the enumeration.
pub fn sysfs_entry_is_valid(address: &str, uevent: &str) -> (r: bool)
    ensures
        r == sysfs_entry_ok(address@, uevent@),
{
    let chars = chars_of(uevent);
    let ids = scan_uevent_ranges(&chars);
    match ids {
        (Some(d), Some(p), Some(s)) => {
            let pid = uevent.substring_char(p.0, p.1);
            if range_eq_str(&chars, d.0, d.1, "i915") {
                if !(pid.is_char_boundary(5) && pid.is_char_boundary(7)) {
                    return false;
                }
            }
            match driver_vendor_of(&chars, uevent, d, p) {
                Some(_) => {
                    let sid = uevent.substring_char(s.0, s.1);
                    parse_pci_addr(address).is_some() && parse_pci_id(pid).is_some()
                        && parse_pci_id(sid).is_some()
                },
                None => true,
            }
        },
        _ => true,
    }
}

/// The GPU that a PCI device directory describes, given the directory's name
/// (the PCI address) and the text of its `uevent` file.
pub fn gpu_from_uevent(address: &str, uevent: &str, names: Option<&DeviceNames>) -> (r: Option<
    PciDevice,
>)
    requires
        sysfs_entry_ok(address@, uevent@),
    ensures
        match r {
            Some(g) => sysfs_gpu(address@, uevent@, names_view(names)) == Some(g@),
            None => sysfs_gpu(address@, uevent@, names_view(names)) is None,
        },
{
    let chars = chars_of(uevent);
    let ids = scan_uevent_ranges(&chars);
    let (d, p, s) = match ids {
        (Some(d), Some(p), Some(s)) => (d, p, s),
        _ => return None,
    };
    let vendor = match driver_vendor_of(&chars, uevent, d, p) {
        Some(v) => v,
        None => return None,
    };
    let pid = uevent.substring_char(p.0, p.1);
    let sid = uevent.substring_char(s.0, s.1);
    let addr = match parse_pci_addr(address) {
        Some(a) => a,
        None => return None,
    };
    let id = match parse_pci_id(pid) {
        Some(x) => x,
        None => return None,
    };
    let sub = match parse_pci_id(sid) {
        Some(x) => x,
        None => return None,
    };
    let found: Option<&String> = match names {
        Some(table) => match table.get(vendor, id.1, Some(sub)) {
            Some(n) => Some(n),
            None => table.get(vendor, id.1, None),
        },
        None => None,
    };
    let mut name = String::from_str(vendor.name());
    name.append(" ");
    match found {
        Some(n) => name.append(n.as_str()),
        None => if addr.1 > 0 {
            name.append("GPU")
        } else {
            name.append("iGPU")
        },
    }
    Some(PciDevice { vendor, bus: addr.1, address: String::from_str(address), name })
}

/// A PCI device directory as read from the system: its name (the PCI
/// address) and the text of its `uevent` file.
pub struct SysfsDevice {
    pub address: String,
    pub uevent: String,
}

/// The GPUs among `devices`, in their order.
pub open spec fn sysfs_gpu_list(
    devices: Seq<SysfsDevice>,
    names: Option<Map<NameKey, Seq<char>>>,
) -> Seq<PciDeviceView>
    decreases devices.len(),
{
    if devices.len() == 0 {
        Seq::empty()
    } else {
        let prev = sysfs_gpu_list(devices.drop_last(), names);
        match sysfs_gpu(devices.last().address@, devices.last().uevent@, names) {
            Some(g) => prev.push(g),
            None => prev,
        }
    }
}

/// The values that a list of devices holds.
pub open spec fn devices_view(s: Seq<PciDevice>) -> Seq<PciDeviceView> {
    s.map_values(|g: PciDevice| g@)
}

/// Gets all GPUs among the PCI devices of the system, in the order given.
pub fn get_gpu_list(devices: &Vec<SysfsDevice>, names: Option<&DeviceNames>) -> (r: Vec<PciDevice>)
    requires
        forall|i: int|
            0 <= i < devices@.len() ==> sysfs_entry_ok(
                (#[trigger] devices@[i]).address@,
                devices@[i].uevent@,
            ),
    ensures
        devices_view(r@) == sysfs_gpu_list(devices@, names_view(names)),
{
    let mut gpus: Vec<PciDevice> = Vec::new();
    let mut i: usize = 0;
    assert(devices@.take(0) =~= Seq::<SysfsDevice>::empty());
    assert(devices_view(gpus@) =~= Seq::<PciDeviceView>::empty());
    while i < devices.len()
        invariant
            i <= devices@.len(),
            forall|j: int|
                0 <= j < devices@.len() ==> sysfs_entry_ok(
                    (#[trigger] devices@[j]).address@,
                    devices@[j].uevent@,
                ),
            devices_view(gpus@) == sysfs_gpu_list(devices@.take(i as int), names_view(names)),
        decreases devices@.len() - i,
    {
        let dev = &devices[i];
        assert(devices@.take(i + 1).drop_last() =~= devices@.take(i as int));
        assert(devices@.take(i + 1).last() == devices@[i as int]);
        let found = gpu_from_uevent(dev.address.as_str(), dev.uevent.as_str(), names);
        match found {
            Some(g) => {
                let ghost before = gpus@;
                gpus.push(g);
                assert(devices_view(gpus@) =~= devices_view(before).push(g@));
            },
            None => {},
        }
        i = i + 1;
    }
    assert(devices@.take(devices@.len() as int) =~= devices@);
    gpus
}


/// An `i915` device is taken for an Intel GPU exactly when the two bytes at
/// 5..7 of the UTF-8 form of its PCI ID read `56` or `E2`; `i915` never
/// stands for another vendor.
pub proof fn lemma_i915_arc_only(pci_id: Seq<char>)
    requires
        i915_slice_ok(pci_id),
    ensures
        ({
            let b = encode_utf8(pci_id);
            &&& 7 <= b.len()
            &&& driver_vendor("i915"@, pci_id) == Some(Vendor::Intel) <==> (b.subrange(5, 7) == seq![
                0x35u8,
                0x36u8,
            ] || b.subrange(5, 7) == seq![0x45u8, 0x32u8])
            &&& driver_vendor("i915"@, pci_id) is None || driver_vendor("i915"@, pci_id) == Some(
                Vendor::Intel,
            )
        }),
{
    reveal_strlit("i915");
    reveal_strlit("amdgpu");
    reveal_strlit("nvidia");
    reveal_strlit("xe");
    assert("i915"@ != "amdgpu"@ && "i915"@ != "nvidia"@ && "i915"@ != "xe"@) by {
        assert("i915"@.len() != "amdgpu"@.len());
        assert("i915"@.len() != "nvidia"@.len());
        assert("i915"@.len() != "xe"@.len());
    }
    let b = encode_utf8(pci_id);
    vstd::utf8::encode_utf8_valid_utf8(pci_id);
    assert(7 <= b.len());
    let w = b.subrange(5, 7);
    assert(w[0] == b[5] && w[1] == b[6]);
    if (b[5] == 0x35 && b[6] == 0x36) {
        assert(w =~= seq![0x35u8, 0x36u8]);
    }
    if (b[5] == 0x45 && b[6] == 0x32) {
        assert(w =~= seq![0x45u8, 0x32u8]);
    }
    if w == seq![0x35u8, 0x36u8] {
        assert(seq![0x35u8, 0x36u8][0] == 0x35u8 && seq![0x35u8, 0x36u8][1] == 0x36u8);
    }
    if w == seq![0x45u8, 0x32u8] {
        assert(seq![0x45u8, 0x32u8][0] == 0x45u8 && seq![0x45u8, 0x32u8][1] == 0x32u8);
    }
}

/// A device whose uevent names the `i915` driver, with a PCI address and IDs
/// that parse, is listed (as Intel, at its address and bus) exactly when
/// bytes 5..7 of its PCI ID read `56` or `E2`; otherwise it is not listed.
pub proof fn lemma_i915_listed_only_for_arc(
    addr: Seq<char>,
    uevent: Seq<char>,
    names: Option<Map<NameKey, Seq<char>>>,
    p: Seq<char>,
    s: Seq<char>,
)
    requires
        scan_uevent(lines_of(uevent)) == (Some("i915"@), Some(p), Some(s)),
        i915_slice_ok(p),
        pci_addr_spec(addr) is Some,
        pci_id_spec(p) is Some,
        pci_id_spec(s) is Some,
    ensures
        ({
            let b = encode_utf8(p);
            let arc = b.subrange(5, 7) == seq![0x35u8, 0x36u8] || b.subrange(5, 7) == seq![
                0x45u8,
                0x32u8,
            ];
            &&& arc ==> (sysfs_gpu(addr, uevent, names) matches Some(g) && g.vendor == Vendor::Intel
                && g.address == addr && g.bus == (pci_addr_spec(addr)->0).1)
            &&& !arc ==> sysfs_gpu(addr, uevent, names) is None
        }),
{
    lemma_i915_arc_only(p);
}

/// Whatever the vendor, a GPU that the names table knows by its subsystem IDs
/// is named by the vendor, a space and that name; failing that, by the name
/// for its device ID alone; failing that, `GPU` or (on bus 0) `iGPU`.
pub proof fn lemma_gpu_naming(
    addr: Seq<char>,
    uevent: Seq<char>,
    m: Map<NameKey, Seq<char>>,
    p: Seq<char>,
    s: Seq<char>,
    g: PciDeviceView,
)
    requires
        scan_uevent(lines_of(uevent)).1 == Some(p),
        scan_uevent(lines_of(uevent)).2 == Some(s),
        sysfs_gpu(addr, uevent, Some(m)) == Some(g),
    ensures
        pci_id_spec(p) is Some,
        pci_id_spec(s) is Some,
        ({
            let id = pci_id_spec(p)->0;
            let device = id.1;
            let sub = pci_id_spec(s)->0;
            if m.contains_key((g.vendor, device, Some(sub))) {
                g.name == vendor_name(g.vendor) + " "@ + m[(g.vendor, device, Some(sub))]
            } else if m.contains_key((g.vendor, device, None)) {
                g.name == vendor_name(g.vendor) + " "@ + m[(g.vendor, device, None)]
            } else if g.bus > 0 {
                g.name == vendor_name(g.vendor) + " "@ + "GPU"@
            } else {
                g.name == vendor_name(g.vendor) + " "@ + "iGPU"@
            }
        }),
{
}

} // verus!
