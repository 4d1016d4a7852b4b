//! GPUs as the DXGI adapter enumeration reports them.
use vstd::prelude::*;
use vstd::string::StringExecFns;
use crate::pci::{vendor_name, PciDevice, PciDeviceView, Vendor, devices_view};
use crate::text::{decimal, decimal_string};
use crate::wide::{
    decode_utf16_lossy, encode_char_utf16, encode_utf16, lemma_decode_encode_utf16, string_from_utf16_lossy,
};

verus! {

/// What one DXGI adapter describes of itself.
pub struct AdapterDesc {
    /// The PCI vendor ID.
    pub vendor_id: u32,
    /// The NUL-terminated UTF-16 description.
    pub description: Vec<u16>,
}

/// The vendor of a PCI vendor ID.
pub open spec fn vendor_of_id(id: u32) -> Option<Vendor> {
    if id == 0x1002 {
        Some(Vendor::Amd)
    } else if id == 0x10DE {
        Some(Vendor::Nvidia)
    } else if id == 0x8086 {
        Some(Vendor::Intel)
    } else {
        None
    }
}

/// The units of `u` before its first 0.
pub open spec fn until_nul(u: Seq<u16>) -> Seq<u16>
    decreases u.len(),
{
    if u.len() == 0 || u[0] == 0 {
        Seq::empty()
    } else {
        seq![u[0]] + until_nul(u.drop_first())
    }
}

proof fn lemma_until_nul(u: Seq<u16>, i: int)
    requires
        0 <= i <= u.len(),
        forall|j: int| 0 <= j < i ==> u[j] != 0,
        i == u.len() || u[i] == 0,
    ensures
        until_nul(u) == u.take(i),
    decreases i,
{
    if i == 0 {
        assert(u.take(0) =~= Seq::<u16>::empty());
    } else {
        lemma_until_nul(u.drop_first(), i - 1);
        assert(u.take(i) =~= seq![u[0]] + u.drop_first().take(i - 1));
    }
}

/// The GPU that the adapter at `position` in the enumeration describes: a
/// known vendor's adapter is named by the vendor and its description, is
/// addressed `dxgi:<position>`, and sits on bus 0 (integrated) when it is the
/// first adapter and an Intel one, else on bus 1.
pub open spec fn dxgi_gpu(position: nat, vendor_id: u32, description: Seq<u16>) -> Option<
    PciDeviceView,
> {
    match vendor_of_id(vendor_id) {
        Some(v) => Some(
            PciDeviceView {
                vendor: v,
                bus: if v == Vendor::Intel && position == 0 {
                    0
                } else {
                    1
                },
                address: "dxgi:"@ + decimal(position),
                name: vendor_name(v) + " "@ + decode_utf16_lossy(until_nul(description)),
            },
        ),
        None => None,
    }
}

/// The GPUs among the enumerated adapters, in order; an adapter whose
/// description could not be read (`None`) is skipped but keeps its position.
pub open spec fn dxgi_gpu_list(adapters: Seq<Option<AdapterDesc>>) -> Seq<PciDeviceView>
    decreases adapters.len(),
{
    if adapters.len() == 0 {
        Seq::empty()
    } else {
        let prev = dxgi_gpu_list(adapters.drop_last());
        match adapters.last() {
            Some(a) => match dxgi_gpu((adapters.len() - 1) as nat, a.vendor_id, a.description@) {
                Some(g) => prev.push(g),
                None => prev,
            },
            None => prev,
        }
    }
}

/// The GPU that one enumerated adapter describes.
pub fn gpu_from_adapter(position: u32, vendor_id: u32, description: &[u16]) -> (r: Option<PciDevice>)
    ensures
        match r {
            Some(g) => dxgi_gpu(position as nat, vendor_id, description@) == Some(g@),
            None => dxgi_gpu(position as nat, vendor_id, description@) is None,
        },
{
    let vendor = if vendor_id == 0x1002 {
        Vendor::Amd
    } else if vendor_id == 0x10DE {
        Vendor::Nvidia
    } else if vendor_id == 0x8086 {
        Vendor::Intel
    } else {
        return None;
    };
    let mut units: Vec<u16> = Vec::new();
    let mut i: usize = 0;
    while i < description.len() && description[i] != 0
        invariant
            i <= description@.len(),
            forall|j: int| 0 <= j < i ==> description@[j] != 0,
            units@ == description@.take(i as int),
        decreases description@.len() - i,
    {
        units.push(description[i]);
        i = i + 1;
        assert(units@ =~= description@.take(i as int));
    }
    proof {
        lemma_until_nul(description@, i as int);
    }
    let text = string_from_utf16_lossy(units.as_slice());
    let mut name = String::from_str(vendor.name());
    name.append(" ");
    name.append(text.as_str());
    let mut address = String::from_str("dxgi:");
    let digits = decimal_string(position);
    address.append(digits.as_str());
    let bus: u8 = if vendor == Vendor::Intel && position == 0 {
        0
    } else {
        1
    };
    Some(PciDevice { vendor, bus, address, name })
}

/// Gets all GPUs among the enumerated DXGI adapters, in enumeration order.
pub fn get_gpu_list(adapters: &Vec<Option<AdapterDesc>>) -> (r: Vec<PciDevice>)
    requires
        adapters@.len() <= u32::MAX,
    ensures
        devices_view(r@) == dxgi_gpu_list(adapters@),
{
    let mut gpus: Vec<PciDevice> = Vec::new();
    let mut i: usize = 0;
    assert(adapters@.take(0) =~= Seq::<Option<AdapterDesc>>::empty());
    assert(devices_view(gpus@) =~= Seq::<PciDeviceView>::empty());
    while i < adapters.len()
        invariant
            i <= adapters@.len() <= u32::MAX,
            devices_view(gpus@) == dxgi_gpu_list(adapters@.take(i as int)),
        decreases adapters@.len() - i,
    {
        assert(adapters@.take(i + 1).drop_last() =~= adapters@.take(i as int));
        assert(adapters@.take(i + 1).last() == adapters@[i as int]);
        match &adapters[i] {
            Some(a) => {
                match gpu_from_adapter(i as u32, a.vendor_id, a.description.as_slice()) {
                    Some(g) => {
                        let ghost before = gpus@;
                        gpus.push(g);
                        assert(devices_view(gpus@) =~= devices_view(before).push(g@));
                    },
                    None => {},
                }
            },
            None => {},
        }
        i = i + 1;
    }
    assert(adapters@.take(adapters@.len() as int) =~= adapters@);
    gpus
}


proof fn lemma_encode_utf16_nonzero(s: Seq<char>)
    requires
        forall|i: int| 0 <= i < s.len() ==> s[i] != '\0',
    ensures
        forall|i: int| 0 <= i < encode_utf16(s).len() ==> encode_utf16(s)[i] != 0,
    decreases s.len(),
{
    if s.len() > 0 {
        let rest = s.drop_first();
        assert forall|i: int| 0 <= i < rest.len() implies rest[i] != '\0' by {
            assert(rest[i] == s[i + 1]);
        }
        lemma_encode_utf16_nonzero(rest);
        let c = s[0];
        vstd::utf8::char_is_scalar(c);
        let e = encode_char_utf16(c);
        assert(c as u32 != 0) by {
            if c as u32 == 0 {
                vstd::utf8::char_u32_cast(c, 0u32);
                vstd::utf8::char_u32_cast('\0', 0u32);
            }
        }
        assert(forall|i: int| 0 <= i < e.len() ==> e[i] != 0);
        let u = encode_utf16(s);
        assert(u == e + encode_utf16(rest));
        assert forall|i: int| 0 <= i < u.len() implies u[i] != 0 by {
            if i < e.len() {
                assert(u[i] == e[i]);
            } else {
                assert(u[i] == encode_utf16(rest)[i - e.len()]);
            }
        }
    }
}

/// A text without NUL characters, written as a NUL-terminated wide string (as
/// `to_wide` writes it), reads back as the same text when an adapter
/// description is read (up to the first NUL, then decoded).
pub proof fn lemma_wide_text_reads_back(s: Seq<char>)
    requires
        forall|i: int| 0 <= i < s.len() ==> s[i] != '\0',
    ensures
        decode_utf16_lossy(until_nul(encode_utf16(s).push(0))) == s,
{
    let u = encode_utf16(s);
    lemma_encode_utf16_nonzero(s);
    assert forall|j: int| 0 <= j < u.len() implies u.push(0)[j] != 0 by {
        assert(u.push(0)[j] == u[j]);
    }
    lemma_until_nul(u.push(0), u.len() as int);
    assert(u.push(0).take(u.len() as int) =~= u);
    lemma_decode_encode_utf16(s);
}


/// An adapter is listed exactly when its vendor ID is AMD's (0x1002),
/// NVIDIA's (0x10DE) or Intel's (0x8086), as that vendor; it is put on bus 0
/// exactly when it is Intel's and first in the enumeration, else on bus 1;
/// and it is addressed `dxgi:` and its position.
pub proof fn lemma_dxgi_vendor_and_bus(position: nat, vendor_id: u32, description: Seq<u16>)
    ensures
        dxgi_gpu(position, vendor_id, description) is Some <==> (vendor_id == 0x1002 || vendor_id
            == 0x10DE || vendor_id == 0x8086),
        dxgi_gpu(position, vendor_id, description) matches Some(g) ==> {
            &&& (vendor_id == 0x1002 ==> g.vendor == Vendor::Amd)
            &&& (vendor_id == 0x10DE ==> g.vendor == Vendor::Nvidia)
            &&& (vendor_id == 0x8086 ==> g.vendor == Vendor::Intel)
            &&& (g.bus == 0 <==> (vendor_id == 0x8086 && position == 0))
            &&& (g.bus == 0 || g.bus == 1)
            &&& g.address == "dxgi:"@ + decimal(position)
        },
{
}

} // verus!
