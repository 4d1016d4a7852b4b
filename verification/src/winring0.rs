//! The WinRing0 driver interface through which the AMD Ryzen temperature
//! register is read: its names, its I/O control codes, the SMN registers
//! involved, and the decoding of what they return.
use vstd::prelude::*;

verus! {

/// The device that the driver exposes.
pub const DEVICE_NAME: &'static str = "\\\\.\\WinRing0_1_2_0";

/// The name of the service that loads the driver.
pub const SERVICE_NAME: &'static str = "WinRing0_1_2_0";

/// The driver file, expected next to the executable.
pub const DRIVER_FILE: &'static str = "WinRing0x64.sys";

/// `CTL_CODE(40000, 0x851, METHOD_BUFFERED, FILE_READ_ACCESS)`.
pub const IOCTL_READ_PCI_CONFIG: u32 = (40000u32 << 16u32) | (1u32 << 14u32) | (0x851u32 << 2u32);

/// `CTL_CODE(40000, 0x852, METHOD_BUFFERED, FILE_WRITE_ACCESS)`.
pub const IOCTL_WRITE_PCI_CONFIG: u32 = (40000u32 << 16u32) | (2u32 << 14u32) | (0x852u32 << 2u32);

/// The SMN address of the AMD Ryzen temperature register (THM_TCON_CUR_TMP).
pub const SMN_THM_TCON_CUR_TMP: u32 = 0x00059800;

/// The PCI configuration register of the host bridge (bus 0, device 0,
/// function 0) that takes the SMN address.
pub const SMN_ADDR_REG: u32 = 0x60;

/// The PCI configuration register of the host bridge that gives the SMN data.
pub const SMN_DATA_REG: u32 = 0x64;

/// The temperature in eighths of a degree Celsius that a THM_TCON_CUR_TMP value
/// reports: bits 31..21 in units of 0.125 °C, less 49 °C when bit 19 (the Tctl
/// offset flag) is set.
pub open spec fn tctl_eighths_spec(value: u32) -> int {
    let raw = value as int / 0x20_0000;
    if (value as int / 0x8_0000) % 2 == 1 {
        raw - 392
    } else {
        raw
    }
}

/// Decodes a THM_TCON_CUR_TMP value into eighths of a degree Celsius (divide
/// by 8 for degrees).
pub fn tctl_eighths(value: u32) -> (r: i32)
    ensures
        r == tctl_eighths_spec(value),
{
    let raw = (value >> 21u32) & 0x7FF;
    let flag = (value >> 19u32) & 1;
    assert(raw == value / 0x20_0000) by (bit_vector)
        requires
            raw == (value >> 21u32) & 0x7FF,
    ;
    assert(flag == (value / 0x8_0000) % 2) by (bit_vector)
        requires
            flag == (value >> 19u32) & 1,
    ;
    if flag == 1 {
        raw as i32 - 392
    } else {
        raw as i32
    }
}

/// The outcome of a PCI configuration read through the driver: the value read
/// when the call succeeded and returned exactly four bytes.
pub fn pci_read_outcome(call_ok: bool, bytes_returned: u32, output: u32) -> (r: Option<u32>)
    ensures
        r == (if call_ok && bytes_returned == 4 {
            Some(output)
        } else {
            None
        }),
{
    if call_ok && bytes_returned == 4 {
        Some(output)
    } else {
        None
    }
}

} // verus!
