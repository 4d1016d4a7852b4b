use deepcool_digital::winring0::{
    pci_read_outcome, tctl_eighths, IOCTL_READ_PCI_CONFIG, IOCTL_WRITE_PCI_CONFIG, SMN_ADDR_REG, SMN_DATA_REG,
    SMN_THM_TCON_CUR_TMP,
};

fn f32_tctl(value: u32) -> f32 {
    let raw_temp = (value >> 21) & 0x7FF;
    let mut temp = raw_temp as f32 * 0.125;
    if (value >> 19) & 1 == 1 {
        temp -= 49.0;
    }
    temp
}

#[test]
fn ioctl_codes() {
    assert_eq!(IOCTL_READ_PCI_CONFIG, 0x9C40_6144);
    assert_eq!(IOCTL_WRITE_PCI_CONFIG, 0x9C40_A148);
    assert_eq!((SMN_THM_TCON_CUR_TMP, SMN_ADDR_REG, SMN_DATA_REG), (0x59800, 0x60, 0x64));
}

#[test]
fn tctl_decoding() {
    assert_eq!(tctl_eighths(0), 0);
    assert_eq!(tctl_eighths(360 << 21), 360);
    assert_eq!(tctl_eighths((752 << 21) | (1 << 19)), 360);
    assert_eq!(tctl_eighths(1 << 19), -392);
    assert_eq!(tctl_eighths(u32::MAX), 2047 - 392);
    for v in [0u32, 1, 1 << 19, 1 << 21, 0x1234_5678, 0x8765_4321, u32::MAX, 0x2D08_0000, 0x5A00_0000] {
        assert_eq!(tctl_eighths(v) as f32 / 8.0, f32_tctl(v), "{:#x}", v);
    }
    for raw in 0..2048u32 {
        for flag in 0..2u32 {
            let v = (raw << 21) | (flag << 19) | 0x7_1234;
            assert_eq!(tctl_eighths(v) as f32 / 8.0, f32_tctl(v));
        }
    }
}

#[test]
fn pci_read_outcomes() {
    assert_eq!(pci_read_outcome(true, 4, 0x2D08_0000), Some(0x2D08_0000));
    assert_eq!(pci_read_outcome(true, 2, 7), None);
    assert_eq!(pci_read_outcome(false, 4, 7), None);
}
