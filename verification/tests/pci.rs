use deepcool_digital::pci::{
    get_gpu_list, gpu_from_uevent, parse_pci_addr, parse_pci_id, sysfs_entry_is_valid, DeviceNames,
    PciDevice, SysfsDevice, Vendor,
};

/// The address parse as std's split and from_str_radix give it.
fn std_parse_addr(addr: &str) -> Option<(u16, u8, u8, u8)> {
    let mut parts = addr.split(|c| c == ':' || c == '.');
    let domain = u16::from_str_radix(parts.next()?, 16).ok()?;
    let bus = u8::from_str_radix(parts.next()?, 16).ok()?;
    let device = u8::from_str_radix(parts.next()?, 16).ok()?;
    let function = u8::from_str_radix(parts.next()?, 10).ok()?;
    Some((domain, bus, device, function))
}

fn std_parse_id(id: &str) -> Option<(u16, u16)> {
    let mut parts = id.split(':');
    let vendor = u16::from_str_radix(parts.next()?, 16).ok()?;
    let device = u16::from_str_radix(parts.next()?, 16).ok()?;
    Some((vendor, device))
}

const SAMPLES: &[&str] = &[
    "", ":", "::", ":::", "0000:03:00.0", "0000:0a:1f.7", "0000:03:00", "0000:03:00.0.1", "0000:03:100.0",
    "+0000:03:00.0", "0000:+03:00.0", "0000:03:00.a", "10000:00:00.0", "ffff:ff:ff.255", "ffff:ff:ff.256",
    "0000:03:00:0", "0000.03.00.0", "-0:0:0.0", "+:0:0.0", "00000000000:1:1.1", "0000:0g:00.0", "1002:73BF",
    "10de:2684:ff", "1002", "1002:", ":73bf", "+1002:+73bf", "1002:73bf\n", "é:1:2.3", "0:0:0.09",
];

#[test]
fn vendor_names_and_symbols() {
    assert_eq!(Vendor::Amd.name(), "AMD");
    assert_eq!(Vendor::Intel.name(), "Intel");
    assert_eq!(Vendor::Nvidia.name(), "NVIDIA");
    assert_eq!(Vendor::get("amd"), Some(Vendor::Amd));
    assert_eq!(Vendor::get("intel"), Some(Vendor::Intel));
    assert_eq!(Vendor::get("nvidia"), Some(Vendor::Nvidia));
    assert_eq!(Vendor::get("AMD"), None);
    assert_eq!(Vendor::get("amdx"), None);
    assert_eq!(Vendor::get(""), None);
}

#[test]
fn vendor_symbol_selects_vendor() {
    for v in [Vendor::Amd, Vendor::Intel, Vendor::Nvidia] {
        let symbol = v.name().to_lowercase();
        assert_eq!(Vendor::get(&symbol), Some(v));
    }
}

#[test]
fn pci_address_examples() {
    assert_eq!(parse_pci_addr("0000:03:00.0"), Some((0, 3, 0, 0)));
    assert_eq!(parse_pci_addr("0000:0a:1f.7"), Some((0, 10, 31, 7)));
    assert_eq!(parse_pci_addr("0000:03:00"), None);
    assert_eq!(parse_pci_addr("0000:03:00.0.1"), Some((0, 3, 0, 0)));
    assert_eq!(parse_pci_addr("0000:03:100.0"), None);
    assert_eq!(parse_pci_addr("+0000:03:00.0"), Some((0, 3, 0, 0)));
    assert_eq!(parse_pci_addr("0000:03:00.a"), None);
    assert_eq!(parse_pci_addr("10000:00:00.0"), None);
    assert_eq!(parse_pci_addr("ffff:ff:ff.255"), Some((0xffff, 0xff, 0xff, 255)));
    assert_eq!(parse_pci_addr("ffff:ff:ff.256"), None);
}

#[test]
fn pci_id_examples() {
    assert_eq!(parse_pci_id("1002:73BF"), Some((0x1002, 0x73bf)));
    assert_eq!(parse_pci_id("10de:2684:ff"), Some((0x10de, 0x2684)));
    assert_eq!(parse_pci_id("1002"), None);
    assert_eq!(parse_pci_id(":"), None);
    assert_eq!(parse_pci_id("1002:73bf\n"), None);
    assert_eq!(parse_pci_id("+1002:+73bf"), Some((0x1002, 0x73bf)));
}

#[test]
fn pci_parsing_agrees_with_std() {
    for s in SAMPLES {
        assert_eq!(parse_pci_addr(s), std_parse_addr(s), "address {:?}", s);
        assert_eq!(parse_pci_id(s), std_parse_id(s), "id {:?}", s);
    }
}

fn entry(address: &str, uevent: &str) -> SysfsDevice {
    SysfsDevice { address: address.to_string(), uevent: uevent.to_string() }
}

const AMD_UEVENT: &str = "DRIVER=amdgpu\nPCI_CLASS=30000\nPCI_ID=1002:73BF\nPCI_SUBSYS_ID=1DA2:E438\nPCI_SLOT_NAME=0000:03:00.0\n";

fn names() -> DeviceNames {
    let mut t = DeviceNames::new();
    t.insert(Vendor::Amd, 0x73bf, None, "Radeon RX 6800/6800 XT / 6900 XT".to_string());
    t.insert(Vendor::Amd, 0x73bf, Some((0x1da2, 0xe438)), "Radeon RX 6800 XT".to_string());
    t
}

fn show(d: &PciDevice) -> (Vendor, u8, String, String) {
    (d.vendor, d.bus, d.address.clone(), d.name.clone())
}

#[test]
fn amd_gpu_without_names() {
    let g = gpu_from_uevent("0000:03:00.0", AMD_UEVENT, None).unwrap();
    assert_eq!(show(&g), (Vendor::Amd, 3, "0000:03:00.0".to_string(), "AMD GPU".to_string()));
}

#[test]
fn amd_gpu_named_by_subsystem() {
    let t = names();
    let g = gpu_from_uevent("0000:03:00.0", AMD_UEVENT, Some(&t)).unwrap();
    assert_eq!(g.name, "AMD Radeon RX 6800 XT");
}

#[test]
fn amd_gpu_named_by_device_when_subsystem_unknown() {
    let t = names();
    let u = AMD_UEVENT.replace("1DA2:E438", "1002:0E3A");
    let g = gpu_from_uevent("0000:03:00.0", &u, Some(&t)).unwrap();
    assert_eq!(g.name, "AMD Radeon RX 6800/6800 XT / 6900 XT");
}

#[test]
fn integrated_gpu_on_bus_zero() {
    let u = "DRIVER=amdgpu\nPCI_ID=1002:164E\nPCI_SUBSYS_ID=1043:8877\n";
    let g = gpu_from_uevent("0000:00:08.0", u, None).unwrap();
    assert_eq!(show(&g), (Vendor::Amd, 0, "0000:00:08.0".to_string(), "AMD iGPU".to_string()));
}

#[test]
fn nvidia_and_xe_drivers() {
    let n = gpu_from_uevent("0000:01:00.0", "DRIVER=nvidia\nPCI_ID=10DE:2684\nPCI_SUBSYS_ID=10DE:16F3", None)
        .unwrap();
    assert_eq!(show(&n), (Vendor::Nvidia, 1, "0000:01:00.0".to_string(), "NVIDIA GPU".to_string()));
    let x = gpu_from_uevent("0000:04:00.0", "DRIVER=xe\nPCI_ID=8086:E20B\nPCI_SUBSYS_ID=8086:1100\n", None)
        .unwrap();
    assert_eq!(x.vendor, Vendor::Intel);
}

#[test]
fn i915_only_for_arc_devices() {
    let arc = "DRIVER=i915\nPCI_ID=8086:56A0\nPCI_SUBSYS_ID=8086:1020\n";
    assert!(sysfs_entry_is_valid("0000:05:00.0", arc));
    assert_eq!(gpu_from_uevent("0000:05:00.0", arc, None).unwrap().name, "Intel GPU");
    let battlemage = "DRIVER=i915\nPCI_ID=8086:E20B\nPCI_SUBSYS_ID=8086:1100\n";
    assert!(gpu_from_uevent("0000:05:00.0", battlemage, None).is_some());
    let igpu = "DRIVER=i915\nPCI_ID=8086:4680\nPCI_SUBSYS_ID=1043:8694\n";
    assert!(sysfs_entry_is_valid("0000:00:02.0", igpu));
    assert!(gpu_from_uevent("0000:00:02.0", igpu, None).is_none());
    let lowercase = "DRIVER=i915\nPCI_ID=8086:e20b\nPCI_SUBSYS_ID=8086:1100\n";
    assert!(gpu_from_uevent("0000:05:00.0", lowercase, None).is_none());
}

#[test]
fn not_a_gpu() {
    assert!(gpu_from_uevent("0000:00:14.0", "DRIVER=xhci_hcd\nPCI_ID=8086:7AE0\nPCI_SUBSYS_ID=1043:8882\n", None)
        .is_none());
    assert!(gpu_from_uevent("0000:03:00.0", "DRIVER=amdgpu\nPCI_ID=1002:73BF\n", None).is_none());
    assert!(gpu_from_uevent("0000:03:00.0", "", None).is_none());
}

#[test]
fn last_value_wins_and_crlf_lines() {
    let u = "DRIVER=nvidia\r\nPCI_ID=1002:73BF\r\nDRIVER=amdgpu\r\nPCI_SUBSYS_ID=1DA2:E438\r\n";
    let g = gpu_from_uevent("0000:03:00.0", u, None).unwrap();
    assert_eq!(g.vendor, Vendor::Amd);
    let bare_cr = "PCI_ID=1002:73BF\nPCI_SUBSYS_ID=1DA2:E438\nDRIVER=amdgpu\r";
    assert!(gpu_from_uevent("0000:03:00.0", bare_cr, None).is_none());
}

#[test]
fn entries_that_cannot_be_examined() {
    assert!(!sysfs_entry_is_valid("0000:05:00.0", "DRIVER=i915\nPCI_ID=8086\nPCI_SUBSYS_ID=8086:1020\n"));
    assert!(!sysfs_entry_is_valid("0000:05:00.0", "DRIVER=i915\nPCI_ID=8086:5€\nPCI_SUBSYS_ID=8086:1020\n"));
    assert!(!sysfs_entry_is_valid("card0", AMD_UEVENT));
    assert!(!sysfs_entry_is_valid("0000:03:00.0", "DRIVER=amdgpu\nPCI_ID=1002\nPCI_SUBSYS_ID=1DA2:E438\n"));
    assert!(!sysfs_entry_is_valid("0000:03:00.0", "DRIVER=amdgpu\nPCI_ID=1002:73BF\nPCI_SUBSYS_ID=x\n"));
    assert!(sysfs_entry_is_valid("card0", "DRIVER=xhci_hcd\nPCI_ID=8086\nPCI_SUBSYS_ID=x\n"));
    assert!(sysfs_entry_is_valid("0000:03:00.0", AMD_UEVENT));
}

#[test]
fn gpu_list_keeps_order_and_skips_other_devices() {
    let devices = vec![
        entry("0000:00:00.0", "DRIVER=amd_iommu\nPCI_ID=1022:14D8\nPCI_SUBSYS_ID=1022:14D8\n"),
        entry("0000:03:00.0", AMD_UEVENT),
        entry("0000:01:00.0", "DRIVER=nvidia\nPCI_ID=10DE:2684\nPCI_SUBSYS_ID=10DE:16F3\n"),
    ];
    let t = names();
    let gpus = get_gpu_list(&devices, Some(&t));
    let shown: Vec<_> = gpus.iter().map(show).collect();
    assert_eq!(
        shown,
        vec![
            (Vendor::Amd, 3, "0000:03:00.0".to_string(), "AMD Radeon RX 6800 XT".to_string()),
            (Vendor::Nvidia, 1, "0000:01:00.0".to_string(), "NVIDIA GPU".to_string()),
        ]
    );
    assert!(get_gpu_list(&vec![], None).is_empty());
}

#[test]
fn names_read_after_write() {
    let mut t = DeviceNames::new();
    assert_eq!(t.get(Vendor::Amd, 1, None), None);
    t.insert(Vendor::Amd, 1, None, "first".to_string());
    t.insert(Vendor::Amd, 1, Some((2, 3)), "with subsystem".to_string());
    t.insert(Vendor::Amd, 1, None, "second".to_string());
    assert_eq!(t.get(Vendor::Amd, 1, None).map(|s| s.as_str()), Some("second"));
    assert_eq!(t.get(Vendor::Amd, 1, Some((2, 3))).map(|s| s.as_str()), Some("with subsystem"));
    assert_eq!(t.get(Vendor::Nvidia, 1, None), None);
    assert_eq!(t.get(Vendor::Amd, 1, Some((2, 4))), None);
}
