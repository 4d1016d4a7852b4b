use deepcool_digital::amd::{
    adl_core_clock_mhz, adl_temperature, adl_usage, card_usage_file, device_path, file_in, is_amdgpu_hwmon,
    parse_reading, select_adapter, sysfs_megaunits, sysfs_temperature, AdlAdapter, FREQ_INPUT, POWER_AVERAGE,
    TEMP_INPUT,
};

fn f32_sysfs(t: u32, fahrenheit: bool) -> u8 {
    let mut temp = t;
    if fahrenheit {
        temp = temp * 9 / 5 + 32000
    }
    (temp as f32 / 1000.0).round() as u8
}

fn f32_adl(temp: i32, fahrenheit: bool) -> u8 {
    let temp_c = (temp as f32 / 1000.0).round();
    if fahrenheit {
        (temp_c * 9.0 / 5.0 + 32.0).round() as u8
    } else {
        temp_c as u8
    }
}

#[test]
fn sysfs_paths() {
    assert_eq!(device_path("0000:03:00.0"), "/sys/bus/pci/devices/0000:03:00.0");
    assert_eq!(file_in("/sys/class/hwmon/hwmon3", TEMP_INPUT), "/sys/class/hwmon/hwmon3/temp1_input");
    assert_eq!(file_in("/h", POWER_AVERAGE), "/h/power1_average");
    assert_eq!(file_in("/h", FREQ_INPUT), "/h/freq1_input");
}

#[test]
fn card_detection() {
    let p = "/sys/bus/pci/devices/0000:03:00.0";
    assert_eq!(
        card_usage_file(p, "DRIVER=amdgpu\nPCI_CLASS=30000\n"),
        Some("/sys/bus/pci/devices/0000:03:00.0/gpu_busy_percent".to_string())
    );
    assert_eq!(card_usage_file(p, "DRIVER=amdgpu"), Some(format!("{}/gpu_busy_percent", p)));
    assert_eq!(card_usage_file(p, "DRIVER=amdgpu\r\n"), Some(format!("{}/gpu_busy_percent", p)));
    assert_eq!(card_usage_file(p, "DRIVER=nvidia\n"), None);
    assert_eq!(card_usage_file(p, "PCI_CLASS=30000\nDRIVER=amdgpu\n"), None);
    assert_eq!(card_usage_file(p, ""), None);
}

#[test]
fn hwmon_detection() {
    assert!(is_amdgpu_hwmon("amdgpu\n"));
    assert!(is_amdgpu_hwmon("amdgpu"));
    assert!(!is_amdgpu_hwmon("k10temp\n"));
    assert!(!is_amdgpu_hwmon("amdgp"));
}

#[test]
fn readings_parse_after_trimming() {
    assert_eq!(parse_reading("45000\n", u32::MAX as u64), Some(45000));
    assert_eq!(parse_reading("37\n", u8::MAX as u64), Some(37));
    assert_eq!(parse_reading("256\n", u8::MAX as u64), None);
    assert_eq!(parse_reading(" 37\n", u8::MAX as u64), None);
    assert_eq!(parse_reading("", u8::MAX as u64), None);
    assert_eq!(parse_reading("18446744073709551615\n", u64::MAX), Some(u64::MAX));
    for s in ["45000\n", "45000 \t\n", "+7\n", "\n", "x", "4294967296"] {
        assert_eq!(parse_reading(s, u32::MAX as u64), s.trim_end().parse::<u32>().ok().map(|v| v as u64));
    }
}

#[test]
fn sysfs_temperature_examples() {
    assert_eq!(sysfs_temperature(45000, false), 45);
    assert_eq!(sysfs_temperature(45499, false), 45);
    assert_eq!(sysfs_temperature(45500, false), 46);
    assert_eq!(sysfs_temperature(45000, true), 113);
    assert_eq!(sysfs_temperature(300000, false), 255);
    assert_eq!(sysfs_temperature(0, true), 32);
}

#[test]
fn sysfs_temperature_agrees_with_float_rounding() {
    for t in 0..400_000u32 {
        assert_eq!(sysfs_temperature(t, false), f32_sysfs(t, false), "{}", t);
        assert_eq!(sysfs_temperature(t, true), f32_sysfs(t, true), "{}", t);
    }
    for t in [u32::MAX / 9, u32::MAX / 9 - 1, 16_777_216, 16_777_217, 1 << 30, u32::MAX] {
        assert_eq!(sysfs_temperature(t, false), f32_sysfs(t, false), "{}", t);
        if t <= u32::MAX / 9 {
            assert_eq!(sysfs_temperature(t, true), f32_sysfs(t, true), "{}", t);
        }
    }
}

#[test]
fn sysfs_temperature_is_monotone() {
    let mut prev = (0u8, 0u8);
    for t in (0..2_000_000u32).step_by(7) {
        let now = (sysfs_temperature(t, false), sysfs_temperature(t, true));
        assert!(now.0 >= prev.0 && now.1 >= prev.1);
        prev = now;
    }
}

#[test]
fn megaunits_truncate() {
    assert_eq!(sysfs_megaunits(215_000_000), 215);
    assert_eq!(sysfs_megaunits(999_999), 0);
    assert_eq!(sysfs_megaunits(2_400_000_000), 2400);
    assert_eq!(sysfs_megaunits(65_536_000_000), 0);
    assert_eq!(sysfs_megaunits(u64::MAX), ((u64::MAX / 1_000_000) as u16));
}

#[test]
fn adl_temperature_examples() {
    assert_eq!(adl_temperature(45000, false), 45);
    assert_eq!(adl_temperature(45500, false), 46);
    assert_eq!(adl_temperature(45000, true), 113);
    assert_eq!(adl_temperature(-5000, false), 0);
    assert_eq!(adl_temperature(-5000, true), 23);
    assert_eq!(adl_temperature(-40000, true), 0);
    assert_eq!(adl_temperature(500, true), 34);
    assert_eq!(adl_temperature(i32::MAX, false), 255);
    assert_eq!(adl_temperature(i32::MIN, true), 0);
}

#[test]
fn adl_temperature_agrees_with_float_rounding() {
    for t in -400_000..400_000i32 {
        assert_eq!(adl_temperature(t, false), f32_adl(t, false), "{}", t);
        assert_eq!(adl_temperature(t, true), f32_adl(t, true), "{}", t);
    }
    for t in [i32::MIN, i32::MIN + 1, -16_777_217, 16_777_217, i32::MAX - 1, i32::MAX] {
        assert_eq!(adl_temperature(t, false), f32_adl(t, false), "{}", t);
        assert_eq!(adl_temperature(t, true), f32_adl(t, true), "{}", t);
    }
}

#[test]
fn celsius_agrees_across_backends() {
    for t in (0..1_000_000i32).step_by(13) {
        assert_eq!(adl_temperature(t, false), sysfs_temperature(t as u32, false));
    }
}

#[test]
fn adl_usage_clamps() {
    assert_eq!(adl_usage(-3), 0);
    assert_eq!(adl_usage(0), 0);
    assert_eq!(adl_usage(57), 57);
    assert_eq!(adl_usage(100), 100);
    assert_eq!(adl_usage(250), 100);
}

#[test]
fn adl_core_clock() {
    assert_eq!(adl_core_clock_mhz(2400), 2400);
    assert_eq!(adl_core_clock_mhz(10000), 10000);
    assert_eq!(adl_core_clock_mhz(240000), 2400);
    assert_eq!(adl_core_clock_mhz(10001), 100);
    assert_eq!(adl_core_clock_mhz(-1), 65535);
    assert_eq!(adl_core_clock_mhz(i32::MAX), (i32::MAX / 100) as u16);
}

#[test]
fn adapter_selection() {
    let a = |adapter_index, vendor_id, present| AdlAdapter { adapter_index, vendor_id, present };
    assert_eq!(select_adapter(&vec![]), 0);
    assert_eq!(select_adapter(&vec![a(0, 0x1002, 0), a(1, 0x10de, 1), a(2, 0x1002, 1), a(3, 0x1002, 1)]), 2);
    assert_eq!(select_adapter(&vec![a(5, 0x8086, 1)]), 0);
}
