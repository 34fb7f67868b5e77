//! Text of the running machine's ME interfaces.

use intel_ma::mei::{heci_function, parse_fw_status, parse_fw_ver_lines, sort_devices, FwVer, PciDevice};

#[test]
fn fw_ver_lines_and_status() {
    let v = parse_fw_ver_lines("0:16.1.25.2049\n0:16.1.25.2049\nbogus\n0:16.0.15.1620\n");
    assert_eq!(v.len(), 3);
    assert_eq!(
        v[2],
        FwVer {
            platform: 0,
            major: 16,
            minor: 0,
            hotfix: 15,
            build: 1620
        }
    );
    assert_eq!(parse_fw_status("94000245\n09F10506\nzz\n"), vec![0x9400_0245, 0x09f1_0506]);
    assert_eq!(FwVer { major: 0, ..v[0] }.family(), "ME (major 0)");
}

#[test]
fn heci_function_filters_intel_communication_controllers() {
    let d = heci_function("0000:00:16.0".to_string(), "0x8086", "0x7e70", "0x078000").unwrap();
    assert_eq!((d.vendor, d.device, d.class), (0x8086, 0x7e70, 0x078000));
    assert_eq!(d.address, "0000:00:16.0");
    assert!(heci_function("0000:00:14.0".to_string(), "0x8086", "0x7e7d", "0x0c0330").is_none());
    assert!(heci_function("0000:01:00.0".to_string(), "0x10de", "0x1f99", "0x078000").is_none());
}

#[test]
fn heci_devices_sorted_by_address() {
    let dev = |a: &str, d: u16| PciDevice { address: a.to_string(), vendor: 0x8086, device: d, class: 0x078000 };
    let sorted = sort_devices(vec![
        dev("0000:00:16.4", 1),
        dev("0000:00:16.0", 2),
        dev("0000:00:16.1", 3),
        dev("0000:00:16.0", 4),
    ]);
    let got: Vec<(&str, u16)> = sorted.iter().map(|d| (d.address.as_str(), d.device)).collect();
    assert_eq!(got, vec![("0000:00:16.0", 2), ("0000:00:16.0", 4), ("0000:00:16.1", 3), ("0000:00:16.4", 1)]);
    assert!(sort_devices(Vec::new()).is_empty());
    // A prefix sorts first; code points compare in order.
    let s = sort_devices(vec![dev("ab", 1), dev("a", 2), dev("B", 3)]);
    let got: Vec<&str> = s.iter().map(|d| d.address.as_str()).collect();
    assert_eq!(got, vec!["B", "a", "ab"]);
}

#[test]
fn module_names_sorted_and_distinct() {
    let names: Vec<String> = ["PlatformInit", "CpuDxe", "PlatformInit", "AcpiTables", "CpuDxe", "Cpu"]
        .iter()
        .map(|s| s.to_string())
        .collect();
    let got = intel_ma::text::sorted_unique(&names);
    assert_eq!(got, vec!["AcpiTables", "Cpu", "CpuDxe", "PlatformInit"]);
    assert!(intel_ma::text::sorted_unique(&Vec::new()).is_empty());
}
