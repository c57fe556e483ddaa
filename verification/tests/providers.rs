use disk_serial_number::linux::LinuxProvider;
use disk_serial_number::macos::{
    derive_physical_disk_id, detail_disk, parse_detail_output, unique_physical_disk_ids,
    MacosProvider,
};
use disk_serial_number::windows::{classify_removable, DiskDriveRow, WindowsProvider};
use disk_serial_number::{get_all_disks, normalize_field, DiskSource, ProviderError, ToolOutput};

fn ok_output(stdout: &str) -> Result<ToolOutput, String> {
    Ok(ToolOutput { success: true, stdout: stdout.to_string(), stderr: String::new() })
}

fn failed_output(stderr: &str) -> Result<ToolOutput, String> {
    Ok(ToolOutput { success: false, stdout: String::new(), stderr: stderr.to_string() })
}

#[test]
fn normalize_blank_and_kept() {
    assert_eq!(normalize_field(None), None);
    assert_eq!(normalize_field(Some(String::new())), None);
    assert_eq!(normalize_field(Some("   \t ".to_string())), None);
    assert_eq!(normalize_field(Some("WDC WD10 ".to_string())), Some("WDC WD10 ".to_string()));
}

#[test]
fn linux_end_to_end_filters_and_blanks() {
    let json = r#"{"blockdevices":[{"name":"sda","model":"WDC WD10 ","serial":"","type":"disk"},{"name":"sda1","model":null,"serial":null,"type":"part"}]}"#;
    let disks = LinuxProvider::get_all_disks(ok_output(json)).unwrap();
    assert_eq!(disks.len(), 1);
    assert_eq!(disks[0].name, "sda");
    assert_eq!(disks[0].model, Some("WDC WD10 ".to_string()));
    assert_eq!(disks[0].serial_number, None);
    assert_eq!(disks[0].removable, None);
}

#[test]
fn linux_mixed_types_keeps_only_disks() {
    let json = r#"{"blockdevices":[
        {"name":"loop0","model":null,"serial":null,"type":"loop"},
        {"name":"sda","model":"  ","serial":"S1","type":"disk"},
        {"name":"sdb","model":"M2","serial":"  ","type":"disk"},
        {"name":"sdb1","model":"M2","serial":"S2","type":"part"}]}"#;
    let disks = LinuxProvider::get_all_disks(ok_output(json)).unwrap();
    assert_eq!(disks.len(), 2);
    assert_eq!(disks[0].name, "sda");
    assert_eq!(disks[0].model, None);
    assert_eq!(disks[0].serial_number, Some("S1".to_string()));
    assert_eq!(disks[1].name, "sdb");
    assert_eq!(disks[1].model, Some("M2".to_string()));
    assert_eq!(disks[1].serial_number, None);
}

#[test]
fn linux_invocation_failure_is_command_failed() {
    let r = LinuxProvider::get_all_disks(Err("cannot start tool".to_string()));
    assert!(matches!(r, Err(ProviderError::CommandFailed(m)) if m == "cannot start tool"));
}

#[test]
fn linux_nonzero_exit_carries_stderr_verbatim() {
    let r = LinuxProvider::get_all_disks(failed_output("boom: not permitted\n"));
    assert!(matches!(r, Err(ProviderError::CommandUnsuccessful(m)) if m == "boom: not permitted\n"));
}

#[test]
fn linux_malformed_json_is_json_error() {
    let r = LinuxProvider::get_all_disks(ok_output("{not json"));
    assert!(matches!(r, Err(ProviderError::JsonError(_))));
}

#[test]
fn linux_schema_mismatch_is_json_error() {
    let r = LinuxProvider::get_all_disks(ok_output(r#"{"blockdevices":7}"#));
    assert!(matches!(r, Err(ProviderError::JsonError(_))));
    let r = LinuxProvider::get_all_disks(ok_output(r#"{"blockdevices":[{"model":"M"}]}"#));
    assert!(matches!(r, Err(ProviderError::JsonError(_))));
}

#[test]
fn derive_identifier_many_to_one() {
    assert_eq!(derive_physical_disk_id("disk3s1"), Some("disk3".to_string()));
    assert_eq!(derive_physical_disk_id("disk3s2"), Some("disk3".to_string()));
    assert_eq!(derive_physical_disk_id("disk3"), Some("disk3".to_string()));
    assert_eq!(derive_physical_disk_id("disk12s10"), Some("disk12".to_string()));
}

#[test]
fn derive_identifier_rejects_other_shapes() {
    assert_eq!(derive_physical_disk_id("hd0"), None);
    assert_eq!(derive_physical_disk_id("disk"), None);
    assert_eq!(derive_physical_disk_id("diskXs1"), None);
    assert_eq!(derive_physical_disk_id(""), None);
}

#[test]
fn dedup_collapses_same_physical_disk() {
    let volumes = vec![
        "disk3s1".to_string(),
        "disk3s2".to_string(),
        "disk4".to_string(),
        "cdrom".to_string(),
    ];
    let ids = unique_physical_disk_ids(&volumes);
    assert_eq!(ids, vec!["disk3".to_string(), "disk4".to_string()]);
}

#[test]
fn detail_blank_value_does_not_overwrite() {
    let text = "Media Name: Foo Disk\nMedia Name:   \nSerial Number: ABC\nSerial Number:  XYZ \n";
    let fields = parse_detail_output(text);
    assert_eq!(fields.model, Some("Foo Disk".to_string()));
    assert_eq!(fields.serial, Some("XYZ".to_string()));
}

#[test]
fn detail_uuid_substitutes_overwrite_in_order() {
    let text = "Partition UUID: P-1\nVolume UUID: V-2\n";
    let fields = parse_detail_output(text);
    assert_eq!(fields.serial, Some("V-2".to_string()));
    assert_eq!(fields.model, None);
}

#[test]
fn detail_lines_without_colon_or_unknown_keys_ignored() {
    let text = "no colon here\nSomething Else: value\nMedia Name: M\n";
    let fields = parse_detail_output(text);
    assert_eq!(fields.model, Some("M".to_string()));
    assert_eq!(fields.serial, None);
}

#[test]
fn disk_without_model_is_dropped() {
    let out = ok_output("Serial Number: ABC\nVolume UUID: V-1\n");
    assert!(detail_disk("disk3".to_string(), out).is_none());
}

#[test]
fn disk_with_model_is_kept() {
    let out = ok_output("Media Name: Foo\nSerial Number: ABC\n");
    let d = detail_disk("disk3".to_string(), out).unwrap();
    assert_eq!(d.name, "disk3");
    assert_eq!(d.model, Some("Foo".to_string()));
    assert_eq!(d.serial_number, Some("ABC".to_string()));
    assert_eq!(d.removable, None);
}

#[test]
fn detail_failure_skips_disk() {
    assert!(detail_disk("disk3".to_string(), failed_output("bad disk")).is_none());
    assert!(detail_disk("disk3".to_string(), Err("cannot start".to_string())).is_none());
}

#[test]
fn macos_bus_category_end_to_end() {
    let json = r#"{"SPNVMeDataType":[{"_name":"NVMExpress","_items":[
        {"_name":"Apple SSD","bsd_name":"disk0","device_model":"APPLE SSD","device_serial":"C02ABC","removable_media":"no"}]}],
        "SPSerialATADataType":[]}"#;
    let disks = MacosProvider::get_all_disks(ok_output(json)).unwrap();
    assert_eq!(disks.len(), 1);
    assert_eq!(disks[0].name, "disk0");
    assert_eq!(disks[0].model, Some("APPLE SSD".to_string()));
    assert_eq!(disks[0].serial_number, Some("C02ABC".to_string()));
    assert_eq!(disks[0].removable, Some(false));
}

#[test]
fn macos_trims_fields_and_detects_removable() {
    let json = r#"{"SPNVMeDataType":[],"SPSerialATADataType":[{"_name":"SATA","_items":[
        {"_name":"X","bsd_name":" disk1 ","device_model":" M ","device_serial":" S ","removable_media":"yes"}]}]}"#;
    let disks = MacosProvider::get_all_disks(ok_output(json)).unwrap();
    assert_eq!(disks.len(), 1);
    assert_eq!(disks[0].name, "disk1");
    assert_eq!(disks[0].model, Some("M".to_string()));
    assert_eq!(disks[0].serial_number, Some("S".to_string()));
    assert_eq!(disks[0].removable, Some(true));
}

#[test]
fn macos_nonzero_exit_carries_stderr_verbatim() {
    let r = MacosProvider::get_all_disks(failed_output("profiler failed"));
    assert!(matches!(r, Err(ProviderError::CommandUnsuccessful(m)) if m == "profiler failed"));
}

#[test]
fn macos_missing_category_is_json_error() {
    let r = MacosProvider::get_all_disks(ok_output(r#"{"SPNVMeDataType":[]}"#));
    assert!(matches!(r, Err(ProviderError::JsonError(_))));
}

#[test]
fn macos_volume_plan_end_to_end() {
    let json = r#"{"SPStorageDataType":[
        {"_name":"Data","bsd_name":"disk3s1"},
        {"_name":"System","bsd_name":"disk3s2"},
        {"_name":"Ext","bsd_name":"disk4"},
        {"_name":"NoName"}]}"#;
    let ids = MacosProvider::volume_disk_ids(ok_output(json)).unwrap();
    assert_eq!(ids, vec!["disk3".to_string(), "disk4".to_string()]);
}

#[test]
fn macos_volume_plan_failure_classification() {
    let r = MacosProvider::volume_disk_ids(Err("no tool".to_string()));
    assert!(matches!(r, Err(ProviderError::CommandFailed(m)) if m == "no tool"));
    let r = MacosProvider::volume_disk_ids(failed_output("err text"));
    assert!(matches!(r, Err(ProviderError::CommandUnsuccessful(m)) if m == "err text"));
    let r = MacosProvider::volume_disk_ids(ok_output("["));
    assert!(matches!(r, Err(ProviderError::JsonError(_))));
}

#[test]
fn windows_removable_classification() {
    assert_eq!(classify_removable(&Some("External hard disk media".to_string())), Some(true));
    assert_eq!(classify_removable(&Some("EXTERNAL Hard Disk MEDIA".to_string())), Some(true));
    assert_eq!(classify_removable(&Some("Removable media".to_string())), Some(true));
    assert_eq!(classify_removable(&Some("Fixed hard disk media".to_string())), Some(false));
    assert_eq!(classify_removable(&Some("   ".to_string())), None);
    assert_eq!(classify_removable(&None), None);
}

#[test]
fn windows_rows_map_to_records() {
    let rows = vec![
        DiskDriveRow {
            device_id: "\\\\.\\PHYSICALDRIVE0".to_string(),
            model: "Samsung SSD".to_string(),
            serial_number: Some("  ".to_string()),
            media_type: Some("Fixed hard disk media".to_string()),
        },
        DiskDriveRow {
            device_id: "\\\\.\\PHYSICALDRIVE1".to_string(),
            model: "USB Drive".to_string(),
            serial_number: Some("ZZ9".to_string()),
            media_type: None,
        },
    ];
    let disks = WindowsProvider::get_all_disks(Ok(rows)).unwrap();
    assert_eq!(disks.len(), 2);
    assert_eq!(disks[0].name, "\\\\.\\PHYSICALDRIVE0");
    assert_eq!(disks[0].model, Some("Samsung SSD".to_string()));
    assert_eq!(disks[0].serial_number, None);
    assert_eq!(disks[0].removable, Some(false));
    assert_eq!(disks[1].serial_number, Some("ZZ9".to_string()));
    assert_eq!(disks[1].removable, None);
}

#[test]
fn windows_instrumentation_failure_is_wmi_error() {
    let r = WindowsProvider::get_all_disks(Err("COM init failed".to_string()));
    assert!(matches!(r, Err(ProviderError::WmiError(m)) if m == "COM init failed"));
}

#[test]
fn facade_dispatches_per_source() {
    let r = get_all_disks(DiskSource::Linux(failed_output("lsblk err")));
    assert!(matches!(r, Err(ProviderError::CommandUnsuccessful(m)) if m == "lsblk err"));
    let r = get_all_disks(DiskSource::Macos(failed_output("profiler err")));
    assert!(matches!(r, Err(ProviderError::CommandUnsuccessful(m)) if m == "profiler err"));
    let r = get_all_disks(DiskSource::Windows(Err("wmi err".to_string())));
    assert!(matches!(r, Err(ProviderError::WmiError(m)) if m == "wmi err"));
    let r = get_all_disks(DiskSource::Linux(ok_output(r#"{"blockdevices":[]}"#))).unwrap();
    assert!(r.is_empty());
}
