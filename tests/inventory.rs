use sit_core::identity::split_identity;
use sit_core::license::{plan_license_keys, License, LicenseKey};
use sit_core::hardware::{plan_graphics_cards, Battery, GraphicsCard, Hardware, StoredGraphicsCard};
use sit_core::reconcile::plan_reconciliation;
use sit_core::registry::{EndpointRegistry, Register, WinOsInfo};
use sit_core::software::{Software, SoftwareCatalog, SoftwareEntry, SoftwareLibrary, SoftwareList};
use sit_core::system_status::{SystemStatus, VolumeProbe};
use sit_core::ms_magic::{resolve_profile_health_status, resolve_profile_status};

fn s(x: &str) -> String {
    x.to_string()
}

#[test]
fn identity_split_on_backslash() {
    let r = split_identity(&Some(s("CORP\\jdoe")), &None);
    assert_eq!(r.username, Some(s("jdoe")));
    assert_eq!(r.domain, Some(s("CORP")));
    let r = split_identity(&Some(s("jdoe")), &None);
    assert_eq!(r.username, Some(s("jdoe")));
    assert_eq!(r.domain, None);
}

#[test]
fn identity_split_uses_first_backslash_only() {
    let r = split_identity(&Some(s("A\\b\\c")), &None);
    assert_eq!(r.username, Some(s("b\\c")));
    assert_eq!(r.domain, Some(s("A")));
    let r = split_identity(&Some(s("CORP\\jdoe")), &Some(s("OTHER")));
    assert_eq!(r.username, Some(s("CORP\\jdoe")));
    assert_eq!(r.domain, Some(s("OTHER")));
    let r = split_identity(&None, &Some(s("CORP")));
    assert_eq!(r.username, None);
    assert_eq!(r.domain, Some(s("CORP")));
}

#[test]
fn software_reference_dedup() {
    let mut c = SoftwareCatalog::new();
    let a = c.resolve_software_version(&s("Acme Tool"), &s("1.0"), &Some(s("Acme Inc"))).unwrap();
    let b = c.resolve_software_version(&s("Acme Tool"), &s("1.0"), &Some(s("Acme Inc"))).unwrap();
    assert_eq!(a, b);
    assert_eq!(c.infos().len(), 1);
    assert_eq!(c.versions().len(), 1);
    let v2 = c.resolve_software_version(&s("Acme Tool"), &s("2.0"), &Some(s("Acme Inc"))).unwrap();
    assert_ne!(v2, a);
    assert_eq!(c.infos().len(), 1);
    assert_eq!(c.versions().len(), 2);
}

#[test]
fn missing_publisher_is_empty_publisher() {
    let mut c = SoftwareCatalog::new();
    let a = c.resolve_software_version(&s("Tool"), &s("1"), &None).unwrap();
    let b = c.resolve_software_version(&s("Tool"), &s("1"), &Some(s(""))).unwrap();
    assert_eq!(a, b);
    assert_eq!(c.infos()[0].publisher, "");
}

#[test]
fn software_snapshot_replaces_presence_of_one_endpoint() {
    let mut c = SoftwareCatalog::new();
    let entry = |n: &str, v: &str| SoftwareEntry { name: s(n), version: s(v), publisher: Some(s("Acme Inc")) };
    let ids1 = c.update_software_lib(1, &SoftwareLibrary { software: vec![entry("Acme Tool", "1.0"), entry("Editor", "3")] });
    let ids2 = c.update_software_lib(2, &SoftwareLibrary { software: vec![entry("Acme Tool", "1.0")] });
    assert_eq!(ids2[0], ids1[0]);
    let ids3 = c.update_software_lib(1, &SoftwareLibrary { software: vec![entry("Editor", "3")] });
    assert_eq!(ids3, vec![ids1[1]]);
    assert_eq!(
        c.presence().clone(),
        vec![SoftwareList { client_id: 2, version_id: ids1[0] }, SoftwareList { client_id: 1, version_id: ids1[1] }]
    );
    assert_eq!(c.versions().len(), 2);
}

#[test]
fn register_then_reregister_keeps_endpoint() {
    let mut reg = EndpointRegistry::new();
    let first = reg.register(&Register { name: s("PC-01"), uuid: None }).unwrap();
    assert_eq!(first.name, "PC-01");
    let uuid = first.uuid.unwrap();
    assert_eq!((uuid >> 76) & 0xf, 4);
    let again = reg.register(&Register { name: s("PC-01-renamed"), uuid: Some(uuid) }).unwrap();
    assert_eq!(again.uuid, Some(uuid));
    assert_eq!(again.name, "PC-01-renamed");
    assert_eq!(reg.clients().len(), 1);
    assert_eq!(reg.get_client(uuid), Some(1));
    assert_eq!(reg.os_infos()[0].computer_name, "PC-01-renamed");
}

#[test]
fn register_with_new_uuid_creates_endpoint() {
    let mut reg = EndpointRegistry::new();
    reg.register(&Register { name: s("A"), uuid: Some(1) }).unwrap();
    let r = reg.register(&Register { name: s("B"), uuid: Some(2) }).unwrap();
    assert_eq!(r.uuid, Some(2));
    assert_eq!(reg.get_client(2), Some(2));
    assert_eq!(reg.get_client(3), None);
    let info = WinOsInfo { operating_system: s("Windows 11"), os_version: s("23H2"), computer_name: s("B"), domain: s("CORP") };
    assert!(reg.update_os_info(2, &info));
    assert!(!reg.update_os_info(3, &info));
    assert_eq!(reg.os_infos()[1].os, Some(s("Windows 11")));
    assert_eq!(reg.os_infos()[0].os, None);
}

#[test]
fn reconcile_plan_diff() {
    let (a, b, c, d) = (1, 2, 3, 4);
    let p = plan_reconciliation(&vec![a, b, c], &vec![b, c, d]);
    assert_eq!(p.to_delete, vec![a]);
    assert_eq!(p.to_add, vec![d]);
    assert_eq!(p.to_update, vec![b, c]);
    let q = plan_reconciliation(&vec![c, a, b], &vec![d, c, b]);
    assert_eq!(q.to_delete, vec![a]);
    assert_eq!(q.to_add, vec![d]);
    let mut upd = q.to_update.clone();
    upd.sort();
    assert_eq!(upd, vec![b, c]);
}

#[test]
fn license_keys_diff_by_name() {
    let row = |id: i32, n: &str, k: &str| LicenseKey { id, client_id: 1, name: s(n), key: s(k) };
    let lic = |n: &str, k: &str| License { name: s(n), key: s(k) };
    let existing = vec![row(1, "Windows", "AAAA"), row(2, "Office", "BBBB"), row(3, "Old", "CCCC")];
    let incoming = vec![lic("Windows", "AAAA"), lic("Office", "ZZZZ"), lic("Visio", "DDDD")];
    let p = plan_license_keys(&existing, &incoming);
    assert_eq!(p.to_add, vec![lic("Visio", "DDDD")]);
    assert_eq!(p.to_update, vec![lic("Office", "ZZZZ")]);
    assert_eq!(p.to_delete, vec![3]);
    let same = plan_license_keys(&existing, &vec![lic("Windows", "AAAA"), lic("Office", "BBBB"), lic("Old", "CCCC")]);
    assert!(same.to_add.is_empty() && same.to_update.is_empty() && same.to_delete.is_empty());
}

#[test]
fn graphics_cards_diff_by_name() {
    let existing = vec![
        StoredGraphicsCard { id: 5, client_id: 1, name: s("Intel UHD") },
        StoredGraphicsCard { id: 6, client_id: 1, name: s("Old GPU") },
    ];
    let incoming = vec![GraphicsCard { name: s("Intel UHD") }, GraphicsCard { name: s("RTX 4060") }];
    let (add, del) = plan_graphics_cards(&existing, &incoming);
    assert_eq!(add, vec![s("RTX 4060")]);
    assert_eq!(del, vec![6]);
}

#[test]
fn battery_flag_selects_batteries() {
    let b = Battery {
        id: s("1"),
        manufacturer: s("ACME"),
        serial_number: s("42"),
        chemistry: s("LION"),
        cycle_count: 10,
        designed_capacity: 50000,
        full_charged_capacity: 48000,
    };
    assert_eq!(Hardware::get_battery_status(0b1000_0001, vec![b.clone()]).batteries, vec![b.clone()]);
    assert!(Hardware::get_battery_status(0b0000_1000, vec![b]).batteries.is_empty());
}

#[test]
fn only_complete_fixed_disks_are_reported() {
    let probe = |t: u32, letter: Option<&str>, cap: Option<u64>| VolumeProbe {
        capacity: cap,
        drive_letter: letter.map(s),
        drive_type: t,
        file_system: Some(s("NTFS")),
        free_space: Some(10),
        label: None,
    };
    let list = SystemStatus::get_volume_status(&vec![
        probe(3, Some("C:"), Some(100)),
        probe(2, Some("E:"), Some(8)),
        probe(3, None, Some(100)),
        probe(3, Some("D:"), None),
    ]);
    assert_eq!(list.volumes.len(), 1);
    assert_eq!(list.volumes[0].drive_letter, "C:");
    assert_eq!(list.volumes[0].capacity, 100);
    assert_eq!(list.volumes[0].free_space, 10);
}

#[test]
fn profile_status_labels() {
    assert_eq!(resolve_profile_health_status(0), "Gesund");
    assert_eq!(resolve_profile_health_status(1), "Ungesund");
    assert_eq!(resolve_profile_health_status(2), "Achtung");
    assert_eq!(resolve_profile_health_status(9), "");
    assert_eq!(resolve_profile_status(0b1010), vec![s("Roaming"), s("Corrupted")]);
    assert_eq!(resolve_profile_status(0b0101), vec![s("Temporary"), s("Mandatory")]);
    assert!(resolve_profile_status(0).is_empty());
}

#[test]
fn display_name_loses_trailing_version_and_blanks() {
    let e = Software::software_entry(&s("Acme Tool 1.0"), &s("1.0"), &Some(s("Acme Inc")));
    assert_eq!(e.name, "Acme Tool");
    assert_eq!(e.version, "1.0");
    assert_eq!(e.publisher, Some(s("Acme Inc")));
    let e = Software::software_entry(&s("Zip  2 2"), &s(" 2"), &None);
    assert_eq!(e.name, "Zip");
    let e = Software::software_entry(&s("Editor "), &s(""), &None);
    assert_eq!(e.name, "Editor");
}

#[test]
fn software_list_keeps_last_entry_per_name() {
    let e = |n: &str, v: &str| SoftwareEntry { name: s(n), version: s(v), publisher: None };
    let lib = Software::get_software_list(&vec![e("A", "1"), e("B", "1"), e("A", "2")]);
    assert_eq!(lib.software, vec![e("B", "1"), e("A", "2")]);
}

#[test]
fn fresh_uuid_differs_from_registered_ones() {
    let mut reg = EndpointRegistry::new();
    let a = reg.register(&Register { name: s("A"), uuid: None }).unwrap().uuid.unwrap();
    let b = reg.register(&Register { name: s("B"), uuid: None }).unwrap().uuid.unwrap();
    assert_ne!(a, b);
    assert_eq!(reg.clients().len(), 2);
}
