use sit_core::inventory::{ApiError, InventoryServer};
use sit_core::license::{License, LicenseBundle, LicenseError};
use sit_core::hardware::{
    BatteryStatus, ComputerModel, Disks, GraphicsCard, HardwareInfoV2, Network, PhysicalMemory, Processor, BIOS,
};
use sit_core::system_status::{Volume, VolumeList};
use sit_core::profile::{ProfileInfo, ReconcileError, UserProfiles};
use sit_core::registry::{Register, WinOsInfo};
use sit_core::server_task::TaskUpdateError;
use sit_core::software::{SoftwareEntry, SoftwareLibrary};
use sit_core::{TaskStatus, TaskUpdate};

fn member(sid: &str) -> ProfileInfo {
    ProfileInfo {
        domain: Some("CORP".to_string()),
        username: Some("jdoe".to_string()),
        sid: sid.to_string(),
        health_status: 1,
        roaming_configured: true,
        roaming_path: Some("\\\\srv\\profiles\\jdoe".to_string()),
        roaming_preference: Some(true),
        last_use_time: 1_700_000_000,
        last_download_time: Some(1_699_000_000),
        last_upload_time: None,
        status: 2,
        size: Some(1 << 30),
        path_size: None,
    }
}

#[test]
fn unknown_endpoint_is_refused() {
    let mut srv = InventoryServer::new();
    assert_eq!(srv.get_tasks(42), Err(ApiError::UnknownEndpoint));
    assert_eq!(srv.post_profiles(42, &UserProfiles { profiles: vec![member("S-1")] }).unwrap_err(), ApiError::UnknownEndpoint);
    assert_eq!(srv.queue_profile_deletion(42, &"S-1".to_string()), Err(ApiError::UnknownEndpoint));
    let info = WinOsInfo {
        operating_system: "Windows 10".to_string(),
        os_version: "22H2".to_string(),
        computer_name: "PC".to_string(),
        domain: "CORP".to_string(),
    };
    assert_eq!(srv.post_os(42, &info), Err(ApiError::UnknownEndpoint));
    assert!(srv.profiles().users().is_empty());
}

#[test]
fn task_lifecycle_through_server() {
    let mut srv = InventoryServer::new();
    let reg = srv.register(&Register { name: "PC-7".to_string(), uuid: None }).unwrap();
    let uuid = reg.uuid.unwrap();
    let id = srv.queue_profile_deletion(uuid, &"S-1-5-21-7".to_string()).unwrap();
    let fetched = srv.get_tasks(uuid).unwrap();
    assert_eq!(fetched.len(), 1);
    assert_eq!(fetched[0].id, id);
    let up = |status| TaskUpdate { id, time_downloaded: None, task_status: status, task_result: None };
    assert_eq!(srv.post_task_update(uuid, &up(TaskStatus::Downloaded)), Ok(()));
    assert!(srv.get_tasks(uuid).unwrap().is_empty());
    assert_eq!(srv.post_task_update(uuid, &up(TaskStatus::Running)), Ok(()));
    assert_eq!(srv.post_task_update(uuid, &up(TaskStatus::Successful)), Ok(()));
    assert_eq!(
        srv.post_task_update(uuid, &up(TaskStatus::Created)),
        Err(ApiError::Task(TaskUpdateError::StatusRegression))
    );
    assert_eq!(srv.tasks().get(id).unwrap().task_status, TaskStatus::Successful);
}

#[test]
fn snapshots_go_to_the_registered_endpoint() {
    let mut srv = InventoryServer::new();
    let a = srv.register(&Register { name: "A".to_string(), uuid: Some(10) }).unwrap();
    let b = srv.register(&Register { name: "B".to_string(), uuid: Some(20) }).unwrap();
    assert_eq!(a.uuid, Some(10));
    srv.post_profiles(20, &UserProfiles { profiles: vec![member("S-1")] }).unwrap();
    let rows = srv.profiles().profiles();
    assert_eq!(rows.len(), 1);
    assert_eq!(rows[0].client_id, 2);
    assert_eq!(rows[0].roaming_path, Some("\\\\srv\\profiles\\jdoe".to_string()));
    assert_eq!(rows[0].size, Some(1 << 30));
    let dup = srv.post_profiles(b.uuid.unwrap(), &UserProfiles { profiles: vec![member("S-2"), member("S-2")] });
    assert_eq!(dup.unwrap_err(), ApiError::Snapshot(ReconcileError::DuplicateMember));
    let ids = srv
        .post_software(10, &SoftwareLibrary {
            software: vec![SoftwareEntry { name: "Acme Tool".to_string(), version: "1.0".to_string(), publisher: Some("Acme Inc".to_string()) }],
        })
        .unwrap();
    let again = srv
        .post_software(20, &SoftwareLibrary {
            software: vec![SoftwareEntry { name: "Acme Tool".to_string(), version: "1.0".to_string(), publisher: Some("Acme Inc".to_string()) }],
        })
        .unwrap();
    assert_eq!(ids, again);
    assert_eq!(srv.software().versions().len(), 1);
    assert_eq!(srv.software().presence().len(), 2);
}

#[test]
fn license_bundle_updates_by_name() {
    let lic = |n: &str, k: &str| License { name: n.to_string(), key: k.to_string() };
    let mut srv = InventoryServer::new();
    srv.register(&Register { name: "A".to_string(), uuid: Some(1) }).unwrap();
    srv.register(&Register { name: "B".to_string(), uuid: Some(2) }).unwrap();
    srv.post_licenses(2, &LicenseBundle { licenses: vec![lic("Windows", "KEY-B")] }).unwrap();
    let first = srv.post_licenses(1, &LicenseBundle { licenses: vec![lic("Windows", "K1"), lic("Office", "K2")] }).unwrap();
    assert_eq!(first.to_add.len(), 2);
    let second = srv.post_licenses(1, &LicenseBundle { licenses: vec![lic("Windows", "K1-new"), lic("Visio", "K3")] }).unwrap();
    assert_eq!(second.to_add, vec![lic("Visio", "K3")]);
    assert_eq!(second.to_update, vec![lic("Windows", "K1-new")]);
    assert_eq!(second.to_delete, vec![3]);
    let rows: Vec<(i32, i32, String, String)> =
        srv.licenses().rows().iter().map(|r| (r.id, r.client_id, r.name.clone(), r.key.clone())).collect();
    assert_eq!(
        rows,
        vec![
            (1, 2, "Windows".to_string(), "KEY-B".to_string()),
            (2, 1, "Windows".to_string(), "K1-new".to_string()),
            (4, 1, "Visio".to_string(), "K3".to_string()),
        ]
    );
    let dup = srv.post_licenses(1, &LicenseBundle { licenses: vec![lic("X", "1"), lic("X", "2")] });
    assert_eq!(dup.unwrap_err(), ApiError::Licenses(LicenseError::DuplicateName));
    assert_eq!(srv.post_licenses(9, &LicenseBundle { licenses: vec![] }).unwrap_err(), ApiError::UnknownEndpoint);
}

fn hardware(card: &str) -> HardwareInfoV2 {
    HardwareInfoV2 {
        model: ComputerModel {
            manufacturer: "Acme".to_string(),
            model_family: "Book".to_string(),
            model: "B1".to_string(),
            serial_number: "123".to_string(),
        },
        memory: PhysicalMemory { sticks: vec![] },
        processor: Processor {
            name: "CPU".to_string(),
            manufacturer: "Acme".to_string(),
            cores: 4,
            logical_cores: 8,
            clock_speed: 3000,
            address_width: 64,
        },
        disks: Disks { drives: vec![] },
        network: Network { adapter: vec![] },
        graphics: vec![GraphicsCard { name: card.to_string() }],
        bios: BIOS { manufacturer: "Acme".to_string(), name: "BIOS".to_string(), version: "1".to_string() },
    }
}

#[test]
fn reports_replace_previous_ones() {
    let mut srv = InventoryServer::new();
    srv.register(&Register { name: "A".to_string(), uuid: Some(1) }).unwrap();
    assert_eq!(srv.post_hardware(2, hardware("X")), Err(ApiError::UnknownEndpoint));
    srv.post_hardware(1, hardware("Old GPU")).unwrap();
    srv.post_hardware(1, hardware("New GPU")).unwrap();
    let h = srv.hardware().get(1).unwrap();
    assert_eq!(h.graphics, vec![GraphicsCard { name: "New GPU".to_string() }]);
    let vol = Volume { drive_letter: "C:".to_string(), label: None, file_system: "NTFS".to_string(), capacity: 100, free_space: 5 };
    srv.post_status_volumes(1, VolumeList { volumes: vec![vol.clone()] }).unwrap();
    assert_eq!(srv.volumes().get(1).unwrap().volumes, vec![vol]);
    srv.post_status_battery(1, BatteryStatus { batteries: vec![] }).unwrap();
    assert!(srv.batteries().get(1).unwrap().batteries.is_empty());
    assert!(srv.batteries().get(2).is_none());
}
