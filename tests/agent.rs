use sit_core::endpoint::{Config, ConfigError, Licenses, Server};
use sit_core::license::License;
use sit_core::scheduler::{Job, Scheduler};

const UUID: u128 = 0x67e5504410b1426f9247bb680e5fe0c8;

#[test]
fn uuid_text_is_hyphenated_lower_case() {
    assert_eq!(Config::set_uuid(UUID), "67e55044-10b1-426f-9247-bb680e5fe0c8");
    assert_eq!(Config::set_uuid(0), "00000000-0000-0000-0000-000000000000");
}

#[test]
fn stored_uuid_is_parsed() {
    assert_eq!(Config::get_uuid(&None), Ok(None));
    assert_eq!(Config::get_uuid(&Some("67e55044-10b1-426f-9247-bb680e5fe0c8".to_string())), Ok(Some(UUID)));
    assert_eq!(Config::get_uuid(&Some("not a uuid".to_string())), Err(ConfigError::InvalidUuid));
}

#[test]
fn report_routes_need_registration() {
    let unregistered = Server { web_api: "https://inv.example".to_string(), uuid: None };
    assert_eq!(unregistered.register(), "https://inv.example/api/v1/register");
    assert_eq!(unregistered.os(), None);
    assert_eq!(unregistered.tasks(), None);
    let s = Server { web_api: "https://inv.example".to_string(), uuid: Some(UUID) };
    assert_eq!(s.os().unwrap(), "https://inv.example/api/v1/os/67e55044-10b1-426f-9247-bb680e5fe0c8");
    assert_eq!(s.hardware().unwrap(), "https://inv.example/api/v2/hardware/67e55044-10b1-426f-9247-bb680e5fe0c8");
    assert_eq!(s.software().unwrap(), "https://inv.example/api/v1/software/67e55044-10b1-426f-9247-bb680e5fe0c8");
    assert_eq!(s.profiles().unwrap(), "https://inv.example/api/v1/profiles/67e55044-10b1-426f-9247-bb680e5fe0c8");
    assert_eq!(s.licenses().unwrap(), "https://inv.example/api/v1/licenses/67e55044-10b1-426f-9247-bb680e5fe0c8");
    assert_eq!(
        s.status_volumes().unwrap(),
        "https://inv.example/api/v1/status/67e55044-10b1-426f-9247-bb680e5fe0c8/volumes"
    );
    assert_eq!(
        s.battery_status().unwrap(),
        "https://inv.example/api/v1/status/67e55044-10b1-426f-9247-bb680e5fe0c8/battery"
    );
    assert_eq!(s.tasks().unwrap(), "https://inv.example/api/v1/tasks/67e55044-10b1-426f-9247-bb680e5fe0c8");
}

#[test]
fn license_bundle_holds_windows_key() {
    let key = License { name: "Windows 11 Pro".to_string(), key: "NPPR9-FWDCX-D2C8J-H872K-2YT43".to_string() };
    let b = Licenses::collect_licenses(key.clone());
    assert_eq!(b.licenses, vec![key]);
}

#[test]
fn cadences_fire_on_their_seconds() {
    // 1_700_000_100 is minute 28_333_335 (divisible by 5), second 0
    let base: u64 = 1_700_000_100;
    let mut sch = Scheduler::new();
    let d = sch.tick(base, false);
    assert_eq!(d.jobs, vec![Job::BaseInfo]);
    assert!(d.keep_running);
    assert!(sch.tick(base + 9, false).jobs.is_empty());
    assert_eq!(sch.tick(base + 10, false).jobs, vec![Job::RunTasks]);
    assert_eq!(sch.tick(base + 25, false).jobs, vec![Job::FetchTasks]);
    assert_eq!(sch.tick(base + 41, false).jobs, vec![Job::RichInfo]);
    // a late tick still covers the seconds it missed
    assert_eq!(sch.tick(base + 70, false).jobs, vec![Job::BaseInfo, Job::RunTasks]);
    // the rich cadence skips minutes that are not a multiple of five
    assert!(!sch.tick(base + 120, false).jobs.contains(&Job::RichInfo));
    assert!(sch.tick(base + 100, false).jobs.is_empty());
}

#[test]
fn shutdown_stops_after_current_tick() {
    let base: u64 = 1_700_000_100;
    let mut sch = Scheduler::new();
    let d = sch.tick(base, true);
    assert_eq!(d.jobs, vec![Job::BaseInfo]);
    assert!(!d.keep_running);
    let after = sch.tick(base + 60, false);
    assert!(after.jobs.is_empty());
    assert!(!after.keep_running);
}
