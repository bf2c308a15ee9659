use fmreport::accum::DeviceHashEnt;
use fmreport::device_hash::{process_dev_event, AggregateError, DeviceHash};
use fmreport::event::{Detector, Ereport};
use fmreport::Config;

fn ereport(class: &str, device_path: &str, secs: i64) -> Ereport {
    Ereport {
        class: String::from(class),
        detector: Detector {
            scheme: String::from("dev"),
            device_path: Some(String::from(device_path)),
        },
        tod: vec![secs, 0],
    }
}

#[test]
fn two_classes_one_device() {
    let mut map = DeviceHash::new();
    let path = "/pci@0/disk@1";
    process_dev_event(&mut map, path, ereport("ereport.io.disk", path, 100)).unwrap();
    process_dev_event(&mut map, path, ereport("ereport.io.pci", path, 200)).unwrap();
    assert_eq!(map.len(), 1);
    let ent = map.get(path).unwrap();
    assert_eq!(ent.ereport_class_hash.get("ereport.io.disk"), Some(1));
    assert_eq!(ent.ereport_class_hash.get("ereport.io.pci"), Some(1));
    assert_eq!(ent.ereports.len(), 2);
}

#[test]
fn same_day_single_bucket() {
    let mut map = DeviceHash::new();
    let path = "/pci@0/disk@1";
    process_dev_event(&mut map, path, ereport("ereport.io.disk", path, 100)).unwrap();
    process_dev_event(&mut map, path, ereport("ereport.io.disk", path, 50000)).unwrap();
    let ent = map.get(path).unwrap();
    assert_eq!(ent.ereports_ts, vec![String::from("1970-01-01")]);
    assert_eq!(ent.ereport_ts_hash.get("1970-01-01"), Some(2));
    assert_eq!(ent.ereports.len(), 2);
}

#[test]
fn different_days_two_buckets_in_order() {
    let mut map = DeviceHash::new();
    let path = "/pci@0/disk@1";
    process_dev_event(&mut map, path, ereport("ereport.io.disk", path, 86400 + 5)).unwrap();
    process_dev_event(&mut map, path, ereport("ereport.io.disk", path, 5)).unwrap();
    let ent = map.get(path).unwrap();
    assert_eq!(
        ent.ereports_ts,
        vec![String::from("1970-01-02"), String::from("1970-01-01")]
    );
    assert_eq!(ent.ereport_ts_hash.get("1970-01-02"), Some(1));
    assert_eq!(ent.ereport_ts_hash.get("1970-01-01"), Some(1));
}

#[test]
fn class_count_accumulates() {
    let mut map = DeviceHash::new();
    let path = "/pci@0,600000";
    for i in 0..3 {
        process_dev_event(&mut map, path, ereport("ereport.io.pci.fabric", path, 100 + i)).unwrap();
    }
    let ent = map.get(path).unwrap();
    assert_eq!(ent.ereport_class_hash.get("ereport.io.pci.fabric"), Some(3));
    assert_eq!(ent.ereports.len(), 3);
}

#[test]
fn single_event_full_accumulator() {
    let mut map = DeviceHash::new();
    let path = "/pci@0/disk@7";
    process_dev_event(&mut map, path, ereport("ereport.io.disk", path, 0)).unwrap();
    let ent = map.get(path).unwrap();
    assert_eq!(ent.ereports.len(), 1);
    assert_eq!(ent.ereport_class_hash.entries.len(), 1);
    assert_eq!(ent.ereport_ts_hash.entries.len(), 1);
    assert_eq!(ent.ereports_ts.len(), 1);
}

#[test]
fn devices_kept_in_first_seen_order() {
    let mut map = DeviceHash::new();
    process_dev_event(&mut map, "/pci@1", ereport("ereport.io.pci", "/pci@1", 0)).unwrap();
    process_dev_event(&mut map, "/pci@0", ereport("ereport.io.pci", "/pci@0", 0)).unwrap();
    assert_eq!(map.len(), 2);
    assert_eq!(map.entry_at(0).0, String::from("/pci@1"));
    assert_eq!(map.entry_at(1).0, String::from("/pci@0"));
}

#[test]
fn empty_time_of_day_is_fatal() {
    let mut map = DeviceHash::new();
    let mut ev = ereport("ereport.io.disk", "/pci@0/disk@1", 0);
    ev.tod = vec![];
    let r = process_dev_event(&mut map, "/pci@0/disk@1", ev);
    assert_eq!(r, Err(AggregateError::EmptyTimeOfDay));
    assert_eq!(map.len(), 0);
}

#[test]
fn unrepresentable_time_is_fatal() {
    let mut map = DeviceHash::new();
    let r = process_dev_event(&mut map, "/pci@0", ereport("ereport.io.pci", "/pci@0", i64::MAX));
    assert_eq!(r, Err(AggregateError::TimestampOutOfRange));
    assert_eq!(map.len(), 0);
}

#[test]
fn missing_device_returns_none() {
    let mut map = DeviceHash::new();
    process_dev_event(&mut map, "/pci@0", ereport("ereport.io.pci", "/pci@0", 0)).unwrap();
    assert!(map.get("/pci@1").is_none());
}

#[test]
fn unknown_day_key_returns_none() {
    let mut map = DeviceHash::new();
    process_dev_event(&mut map, "/pci@0", ereport("ereport.io.pci", "/pci@0", 0)).unwrap();
    let ent = map.get("/pci@0").unwrap();
    assert_eq!(ent.ereport_ts_hash.get("2099-01-01"), None);
}

#[test]
fn fresh_accumulator_is_fully_seeded() {
    let ent = DeviceHashEnt::new(
        ereport("ereport.io.disk", "/pci@0/disk@1", 0),
        String::from("1970-01-01"),
    );
    assert_eq!(ent.ereports.len(), 1);
    assert_eq!(ent.ereport_class_hash.get("ereport.io.disk"), Some(1));
    assert_eq!(ent.ereport_ts_hash.get("1970-01-01"), Some(1));
    assert_eq!(ent.ereports_ts, vec![String::from("1970-01-01")]);
}

#[test]
fn config_holds_paths() {
    let c = Config::new(String::from("/var/fm/fmd/errlog.json"), Some(String::from("hw.json")));
    assert_eq!(c.fmlog_path, "/var/fm/fmd/errlog.json");
    assert_eq!(c.hwgrok_path, Some(String::from("hw.json")));
    let c2 = Config::new(String::from("log"), None);
    assert_eq!(c2.hwgrok_path, None);
}
