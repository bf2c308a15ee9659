use fmreport::inventory::{
    enrich, Enrichment, HwGrok, HwGrokDisk, HwGrokDriveBays, HwGrokPciDevices,
};

fn disk(path: &str, manufacturer: &str) -> HwGrokDisk {
    HwGrokDisk {
        fmri: String::from("hc://:chassis/bay/disk"),
        manufacturer: String::from(manufacturer),
        model: String::from("Zippy 3000"),
        serial_number: String::from("S123456"),
        disk_firmware_rev: String::from("1.0"),
        disk_device_path: String::from(path),
    }
}

fn bay(label: &str, disk: Option<HwGrokDisk>) -> HwGrokDriveBays {
    HwGrokDriveBays { label: String::from(label), fmri: String::from("hc://:chassis/bay"), disk }
}

fn pci_dev(path: &str, vendor: &str) -> HwGrokPciDevices {
    HwGrokPciDevices {
        label: String::from("PCIe slot"),
        fmri: String::from("hc://:chassis/slot"),
        pci_vendor_name: String::from(vendor),
        pci_device_name: String::from("Fast NIC"),
        pci_subsystem_name: String::from("Fast NIC adapter"),
        pci_device_path: String::from(path),
    }
}

#[test]
fn disk_enrichment_found() {
    let hw = HwGrok {
        pci_devices: vec![],
        drive_bays: vec![bay("Bay 0", Some(disk("/pci@0/disk@1", "Acme")))],
    };
    match enrich("/pci@0/disk@1", &hw) {
        Some(Enrichment::Disk { location, manufacturer, .. }) => {
            assert_eq!(location, "Bay 0");
            assert_eq!(manufacturer, "Acme");
        }
        other => panic!("expected a disk record, got {:?}", other),
    }
}

#[test]
fn no_inventory_no_enrichment() {
    let hw = HwGrok::default();
    assert_eq!(enrich("/pci@0/disk@1", &hw), None);
}

#[test]
fn pci_enrichment_found() {
    let hw = HwGrok {
        pci_devices: vec![pci_dev("/pci@0,0/pci8086@1", "Fastco")],
        drive_bays: vec![],
    };
    match enrich("/pci@0,0/pci8086@1", &hw) {
        Some(Enrichment::Pci { vendor_name, device_name, subsystem_name }) => {
            assert_eq!(vendor_name, "Fastco");
            assert_eq!(device_name, "Fast NIC");
            assert_eq!(subsystem_name, "Fast NIC adapter");
        }
        other => panic!("expected a PCI record, got {:?}", other),
    }
}

#[test]
fn disk_path_only_searches_drive_bays() {
    // a disk-shaped path is never looked up among the PCI devices, even
    // when a PCI entry carries exactly that path
    let hw = HwGrok {
        pci_devices: vec![pci_dev("/pci@0/disk@1", "Fastco")],
        drive_bays: vec![],
    };
    assert_eq!(enrich("/pci@0/disk@1", &hw), None);
}

#[test]
fn unclassified_path_never_enriched() {
    let hw = HwGrok {
        pci_devices: vec![pci_dev("/usb@0", "Fastco")],
        drive_bays: vec![bay("Bay 0", Some(disk("/usb@0", "Acme")))],
    };
    assert_eq!(enrich("/usb@0", &hw), None);
}

#[test]
fn first_match_wins_on_duplicate_paths() {
    let hw = HwGrok {
        pci_devices: vec![],
        drive_bays: vec![
            bay("Bay 0", Some(disk("/pci@0/disk@1", "Acme"))),
            bay("Bay 1", Some(disk("/pci@0/disk@1", "Zenith"))),
        ],
    };
    match enrich("/pci@0/disk@1", &hw) {
        Some(Enrichment::Disk { location, manufacturer, .. }) => {
            assert_eq!(location, "Bay 0");
            assert_eq!(manufacturer, "Acme");
        }
        other => panic!("expected a disk record, got {:?}", other),
    }
}

#[test]
fn empty_bay_is_skipped() {
    let hw = HwGrok {
        pci_devices: vec![],
        drive_bays: vec![bay("Bay 0", None), bay("Bay 1", Some(disk("/pci@0/disk@1", "Acme")))],
    };
    match enrich("/pci@0/disk@1", &hw) {
        Some(Enrichment::Disk { location, .. }) => assert_eq!(location, "Bay 1"),
        other => panic!("expected a disk record, got {:?}", other),
    }
}

#[test]
fn pci_miss_yields_none() {
    let hw = HwGrok { pci_devices: vec![pci_dev("/pci@7", "Fastco")], drive_bays: vec![] };
    assert_eq!(enrich("/pci@8", &hw), None);
}
