//! The hardware-inventory snapshot and the cross-referencer: given a
//! device path, look up enrichment data by path shape and exact path
//! equality, first match wins.
use vstd::prelude::*;
use crate::strutil::{spec_contains, spec_starts_with, str_contains, str_starts_with};

verus! {

/// One PCI device of the inventory snapshot.
pub struct HwGrokPciDevices {
    pub label: String,
    pub fmri: String,
    pub pci_vendor_name: String,
    pub pci_device_name: String,
    pub pci_subsystem_name: String,
    pub pci_device_path: String,
}

/// The disk seated in a drive bay.
pub struct HwGrokDisk {
    pub fmri: String,
    pub manufacturer: String,
    pub model: String,
    pub serial_number: String,
    pub disk_firmware_rev: String,
    pub disk_device_path: String,
}

/// One drive bay of the inventory snapshot, possibly empty.
pub struct HwGrokDriveBays {
    pub label: String,
    pub fmri: String,
    pub disk: Option<HwGrokDisk>,
}

/// The hardware-inventory snapshot: two independent sequences. An absent
/// snapshot is represented by the default value, with both sequences
/// empty; no match and no snapshot degrade identically to no enrichment.
pub struct HwGrok {
    pub pci_devices: Vec<HwGrokPciDevices>,
    pub drive_bays: Vec<HwGrokDriveBays>,
}

impl Default for HwGrok {
    /// The empty snapshot.
    fn default() -> (r: HwGrok)
        ensures
            r.pci_devices@.len() == 0,
            r.drive_bays@.len() == 0,
    {
        HwGrok { pci_devices: Vec::new(), drive_bays: Vec::new() }
    }
}

/// What the cross-referencer found for one device path.
#[derive(Debug, Clone, PartialEq, Eq)]
pub enum Enrichment {
    /// The device path named a disk seated in a drive bay.
    Disk {
        location: String,
        manufacturer: String,
        model: String,
        serial_number: String,
        firmware_revision: String,
    },
    /// The device path named a PCI device.
    Pci { vendor_name: String, device_name: String, subsystem_name: String },
}

/// A path that names a disk under a PCI root: it begins with "/pci" and
/// mentions "disk".
pub open spec fn spec_is_disk_path(p: Seq<char>) -> bool {
    spec_starts_with(p, "/pci"@) && spec_contains(p, "disk"@)
}

/// A path under a PCI root.
pub open spec fn spec_is_pci_path(p: Seq<char>) -> bool {
    spec_starts_with(p, "/pci"@)
}

/// The disk-flavored record for a bay's label and its disk.
pub open spec fn disk_record(label: String, d: HwGrokDisk) -> Enrichment {
    Enrichment::Disk {
        location: label,
        manufacturer: d.manufacturer,
        model: d.model,
        serial_number: d.serial_number,
        firmware_revision: d.disk_firmware_rev,
    }
}

/// The PCI-flavored record for an inventory PCI device.
pub open spec fn pci_record(dev: HwGrokPciDevices) -> Enrichment {
    Enrichment::Pci {
        vendor_name: dev.pci_vendor_name,
        device_name: dev.pci_device_name,
        subsystem_name: dev.pci_subsystem_name,
    }
}

/// The first drive bay holding a disk whose device path equals `p`
/// exactly, rendered as a disk record; scanning in sequence order.
pub open spec fn spec_find_disk(bays: Seq<HwGrokDriveBays>, p: Seq<char>) -> Option<Enrichment>
    decreases bays.len(),
{
    if bays.len() == 0 {
        None
    } else {
        match bays[0].disk {
            Some(d) => if d.disk_device_path@ == p {
                Some(disk_record(bays[0].label, d))
            } else {
                spec_find_disk(bays.drop_first(), p)
            },
            None => spec_find_disk(bays.drop_first(), p),
        }
    }
}

/// The first PCI device whose device path equals `p` exactly, rendered as
/// a PCI record; scanning in sequence order.
pub open spec fn spec_find_pci(devs: Seq<HwGrokPciDevices>, p: Seq<char>) -> Option<Enrichment>
    decreases devs.len(),
{
    if devs.len() == 0 {
        None
    } else if devs[0].pci_device_path@ == p {
        Some(pci_record(devs[0]))
    } else {
        spec_find_pci(devs.drop_first(), p)
    }
}

/// The cross-reference policy: disk-shaped paths are looked up among the
/// drive bays, other PCI paths among the PCI devices, and any other path
/// is never looked up at all.
pub open spec fn spec_enrich(
    p: Seq<char>,
    bays: Seq<HwGrokDriveBays>,
    pcis: Seq<HwGrokPciDevices>,
) -> Option<Enrichment> {
    if spec_is_disk_path(p) {
        spec_find_disk(bays, p)
    } else if spec_is_pci_path(p) {
        spec_find_pci(pcis, p)
    } else {
        None
    }
}

/// Search the drive bays for a disk with this exact device path.
fn find_disk(device_path: &str, bays: &Vec<HwGrokDriveBays>) -> (r: Option<Enrichment>)
    ensures
        r == spec_find_disk(bays@, device_path@),
{
    let sought: String = device_path.to_owned();
    let n = bays.len();
    proof {
        assert(bays@.skip(0) =~= bays@);
    }
    let mut i: usize = 0;
    while i < n
        invariant
            n == bays@.len(),
            i <= n,
            sought@ == device_path@,
            spec_find_disk(bays@, device_path@) == spec_find_disk(
                bays@.skip(i as int),
                device_path@,
            ),
        decreases n - i,
    {
        proof {
            assert(bays@.skip(i as int)[0] == bays@[i as int]);
            assert(bays@.skip(i as int).drop_first() =~= bays@.skip(i as int + 1));
        }
        match &bays[i].disk {
            Some(d) => {
                if d.disk_device_path == sought {
                    return Some(
                        Enrichment::Disk {
                            location: bays[i].label.clone(),
                            manufacturer: d.manufacturer.clone(),
                            model: d.model.clone(),
                            serial_number: d.serial_number.clone(),
                            firmware_revision: d.disk_firmware_rev.clone(),
                        },
                    );
                }
            },
            None => {},
        }
        i += 1;
    }
    proof {
        assert(bays@.skip(n as int).len() == 0);
    }
    None
}

/// Search the PCI devices for one with this exact device path.
fn find_pci(device_path: &str, devs: &Vec<HwGrokPciDevices>) -> (r: Option<Enrichment>)
    ensures
        r == spec_find_pci(devs@, device_path@),
{
    let sought: String = device_path.to_owned();
    let n = devs.len();
    proof {
        assert(devs@.skip(0) =~= devs@);
    }
    let mut i: usize = 0;
    while i < n
        invariant
            n == devs@.len(),
            i <= n,
            sought@ == device_path@,
            spec_find_pci(devs@, device_path@) == spec_find_pci(devs@.skip(i as int), device_path@),
        decreases n - i,
    {
        proof {
            assert(devs@.skip(i as int)[0] == devs@[i as int]);
            assert(devs@.skip(i as int).drop_first() =~= devs@.skip(i as int + 1));
        }
        if devs[i].pci_device_path == sought {
            return Some(
                Enrichment::Pci {
                    vendor_name: devs[i].pci_vendor_name.clone(),
                    device_name: devs[i].pci_device_name.clone(),
                    subsystem_name: devs[i].pci_subsystem_name.clone(),
                },
            );
        }
        i += 1;
    }
    proof {
        assert(devs@.skip(n as int).len() == 0);
    }
    None
}

/// Look up enrichment data for one device path in the inventory snapshot:
/// category dispatch by path shape, then a linear scan, first match wins.
pub fn enrich(device_path: &str, hw: &HwGrok) -> (r: Option<Enrichment>)
    ensures
        r == spec_enrich(device_path@, hw.drive_bays@, hw.pci_devices@),
{
    if str_starts_with(device_path, "/pci") && str_contains(device_path, "disk") {
        find_disk(device_path, &hw.drive_bays)
    } else if str_starts_with(device_path, "/pci") {
        find_pci(device_path, &hw.pci_devices)
    } else {
        None
    }
}

/// Law: a device path outside the "/pci" namespace is never enriched,
/// whatever the inventory holds.
pub proof fn lemma_unclassified_path_no_enrichment(
    p: Seq<char>,
    bays: Seq<HwGrokDriveBays>,
    pcis: Seq<HwGrokPciDevices>,
)
    requires
        !spec_starts_with(p, "/pci"@),
    ensures
        spec_enrich(p, bays, pcis) is None,
{
}

} // verus!
