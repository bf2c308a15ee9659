use fmreport::event::{classify_event, Admission, FmEvent};
use fmreport::strutil::{str_contains, str_starts_with};

#[test]
fn fm_class_never_admitted() {
    assert_eq!(classify_event("ereport.fm.xxx"), Admission::Excluded);
    assert_ne!(classify_event("ereport.fm.xxx"), Admission::Aggregable);
}

#[test]
fn fs_class_never_admitted() {
    assert_eq!(classify_event("ereport.fs.zfs.io"), Admission::Excluded);
}

#[test]
fn non_ereport_class_never_admitted() {
    assert_eq!(classify_event("io.disk"), Admission::NotEreport);
}

#[test]
fn empty_class_never_admitted() {
    assert_eq!(classify_event(""), Admission::NotEreport);
}

#[test]
fn io_ereport_class_admitted() {
    assert_eq!(classify_event("ereport.io.disk"), Admission::Aggregable);
    assert_eq!(classify_event("ereport.io.pci.fabric"), Admission::Aggregable);
}

#[test]
fn bare_prefix_is_aggregable() {
    // "ereport." alone carries the prefix and neither excluded sub-namespace
    assert_eq!(classify_event("ereport."), Admission::Aggregable);
}

#[test]
fn fm_event_admission_method() {
    let ev = FmEvent { class: String::from("ereport.fm.fmd.module") };
    assert_eq!(ev.admission(), Admission::Excluded);
}

#[test]
fn starts_with_behaviour() {
    assert!(str_starts_with("ereport.io.disk", "ereport."));
    assert!(!str_starts_with("ereport", "ereport."));
    assert!(str_starts_with("abc", ""));
    assert!(!str_starts_with("abc", "abd"));
}

#[test]
fn contains_behaviour() {
    assert!(str_contains("/pci@0/disk@1", "disk"));
    assert!(str_contains("disk", "disk"));
    assert!(str_contains("xdisk", "disk"));
    assert!(!str_contains("/pci@0/dis", "disk"));
    assert!(str_contains("anything", ""));
}
