//! The event model: the generic log event (carrying only its class), the
//! fault ereport with its detector, and the admission policy that decides
//! which classes are aggregated.
use vstd::prelude::*;
use crate::strutil::{spec_starts_with, str_starts_with, lemma_starts_with_trans};

verus! {

/// A generic log event, parsed only far enough to read its class.
pub struct FmEvent {
    pub class: String,
}

/// The detecting component of an ereport; hardware-capable detectors carry
/// a device path.
pub struct Detector {
    pub scheme: String,
    pub device_path: Option<String>,
}

/// A fault ereport: its class, its detector, and its time of day, whose
/// first element is the authoritative event time in Unix epoch seconds.
pub struct Ereport {
    pub class: String,
    pub detector: Detector,
    pub tod: Vec<i64>,
}

/// Ghost model of a detector.
pub ghost struct DetectorView {
    pub scheme: Seq<char>,
    pub device_path: Option<Seq<char>>,
}

/// Ghost model of an ereport.
pub ghost struct EreportView {
    pub class: Seq<char>,
    pub detector: DetectorView,
    pub tod: Seq<i64>,
}

impl View for Detector {
    type V = DetectorView;

    open spec fn view(&self) -> DetectorView {
        DetectorView {
            scheme: self.scheme@,
            device_path: match self.device_path {
                Some(p) => Some(p@),
                None => None,
            },
        }
    }
}

impl View for Ereport {
    type V = EreportView;

    open spec fn view(&self) -> EreportView {
        EreportView { class: self.class@, detector: self.detector@, tod: self.tod@ }
    }
}

/// What the admission filter decides for one event class.
#[derive(Clone, Copy, Debug, PartialEq, Eq, Structural)]
pub enum Admission {
    /// The class names an ereport that carries a detector: aggregate it.
    Aggregable,
    /// The class is outside the ereport namespace: skip the event.
    NotEreport,
    /// The class is an ereport sub-namespace known to omit a detector:
    /// skip the event before attempting a full parse.
    Excluded,
}

/// The admission policy over a class string: only classes under
/// "ereport." are aggregable, and of those, "ereport.fm." and
/// "ereport.fs." are excluded.
pub open spec fn spec_admission(class: Seq<char>) -> Admission {
    if !spec_starts_with(class, "ereport."@) {
        Admission::NotEreport
    } else if spec_starts_with(class, "ereport.fm."@) || spec_starts_with(class, "ereport.fs."@) {
        Admission::Excluded
    } else {
        Admission::Aggregable
    }
}

/// Decide admission for one event class.
pub fn classify_event(class: &str) -> (a: Admission)
    ensures
        a == spec_admission(class@),
{
    if !str_starts_with(class, "ereport.") {
        Admission::NotEreport
    } else if str_starts_with(class, "ereport.fm.") || str_starts_with(class, "ereport.fs.") {
        Admission::Excluded
    } else {
        Admission::Aggregable
    }
}

impl FmEvent {
    /// Decide admission for this event.
    pub fn admission(&self) -> (a: Admission)
        ensures
            a == spec_admission(self.class@),
    {
        classify_event(self.class.as_str())
    }
}

/// A class under "ereport.fm." is never aggregable, whatever the rest of
/// the payload holds.
pub proof fn lemma_fm_never_aggregable(class: Seq<char>)
    requires
        spec_starts_with(class, "ereport.fm."@),
    ensures
        spec_admission(class) != Admission::Aggregable,
{
    reveal_strlit("ereport.");
    reveal_strlit("ereport.fm.");
    assert(spec_starts_with("ereport.fm."@, "ereport."@)) by {
        assert(("ereport.fm."@).subrange(0, 8) =~= "ereport."@);
    }
    lemma_starts_with_trans(class, "ereport.fm."@, "ereport."@);
}

/// A class under "ereport.fs." is never aggregable either.
pub proof fn lemma_fs_never_aggregable(class: Seq<char>)
    requires
        spec_starts_with(class, "ereport.fs."@),
    ensures
        spec_admission(class) != Admission::Aggregable,
{
    reveal_strlit("ereport.");
    reveal_strlit("ereport.fs.");
    assert(spec_starts_with("ereport.fs."@, "ereport."@)) by {
        assert(("ereport.fs."@).subrange(0, 8) =~= "ereport."@);
    }
    lemma_starts_with_trans(class, "ereport.fs."@, "ereport."@);
}

/// A class without the "ereport." prefix is never aggregable.
pub proof fn lemma_non_ereport_never_aggregable(class: Seq<char>)
    requires
        !spec_starts_with(class, "ereport."@),
    ensures
        spec_admission(class) == Admission::NotEreport,
{
}

} // verus!
