//! The device map and the aggregation engine: one accumulator per device
//! path, folded one admitted ereport at a time.
use vstd::prelude::*;
use crate::accum::{
    DeviceHashEnt, EntView, ent_wf, lemma_day_order_matches, lemma_record_wf,
    lemma_same_day_one_entry, lemma_seed_wf, record_ent, seed_ent,
};
use crate::counts::{lemma_bump_effect, tbl_contains, tbl_count, tbl_keys, tbl_total, tbl_wf};
use crate::event::Ereport;
use crate::timestamp::{MAX_BUCKET_DAY, MIN_BUCKET_DAY, day_bucket_of, get_event_timestamp};

verus! {

/// Why one ereport could not be folded into the device map. Either way the
/// run is aborted: both conditions are fatal input errors.
#[derive(Clone, Copy, Debug, PartialEq, Eq, Structural)]
pub enum AggregateError {
    /// The ereport's time-of-day sequence is empty, so it has no event time.
    EmptyTimeOfDay,
    /// The event time lies outside the representable date range.
    TimestampOutOfRange,
}

/// Ghost model of the device map: (device path, accumulator model) pairs
/// in first-seen order.
pub type MapModel = Seq<(Seq<char>, EntView)>;

/// Some pair of `m` carries the device path `k`.
pub open spec fn map_contains(m: MapModel, k: Seq<char>) -> bool {
    exists|i: int| 0 <= i < m.len() && m[i].0 == k
}

/// The accumulator recorded under the first pair carrying `k`, if any.
pub open spec fn map_lookup(m: MapModel, k: Seq<char>) -> Option<EntView>
    decreases m.len(),
{
    if m.len() == 0 {
        None
    } else if m[0].0 == k {
        Some(m[0].1)
    } else {
        map_lookup(m.drop_first(), k)
    }
}

/// The device paths of the map, in first-seen order.
pub open spec fn map_keys(m: MapModel) -> Seq<Seq<char>> {
    m.map_values(|p: (Seq<char>, EntView)| p.0)
}

/// The map invariant: no device path occurs twice, and every accumulator
/// satisfies its own invariant.
pub open spec fn map_wf(m: MapModel) -> bool {
    &&& forall|i: int, j: int| 0 <= i < j < m.len() ==> m[i].0 != m[j].0
    &&& forall|i: int| 0 <= i < m.len() ==> ent_wf(#[trigger] m[i].1)
}

/// The map after one admitted ereport for device `dp` with day key `ts`:
/// the first pair carrying `dp` has the ereport folded into its
/// accumulator; if no pair carries `dp`, a freshly seeded accumulator is
/// appended.
pub open spec fn admit_map(m: MapModel, dp: Seq<char>, e: crate::event::EreportView, ts: Seq<char>) -> MapModel
    decreases m.len(),
{
    if m.len() == 0 {
        seq![(dp, seed_ent(e, ts))]
    } else if m[0].0 == dp {
        seq![(m[0].0, record_ent(m[0].1, e, ts))] + m.drop_first()
    } else {
        seq![m[0]] + admit_map(m.drop_first(), dp, e, ts)
    }
}

/// A present path is found by lookup, and an absent one is not.
pub proof fn lemma_map_lookup_contains(m: MapModel, k: Seq<char>)
    ensures
        map_contains(m, k) <==> map_lookup(m, k) is Some,
    decreases m.len(),
{
    if m.len() > 0 && m[0].0 != k {
        lemma_map_lookup_contains(m.drop_first(), k);
        assert(map_contains(m, k) <==> map_contains(m.drop_first(), k)) by {
            if map_contains(m, k) {
                let i = choose|i: int| 0 <= i < m.len() && m[i].0 == k;
                assert(i != 0);
                assert(m.drop_first()[i - 1].0 == k);
            }
            if map_contains(m.drop_first(), k) {
                let i = choose|i: int| 0 <= i < m.drop_first().len() && m.drop_first()[i].0 == k;
                assert(m[i + 1].0 == k);
            }
        }
    } else if m.len() > 0 {
        assert(m[0].0 == k);
    }
}

/// In a well-formed map, every accumulator that lookup returns satisfies
/// the accumulator invariant.
pub proof fn lemma_map_lookup_wf(m: MapModel, k: Seq<char>)
    requires
        map_wf(m),
    ensures
        map_lookup(m, k) matches Some(v) ==> ent_wf(v),
    decreases m.len(),
{
    if m.len() > 0 && m[0].0 != k {
        assert(map_wf(m.drop_first())) by {
            assert(forall|i: int|
                0 <= i < m.drop_first().len() ==> #[trigger] m.drop_first()[i] == m[i + 1]);
        }
        lemma_map_lookup_wf(m.drop_first(), k);
    }
}

/// What one admitted ereport does to the map model: the accumulator under
/// `dp` is folded or seeded, every other entry is unchanged, the key order
/// is kept (with `dp` appended when new), and well-formedness is
/// preserved.
pub proof fn lemma_admit_effect(m: MapModel, dp: Seq<char>, e: crate::event::EreportView, ts: Seq<char>)
    ensures
        admit_map(m, dp, e, ts).len() == if map_contains(m, dp) {
            m.len()
        } else {
            m.len() + 1
        },
        map_contains(m, dp) ==> map_keys(admit_map(m, dp, e, ts)) == map_keys(m),
        !map_contains(m, dp) ==> map_keys(admit_map(m, dp, e, ts)) == map_keys(m).push(dp),
        map_contains(m, dp) ==> map_lookup(admit_map(m, dp, e, ts), dp) == Some(
            record_ent(map_lookup(m, dp)->Some_0, e, ts),
        ),
        !map_contains(m, dp) ==> map_lookup(admit_map(m, dp, e, ts), dp) == Some(seed_ent(e, ts)),
        forall|k2: Seq<char>|
            k2 != dp ==> #[trigger] map_lookup(admit_map(m, dp, e, ts), k2) == map_lookup(m, k2),
        map_wf(m) ==> map_wf(admit_map(m, dp, e, ts)),
    decreases m.len(),
{
    let b = admit_map(m, dp, e, ts);
    if m.len() == 0 {
        assert(b =~= seq![(dp, seed_ent(e, ts))]);
        assert(b[0].0 == dp);
        assert(map_keys(b) =~= map_keys(m).push(dp));
        assert(forall|k2: Seq<char>|
            k2 != dp ==> #[trigger] map_lookup(b, k2) == map_lookup(b.drop_first(), k2));
        assert(b.drop_first() =~= m);
        if map_wf(m) {
            lemma_seed_wf(e, ts);
        }
    } else if m[0].0 == dp {
        assert(b == seq![(m[0].0, record_ent(m[0].1, e, ts))] + m.drop_first());
        assert(b.drop_first() =~= m.drop_first());
        assert(b[0] == (m[0].0, record_ent(m[0].1, e, ts)));
        assert(map_contains(m, dp));
        assert(map_keys(b) =~= map_keys(m));
        assert(map_lookup(b, dp) == Some(record_ent(m[0].1, e, ts)));
        assert forall|k2: Seq<char>| k2 != dp implies #[trigger] map_lookup(b, k2) == map_lookup(
            m,
            k2,
        ) by {
            assert(map_lookup(b, k2) == map_lookup(b.drop_first(), k2));
            assert(map_lookup(m, k2) == map_lookup(m.drop_first(), k2));
        }
        if map_wf(m) {
            assert(ent_wf(m[0].1));
            lemma_record_wf(m[0].1, e, ts);
            assert(forall|i: int, j: int| 0 <= i < j < b.len() ==> b[i].0 != b[j].0) by {
                assert(forall|i: int| 0 <= i < m.len() ==> b[i].0 == #[trigger] m[i].0);
            }
            assert(forall|i: int| 0 < i < b.len() ==> b[i] == #[trigger] m[i]);
        }
    } else {
        lemma_admit_effect(m.drop_first(), dp, e, ts);
        let bd = admit_map(m.drop_first(), dp, e, ts);
        assert(b == seq![m[0]] + bd);
        assert(b.drop_first() =~= bd);
        assert(b[0] == m[0]);
        assert(map_contains(m, dp) <==> map_contains(m.drop_first(), dp)) by {
            if map_contains(m, dp) {
                let i = choose|i: int| 0 <= i < m.len() && m[i].0 == dp;
                assert(i != 0);
                assert(m.drop_first()[i - 1].0 == dp);
            }
            if map_contains(m.drop_first(), dp) {
                let i = choose|i: int| 0 <= i < m.drop_first().len() && m.drop_first()[i].0 == dp;
                assert(m[i + 1].0 == dp);
            }
        }
        assert(forall|i: int| 0 <= i < bd.len() ==> #[trigger] b[i + 1] == bd[i]);
        assert(forall|i: int|
            0 <= i < m.drop_first().len() ==> #[trigger] m.drop_first()[i] == m[i + 1]);
        assert(map_lookup(b, dp) == map_lookup(bd, dp));
        assert(map_lookup(m, dp) == map_lookup(m.drop_first(), dp));
        assert forall|k2: Seq<char>| k2 != dp implies #[trigger] map_lookup(b, k2) == map_lookup(
            m,
            k2,
        ) by {
            if m[0].0 == k2 {
                assert(map_lookup(b, k2) == Some(b[0].1));
                assert(map_lookup(m, k2) == Some(m[0].1));
            } else {
                assert(map_lookup(b, k2) == map_lookup(bd, k2));
                assert(map_lookup(m, k2) == map_lookup(m.drop_first(), k2));
            }
        }
        if map_contains(m, dp) {
            assert forall|i: int| 0 <= i < m.len() implies map_keys(b)[i] == map_keys(m)[i] by {
                if i > 0 {
                    assert(map_keys(bd)[i - 1] == map_keys(m.drop_first())[i - 1]);
                }
            }
            assert(map_keys(b) =~= map_keys(m));
        } else {
            assert forall|i: int|
                0 <= i < m.len() + 1 implies map_keys(b)[i] == map_keys(m).push(dp)[i] by {
                if i > 0 {
                    assert(map_keys(bd)[i - 1] == map_keys(m.drop_first()).push(dp)[i - 1]);
                }
            }
            assert(map_keys(b) =~= map_keys(m).push(dp));
        }
        if map_wf(m) {
            assert(map_wf(m.drop_first()));
            assert(map_wf(bd));
            assert forall|i: int, j: int| 0 <= i < j < b.len() implies b[i].0 != b[j].0 by {
                if i == 0 {
                    if b[j].0 == m[0].0 {
                        assert(bd[j - 1].0 == m[0].0);
                        // the key at the head of `m` cannot reappear in the
                        // admitted tail: it is neither in the tail of `m`
                        // (uniqueness) nor equal to `dp`
                        if map_contains(m.drop_first(), m[0].0) {
                            let x = choose|x: int|
                                0 <= x < m.drop_first().len() && m.drop_first()[x].0 == m[0].0;
                            assert(m[x + 1].0 == m[0].0);
                            assert(false);
                        } else {
                            assert(map_keys(bd) == map_keys(m.drop_first()).push(dp) || map_keys(
                                bd,
                            ) == map_keys(m.drop_first()));
                            assert(map_keys(bd)[j - 1] == bd[j - 1].0);
                            if map_keys(bd) == map_keys(m.drop_first()).push(dp) {
                                if j - 1 < m.drop_first().len() {
                                    assert(m.drop_first()[j - 1].0 == m[0].0);
                                    assert(false);
                                } else {
                                    assert(bd[j - 1].0 == dp);
                                    assert(false);
                                }
                            } else {
                                assert(m.drop_first()[j - 1].0 == m[0].0);
                                assert(false);
                            }
                        }
                    }
                } else {
                    assert(bd[i - 1].0 != bd[j - 1].0);
                }
            }
            assert(forall|i: int| 0 <= i < b.len() ==> ent_wf(#[trigger] b[i].1)) by {
                assert(forall|i: int| 0 < i < b.len() ==> b[i].1 == #[trigger] bd[i - 1].1);
            }
        }
    }
}

/// When the first pair carrying `dp` stands at index `i`, an admitted
/// ereport is exactly an update of that pair.
proof fn lemma_first_match_admit(
    m: MapModel,
    dp: Seq<char>,
    e: crate::event::EreportView,
    ts: Seq<char>,
    i: int,
)
    requires
        0 <= i < m.len(),
        m[i].0 == dp,
        forall|j: int| 0 <= j < i ==> m[j].0 != dp,
    ensures
        admit_map(m, dp, e, ts) == m.update(i, (m[i].0, record_ent(m[i].1, e, ts))),
    decreases i,
{
    if i == 0 {
        assert(admit_map(m, dp, e, ts) =~= m.update(0, (m[0].0, record_ent(m[0].1, e, ts))));
    } else {
        assert(m.drop_first()[i - 1] == m[i]);
        assert(forall|j: int| 0 <= j < i - 1 ==> #[trigger] m.drop_first()[j].0 == m[j + 1].0);
        lemma_first_match_admit(m.drop_first(), dp, e, ts, i - 1);
        assert(admit_map(m, dp, e, ts) =~= m.update(i, (m[i].0, record_ent(m[i].1, e, ts))));
    }
}

/// When no pair carries `dp`, an admitted ereport is exactly an append.
proof fn lemma_no_match_admit(m: MapModel, dp: Seq<char>, e: crate::event::EreportView, ts: Seq<char>)
    requires
        !map_contains(m, dp),
    ensures
        admit_map(m, dp, e, ts) == m.push((dp, seed_ent(e, ts))),
    decreases m.len(),
{
    if m.len() == 0 {
        assert(admit_map(m, dp, e, ts) =~= m.push((dp, seed_ent(e, ts))));
    } else {
        assert(m[0].0 != dp);
        assert(!map_contains(m.drop_first(), dp)) by {
            if map_contains(m.drop_first(), dp) {
                let i = choose|i: int| 0 <= i < m.drop_first().len() && m.drop_first()[i].0 == dp;
                assert(m[i + 1].0 == dp);
            }
        }
        lemma_no_match_admit(m.drop_first(), dp, e, ts);
        assert(admit_map(m, dp, e, ts) =~= m.push((dp, seed_ent(e, ts))));
    }
}

/// The device map: one accumulator per device path, keyed by the device
/// path of the ereport detector, in first-seen order.
pub struct DeviceHash {
    entries: Vec<(String, DeviceHashEnt)>,
}

impl View for DeviceHash {
    type V = MapModel;

    closed spec fn view(&self) -> MapModel {
        self.entries@.map_values(|p: (String, DeviceHashEnt)| (p.0@, p.1@))
    }
}

impl DeviceHash {
    #[verifier::type_invariant]
    spec fn inv(self) -> bool {
        map_wf(self@)
    }

    /// An empty device map.
    pub fn new() -> (m: DeviceHash)
        ensures
            m@ == Seq::<(Seq<char>, EntView)>::empty(),
    {
        let m = DeviceHash { entries: Vec::new() };
        proof {
            assert(m@ =~= Seq::<(Seq<char>, EntView)>::empty());
        }
        m
    }

    /// How many device paths have been seen.
    pub fn len(&self) -> (n: usize)
        ensures
            n == self@.len(),
    {
        self.entries.len()
    }

    /// The device path and accumulator at position `i`, in first-seen
    /// order.
    pub fn entry_at(&self, i: usize) -> (r: &(String, DeviceHashEnt))
        requires
            i < self@.len(),
        ensures
            r.0@ == self@[i as int].0,
            r.1@ == self@[i as int].1,
    {
        &self.entries[i]
    }

    /// The accumulator for `device_path`, if any ereport was admitted for
    /// it; what comes back always satisfies the accumulator invariant.
    pub fn get(&self, device_path: &str) -> (r: Option<&DeviceHashEnt>)
        ensures
            r matches Some(ent) ==> map_lookup(self@, device_path@) == Some(ent@)
                && map_contains(self@, device_path@) && ent.wf(),
            r is None ==> map_lookup(self@, device_path@) is None && !map_contains(
                self@,
                device_path@,
            ),
    {
        proof {
            use_type_invariant(&*self);
            lemma_map_lookup_contains(self@, device_path@);
            lemma_map_lookup_wf(self@, device_path@);
        }
        let sought: String = device_path.to_owned();
        let n = self.entries.len();
        proof {
            assert(self@.skip(0) =~= self@);
        }
        let mut i: usize = 0;
        while i < n
            invariant
                n == self.entries@.len(),
                i <= n,
                sought@ == device_path@,
                map_lookup(self@, device_path@) == map_lookup(self@.skip(i as int), device_path@),
            decreases n - i,
        {
            proof {
                assert(self@.skip(i as int)[0] == self@[i as int]);
            }
            if self.entries[i].0 == sought {
                proof {
                    assert(self@[i as int].0 == device_path@);
                    assert(map_lookup(self@.skip(i as int), device_path@) == Some(
                        self@[i as int].1,
                    ));
                    use_type_invariant(&*self);
                    lemma_map_lookup_contains(self@, device_path@);
                    lemma_map_lookup_wf(self@, device_path@);
                }
                return Some(&self.entries[i].1);
            }
            proof {
                assert(self@.skip(i as int).drop_first() =~= self@.skip(i as int + 1));
            }
            i += 1;
        }
        proof {
            assert(self@.skip(n as int).len() == 0);
        }
        None
    }
}

/// Classify the event time of `ereport`, then fold it into the map under
/// `device_path`: the matching accumulator is updated, or a new one is
/// seeded for a first-seen path. Fails exactly on an ereport with no event
/// time or one whose time has no representable date, leaving the map
/// unchanged.
pub fn process_dev_event(
    device_hash: &mut DeviceHash,
    device_path: &str,
    ereport: Ereport,
) -> (r: Result<(), AggregateError>)
    ensures
        ereport@.tod.len() == 0 <==> r == Err::<(), AggregateError>(AggregateError::EmptyTimeOfDay),
        r is Err ==> final(device_hash)@ == old(device_hash)@,
        ereport@.tod.len() > 0 ==> {
            &&& (r is Ok ==> final(device_hash)@ == admit_map(
                old(device_hash)@,
                device_path@,
                ereport@,
                day_bucket_of(ereport@.tod[0] as int / 86_400),
            ))
            &&& (r is Ok <==> MIN_BUCKET_DAY <= ereport@.tod[0] as int / 86_400
                <= MAX_BUCKET_DAY)
            &&& (r is Err ==> r == Err::<(), AggregateError>(AggregateError::TimestampOutOfRange))
        },
{
    if ereport.tod.len() == 0 {
        return Err(AggregateError::EmptyTimeOfDay);
    }
    let secs = ereport.tod[0];
    let ts = match get_event_timestamp(secs) {
        Some(t) => t,
        None => {
            return Err(AggregateError::TimestampOutOfRange);
        },
    };
    proof {
        use_type_invariant(&*device_hash);
    }
    let ghost om = device_hash@;
    let ghost ev = ereport@;
    let ghost tsv = ts@;
    let ghost dpv = device_path@;
    let sought: String = device_path.to_owned();
    let mut entries: Vec<(String, DeviceHashEnt)> = Vec::new();
    proof {
        assert(Seq::<(Seq<char>, EntView)>::empty() =~= entries@.map_values(
            |p: (String, DeviceHashEnt)| (p.0@, p.1@),
        ));
    }
    core::mem::swap(&mut entries, &mut device_hash.entries);
    let n = entries.len();
    let mut i: usize = 0;
    let mut idx: usize = n;
    while i < n
        invariant
            n == entries@.len(),
            i <= n,
            idx == n || idx < i,
            om == entries@.map_values(|p: (String, DeviceHashEnt)| (p.0@, p.1@)),
            sought@ == dpv,
            idx < n ==> entries@[idx as int].0@ == dpv,
            idx < n ==> forall|j: int| 0 <= j < idx ==> entries@[j].0@ != dpv,
            idx == n ==> forall|j: int| 0 <= j < i ==> entries@[j].0@ != dpv,
        decreases n - i,
    {
        if idx == n && entries[i].0 == sought {
            idx = i;
        }
        i += 1;
    }
    proof {
        lemma_admit_effect(om, dpv, ev, tsv);
    }
    if idx < n {
        proof {
            assert(om[idx as int] == (entries@[idx as int].0@, entries@[idx as int].1@));
            assert(ent_wf(om[idx as int].1));
            assert(forall|j: int| 0 <= j < idx ==> om[j].0 != dpv);
            lemma_first_match_admit(om, dpv, ev, tsv, idx as int);
        }
        let pair = &mut entries[idx];
        pair.1.record(ereport, ts);
    } else {
        proof {
            assert(!map_contains(om, dpv)) by {
                if map_contains(om, dpv) {
                    let j = choose|j: int| 0 <= j < om.len() && om[j].0 == dpv;
                    assert(entries@[j].0@ == dpv);
                }
            }
            lemma_no_match_admit(om, dpv, ev, tsv);
        }
        let ent = DeviceHashEnt::new(ereport, ts);
        entries.push((sought, ent));
    }
    proof {
        assert(entries@.map_values(|p: (String, DeviceHashEnt)| (p.0@, p.1@)) =~= admit_map(
            om,
            dpv,
            ev,
            tsv,
        ));
    }
    device_hash.entries = entries;
    Ok(())
}

/// Law: two ereports whose event times fall on the same UTC calendar day,
/// admitted for one device, land in a single day bucket counted twice —
/// not in two buckets.
pub proof fn lemma_same_day_two_admissions(
    dp: Seq<char>,
    e1: crate::event::EreportView,
    e2: crate::event::EreportView,
    s1: int,
    s2: int,
)
    requires
        s1 / 86_400 == s2 / 86_400,
    ensures
        ({
            let ts = day_bucket_of(s1 / 86_400);
            let m = admit_map(
                admit_map(Seq::empty(), dp, e1, ts),
                dp,
                e2,
                day_bucket_of(s2 / 86_400),
            );
            &&& m.len() == 1
            &&& m[0].0 == dp
            &&& tbl_keys(m[0].1.day_counts) == seq![ts]
            &&& tbl_count(m[0].1.day_counts, ts) == 2
            &&& m[0].1.day_order == seq![ts]
            &&& m[0].1.history.len() == 2
        }),
{
    let ts = day_bucket_of(s1 / 86_400);
    let m1 = admit_map(Seq::empty(), dp, e1, ts);
    assert(m1 =~= seq![(dp, seed_ent(e1, ts))]);
    let m = admit_map(m1, dp, e2, ts);
    assert(m1[0].0 == dp);
    assert(m =~= seq![(dp, record_ent(seed_ent(e1, ts), e2, ts))]);
    lemma_same_day_one_entry(e1, e2, ts);
}

/// Law: one admitted ereport, folded into a well-formed map, keeps every
/// accumulator invariant; under the admitted device path the class count
/// of the ereport's class, the count under its day key, and the history
/// each grow by exactly one (from zero for a first-seen path), the day
/// key is appended to the day order exactly when it is new, and every
/// other entry of the map is untouched.
pub proof fn lemma_admit_grows_by_one(
    m: MapModel,
    dp: Seq<char>,
    e: crate::event::EreportView,
    ts: Seq<char>,
)
    requires
        map_wf(m),
    ensures
        map_wf(admit_map(m, dp, e, ts)),
        map_lookup(admit_map(m, dp, e, ts), dp) is Some,
        ({
            let v = map_lookup(admit_map(m, dp, e, ts), dp)->Some_0;
            &&& tbl_total(v.class_counts) == v.history.len()
            &&& tbl_total(v.day_counts) == v.history.len()
            &&& map_contains(m, dp) ==> ({
                let v0 = map_lookup(m, dp)->Some_0;
                &&& v.history.len() == v0.history.len() + 1
                &&& tbl_count(v.class_counts, e.class) == tbl_count(v0.class_counts, e.class) + 1
                &&& tbl_count(v.day_counts, ts) == tbl_count(v0.day_counts, ts) + 1
                &&& v.day_order == if tbl_contains(v0.day_counts, ts) {
                    v0.day_order
                } else {
                    v0.day_order.push(ts)
                }
            })
            &&& !map_contains(m, dp) ==> ({
                &&& v.history.len() == 1
                &&& tbl_count(v.class_counts, e.class) == 1
                &&& tbl_count(v.day_counts, ts) == 1
                &&& v.day_order == seq![ts]
            })
        }),
        forall|k2: Seq<char>|
            k2 != dp ==> #[trigger] map_lookup(admit_map(m, dp, e, ts), k2) == map_lookup(m, k2),
{
    lemma_admit_effect(m, dp, e, ts);
    lemma_map_lookup_wf(m, dp);
    lemma_map_lookup_wf(admit_map(m, dp, e, ts), dp);
    lemma_map_lookup_contains(m, dp);
    if map_contains(m, dp) {
        let v0 = map_lookup(m, dp)->Some_0;
        lemma_bump_effect(v0.class_counts, e.class);
        lemma_bump_effect(v0.day_counts, ts);
    } else {
        let v = seed_ent(e, ts);
        lemma_seed_wf(e, ts);
        assert(v.class_counts.drop_first() =~= Seq::<(Seq<char>, nat)>::empty());
        assert(v.day_counts.drop_first() =~= Seq::<(Seq<char>, nat)>::empty());
        assert(tbl_count(v.class_counts.drop_first(), e.class) == 0);
        assert(tbl_count(v.day_counts.drop_first(), ts) == 0);
        assert(tbl_count(v.class_counts, e.class) == 1);
        assert(tbl_count(v.day_counts, ts) == 1);
    }
}

/// Law: in a well-formed device map, every accumulator balances: its
/// class counts and its day counts each sum to the length of its ereport
/// history. (Every `DeviceHash` built through this module is well-formed:
/// that is its type invariant.)
pub proof fn lemma_map_counts_balance(m: MapModel, dp: Seq<char>)
    requires
        map_wf(m),
    ensures
        map_lookup(m, dp) matches Some(v) ==> {
            &&& tbl_total(v.class_counts) == v.history.len()
            &&& tbl_total(v.day_counts) == v.history.len()
        },
{
    lemma_map_lookup_wf(m, dp);
}

/// Law: in a well-formed device map, every accumulator's `day_order` is
/// duplicate-free and lists exactly the keys of its day counts, in
/// first-occurrence order.
pub proof fn lemma_map_day_order(m: MapModel, dp: Seq<char>)
    requires
        map_wf(m),
    ensures
        map_lookup(m, dp) matches Some(v) ==> {
            &&& v.day_order == tbl_keys(v.day_counts)
            &&& tbl_wf(v.day_counts)
            &&& forall|i: int, j: int|
                0 <= i < j < v.day_order.len() ==> v.day_order[i] != v.day_order[j]
        },
{
    lemma_map_lookup_wf(m, dp);
    if map_lookup(m, dp) is Some {
        lemma_day_order_matches(map_lookup(m, dp)->Some_0);
    }
}

} // verus!
