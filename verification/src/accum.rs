//! The per-device accumulator: class counts, day counts, the ordered
//! ereport history, and the day keys in first-seen order, together with a
//! ghost model of seeding and of folding one more ereport in.
use vstd::prelude::*;
use crate::counts::{
    CountTable, Tbl, lemma_bump_effect, lemma_count_le_total, tbl_bump, tbl_contains, tbl_count,
    tbl_keys, tbl_total, tbl_wf,
};
use crate::event::{Ereport, EreportView};

verus! {

/// Ghost model of a device accumulator.
pub ghost struct EntView {
    pub class_counts: Tbl,
    pub day_counts: Tbl,
    pub history: Seq<EreportView>,
    pub day_order: Seq<Seq<char>>,
}

/// The accumulator invariant: both count tables are duplicate-free, each
/// sums to the length of the history, and `day_order` lists exactly the
/// day keys in first-seen order.
pub open spec fn ent_wf(v: EntView) -> bool {
    &&& tbl_wf(v.class_counts)
    &&& tbl_wf(v.day_counts)
    &&& tbl_total(v.class_counts) == v.history.len()
    &&& tbl_total(v.day_counts) == v.history.len()
    &&& v.day_order == tbl_keys(v.day_counts)
}

/// The accumulator made for a device's first admitted ereport.
pub open spec fn seed_ent(e: EreportView, ts: Seq<char>) -> EntView {
    EntView {
        class_counts: seq![(e.class, 1 as nat)],
        day_counts: seq![(ts, 1 as nat)],
        history: seq![e],
        day_order: seq![ts],
    }
}

/// The accumulator after one more admitted ereport with day key `ts`.
pub open spec fn record_ent(v: EntView, e: EreportView, ts: Seq<char>) -> EntView {
    EntView {
        class_counts: tbl_bump(v.class_counts, e.class),
        day_counts: tbl_bump(v.day_counts, ts),
        history: v.history.push(e),
        day_order: if tbl_contains(v.day_counts, ts) {
            v.day_order
        } else {
            v.day_order.push(ts)
        },
    }
}

/// A seeded accumulator satisfies the invariant.
pub proof fn lemma_seed_wf(e: EreportView, ts: Seq<char>)
    ensures
        ent_wf(seed_ent(e, ts)),
{
    let v = seed_ent(e, ts);
    assert(v.class_counts.drop_first() =~= Seq::<(Seq<char>, nat)>::empty());
    assert(v.day_counts.drop_first() =~= Seq::<(Seq<char>, nat)>::empty());
    assert(tbl_total(v.class_counts.drop_first()) == 0);
    assert(tbl_total(v.day_counts.drop_first()) == 0);
    assert(tbl_total(v.class_counts) == 1);
    assert(tbl_total(v.day_counts) == 1);
    assert(v.day_order =~= tbl_keys(v.day_counts));
}

/// Folding one more ereport in preserves the invariant.
pub proof fn lemma_record_wf(v: EntView, e: EreportView, ts: Seq<char>)
    requires
        ent_wf(v),
    ensures
        ent_wf(record_ent(v, e, ts)),
{
    lemma_bump_effect(v.class_counts, e.class);
    lemma_bump_effect(v.day_counts, ts);
}

/// Law: in every well-formed accumulator, the class counts and the day
/// counts each sum to the number of ereports in the history.
pub proof fn lemma_counts_balance(v: EntView)
    requires
        ent_wf(v),
    ensures
        tbl_total(v.class_counts) == v.history.len(),
        tbl_total(v.day_counts) == v.history.len(),
{
}

/// Law: `day_order` is duplicate-free, and it lists exactly the keys of
/// the day counts, in first-occurrence order.
pub proof fn lemma_day_order_matches(v: EntView)
    requires
        ent_wf(v),
    ensures
        v.day_order == tbl_keys(v.day_counts),
        forall|i: int, j: int|
            0 <= i < j < v.day_order.len() ==> v.day_order[i] != v.day_order[j],
        forall|k: Seq<char>| #[trigger] v.day_order.contains(k) <==> tbl_contains(v.day_counts, k),
{
    assert(forall|i: int|
        0 <= i < v.day_order.len() ==> v.day_order[i] == #[trigger] v.day_counts[i].0);
    assert forall|k: Seq<char>| #[trigger]
        v.day_order.contains(k) <==> tbl_contains(v.day_counts, k) by {
        if v.day_order.contains(k) {
            let i = choose|i: int| 0 <= i < v.day_order.len() && v.day_order[i] == k;
            assert(v.day_counts[i].0 == k);
        }
        if tbl_contains(v.day_counts, k) {
            let i = choose|i: int| 0 <= i < v.day_counts.len() && v.day_counts[i].0 == k;
            assert(v.day_order[i] == k);
        }
    }
}

/// Law: two ereports bucketed under the same day key produce a single day
/// entry counted twice, not two entries.
pub proof fn lemma_same_day_one_entry(e1: EreportView, e2: EreportView, ts: Seq<char>)
    ensures
        ({
            let v = record_ent(seed_ent(e1, ts), e2, ts);
            &&& tbl_keys(v.day_counts) == seq![ts]
            &&& tbl_count(v.day_counts, ts) == 2
            &&& v.day_order == seq![ts]
            &&& v.history.len() == 2
        }),
{
    let s = seed_ent(e1, ts);
    lemma_seed_wf(e1, ts);
    assert(tbl_contains(s.day_counts, ts)) by {
        assert(s.day_counts[0].0 == ts);
    }
    assert(s.day_counts.drop_first() =~= Seq::<(Seq<char>, nat)>::empty());
    assert(tbl_count(s.day_counts.drop_first(), ts) == 0);
    assert(tbl_count(s.day_counts, ts) == 1);
    lemma_bump_effect(s.day_counts, ts);
    assert(tbl_keys(s.day_counts) =~= seq![ts]);
}

/// One device's aggregate: ereport counts by class, by calendar day, the
/// full history in admission order, and the distinct day keys in
/// first-seen order.
pub struct DeviceHashEnt {
    pub ereport_class_hash: CountTable,
    pub ereport_ts_hash: CountTable,
    pub ereports: Vec<Ereport>,
    pub ereports_ts: Vec<String>,
}

impl View for DeviceHashEnt {
    type V = EntView;

    open spec fn view(&self) -> EntView {
        EntView {
            class_counts: self.ereport_class_hash@,
            day_counts: self.ereport_ts_hash@,
            history: self.ereports@.map_values(|e: Ereport| e@),
            day_order: self.ereports_ts@.map_values(|s: String| s@),
        }
    }
}

impl DeviceHashEnt {
    /// The invariant, at the exec type.
    pub open spec fn wf(&self) -> bool {
        ent_wf(self@)
    }

    /// The accumulator for a device's first admitted ereport, with day
    /// key `ts`.
    pub fn new(ereport: Ereport, ts: String) -> (ent: DeviceHashEnt)
        ensures
            ent@ == seed_ent(ereport@, ts@),
            ent.wf(),
    {
        let ghost ev = ereport@;
        let ghost tsv = ts@;
        let mut ereport_class_hash = CountTable::new();
        let _ = ereport_class_hash.bump(&ereport.class);
        let mut ereport_ts_hash = CountTable::new();
        let _ = ereport_ts_hash.bump(&ts);
        let mut ereports: Vec<Ereport> = Vec::new();
        let mut ereports_ts: Vec<String> = Vec::new();
        ereports.push(ereport);
        ereports_ts.push(ts);
        let ent = DeviceHashEnt { ereport_class_hash, ereport_ts_hash, ereports, ereports_ts };
        proof {
            assert(ent@.class_counts =~= seed_ent(ev, tsv).class_counts);
            assert(ent@.day_counts =~= seed_ent(ev, tsv).day_counts);
            assert(ent@.history =~= seq![ev]);
            assert(ent@.day_order =~= seq![tsv]);
            assert(ent@ == seed_ent(ev, tsv));
            lemma_seed_wf(ev, tsv);
        }
        ent
    }

    /// Fold one more admitted ereport, bucketed under day key `ts`, into
    /// this accumulator.
    pub(crate) fn record(&mut self, ereport: Ereport, ts: String)
        requires
            old(self).wf(),
        ensures
            final(self)@ == record_ent(old(self)@, ereport@, ts@),
            final(self).wf(),
    {
        let ghost ov = old(self)@;
        let ghost ev = ereport@;
        let ghost tsv = ts@;
        let class_key = ereport.class.clone();
        self.ereports.push(ereport);
        proof {
            assert(self@.history =~= ov.history.push(ev));
            lemma_count_le_total(ov.class_counts, class_key@);
            lemma_count_le_total(ov.day_counts, ts@);
        }
        let n = self.ereports.len();
        proof {
            assert(n == ov.history.len() + 1);
            assert(tbl_count(ov.class_counts, class_key@) < usize::MAX);
            assert(tbl_count(ov.day_counts, ts@) < usize::MAX);
        }
        let _ = self.ereport_class_hash.bump(&class_key);
        let new_ts = self.ereport_ts_hash.bump(&ts);
        if new_ts {
            self.ereports_ts.push(ts);
            proof {
                assert(self@.day_order =~= ov.day_order.push(tsv));
            }
        }
        proof {
            assert(self@.class_counts == tbl_bump(ov.class_counts, ev.class));
            assert(self@.day_counts == tbl_bump(ov.day_counts, tsv));
            if !new_ts {
                assert(self@.day_order =~= ov.day_order);
            }
            assert(self@.history =~= ov.history.push(ev));
            assert(self@ == record_ent(ov, ev, tsv));
            lemma_record_wf(ov, ev, tsv);
        }
    }
}

} // verus!
