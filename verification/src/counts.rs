//! The count table: an association list from string keys to occurrence
//! counts, kept in first-seen order. Its ghost model is a sequence of
//! (key, count) pairs, with spec functions for membership, lookup, per-key
//! count, total count, and the effect of recording one more occurrence.
use vstd::prelude::*;

verus! {

/// Ghost model of a count table: (key, count) pairs in first-seen order.
pub type Tbl = Seq<(Seq<char>, nat)>;

/// Some pair of `t` carries the key `k`.
pub open spec fn tbl_contains(t: Tbl, k: Seq<char>) -> bool {
    exists|i: int| 0 <= i < t.len() && t[i].0 == k
}

/// The count recorded under `k`, summed over every pair that carries `k`
/// (under `tbl_wf` there is at most one such pair).
pub open spec fn tbl_count(t: Tbl, k: Seq<char>) -> nat
    decreases t.len(),
{
    if t.len() == 0 {
        0
    } else {
        (if t[0].0 == k {
            t[0].1
        } else {
            0
        }) + tbl_count(t.drop_first(), k)
    }
}

/// The count stored with the first pair that carries `k`, if any.
pub open spec fn tbl_lookup(t: Tbl, k: Seq<char>) -> Option<nat>
    decreases t.len(),
{
    if t.len() == 0 {
        None
    } else if t[0].0 == k {
        Some(t[0].1)
    } else {
        tbl_lookup(t.drop_first(), k)
    }
}

/// The sum of all counts in the table.
pub open spec fn tbl_total(t: Tbl) -> nat
    decreases t.len(),
{
    if t.len() == 0 {
        0
    } else {
        t[0].1 + tbl_total(t.drop_first())
    }
}

/// The keys of the table, in first-seen order.
pub open spec fn tbl_keys(t: Tbl) -> Seq<Seq<char>> {
    t.map_values(|p: (Seq<char>, nat)| p.0)
}

/// No key occurs in two pairs.
pub open spec fn tbl_wf(t: Tbl) -> bool {
    forall|i: int, j: int| 0 <= i < j < t.len() ==> t[i].0 != t[j].0
}

/// The effect of recording one more occurrence of `k`: the first pair
/// carrying `k` has its count raised by one; if no pair carries `k`, the
/// pair (`k`, 1) is appended.
pub open spec fn tbl_bump(t: Tbl, k: Seq<char>) -> Tbl
    decreases t.len(),
{
    if t.len() == 0 {
        seq![(k, 1 as nat)]
    } else if t[0].0 == k {
        seq![(t[0].0, (t[0].1 + 1) as nat)] + t.drop_first()
    } else {
        seq![t[0]] + tbl_bump(t.drop_first(), k)
    }
}

/// What one recorded occurrence does to the model: the count under `k`
/// rises by one, every other count is unchanged, the total rises by one,
/// the key order is kept (with `k` appended when new), and both key
/// uniqueness and membership behave as for a map insert.
pub proof fn lemma_bump_effect(t: Tbl, k: Seq<char>)
    ensures
        tbl_count(tbl_bump(t, k), k) == tbl_count(t, k) + 1,
        forall|k2: Seq<char>|
            k2 != k ==> #[trigger] tbl_count(tbl_bump(t, k), k2) == tbl_count(t, k2),
        tbl_total(tbl_bump(t, k)) == tbl_total(t) + 1,
        tbl_bump(t, k).len() == if tbl_contains(t, k) {
            t.len()
        } else {
            t.len() + 1
        },
        tbl_contains(t, k) ==> tbl_keys(tbl_bump(t, k)) == tbl_keys(t),
        !tbl_contains(t, k) ==> tbl_keys(tbl_bump(t, k)) == tbl_keys(t).push(k),
        forall|k2: Seq<char>|
            #[trigger] tbl_contains(tbl_bump(t, k), k2) <==> (tbl_contains(t, k2) || k2 == k),
        tbl_wf(t) ==> tbl_wf(tbl_bump(t, k)),
    decreases t.len(),
{
    let b = tbl_bump(t, k);
    if t.len() == 0 {
        assert(b =~= seq![(k, 1 as nat)]);
        assert(b.drop_first() =~= Seq::<(Seq<char>, nat)>::empty());
        assert(tbl_count(b.drop_first(), k) == 0);
        assert(tbl_total(b.drop_first()) == 0);
        assert(b[0] == (k, 1 as nat));
        assert(tbl_count(b, k) == 1);
        assert(forall|k2: Seq<char>|
            k2 != k ==> #[trigger] tbl_count(b, k2) == tbl_count(b.drop_first(), k2));
        assert(tbl_keys(b) =~= tbl_keys(t).push(k));
        assert(forall|k2: Seq<char>|
            #[trigger] tbl_contains(b, k2) <==> (tbl_contains(t, k2) || k2 == k)) by {
            assert(b[0].0 == k);
        }
    } else if t[0].0 == k {
        assert(b == seq![(t[0].0, (t[0].1 + 1) as nat)] + t.drop_first());
        assert(b.drop_first() =~= t.drop_first());
        assert(b[0] == (t[0].0, (t[0].1 + 1) as nat));
        assert(tbl_count(b, k) == b[0].1 + tbl_count(b.drop_first(), k));
        assert(tbl_count(t, k) == t[0].1 + tbl_count(t.drop_first(), k));
        assert(forall|k2: Seq<char>|
            k2 != k ==> #[trigger] tbl_count(b, k2) == tbl_count(t, k2)) by {
            assert(forall|k2: Seq<char>|
                tbl_count(b, k2) == (if b[0].0 == k2 {
                    b[0].1
                } else {
                    0
                }) + #[trigger] tbl_count(b.drop_first(), k2));
        }
        assert(tbl_total(b) == tbl_total(t) + 1);
        assert(tbl_contains(t, k));
        assert(tbl_keys(b) =~= tbl_keys(t));
        assert(forall|k2: Seq<char>|
            #[trigger] tbl_contains(b, k2) <==> (tbl_contains(t, k2) || k2 == k)) by {
            assert(forall|i: int| 0 <= i < t.len() ==> b[i].0 == #[trigger] t[i].0);
        }
        if tbl_wf(t) {
            assert(forall|i: int, j: int| 0 <= i < j < b.len() ==> b[i].0 != b[j].0) by {
                assert(forall|i: int| 0 <= i < t.len() ==> b[i].0 == #[trigger] t[i].0);
            }
        }
    } else {
        lemma_bump_effect(t.drop_first(), k);
        let bd = tbl_bump(t.drop_first(), k);
        assert(b == seq![t[0]] + bd);
        assert(b.drop_first() =~= bd);
        assert(b[0] == t[0]);
        // membership in the tail mirrors membership in `t` without index 0
        assert(tbl_contains(t, k) <==> tbl_contains(t.drop_first(), k)) by {
            if tbl_contains(t, k) {
                let i = choose|i: int| 0 <= i < t.len() && t[i].0 == k;
                assert(i != 0);
                assert(t.drop_first()[i - 1].0 == k);
            }
            if tbl_contains(t.drop_first(), k) {
                let i = choose|i: int| 0 <= i < t.drop_first().len() && t.drop_first()[i].0 == k;
                assert(t[i + 1].0 == k);
            }
        }
        assert(forall|i: int| 0 <= i < bd.len() ==> #[trigger] b[i + 1] == bd[i]);
        assert(forall|i: int|
            0 <= i < t.drop_first().len() ==> #[trigger] t.drop_first()[i] == t[i + 1]);
        assert(tbl_count(b, k) == tbl_count(bd, k));
        assert(tbl_count(t, k) == tbl_count(t.drop_first(), k));
        assert(forall|k2: Seq<char>|
            k2 != k ==> #[trigger] tbl_count(b, k2) == (if t[0].0 == k2 {
                t[0].1
            } else {
                0
            }) + tbl_count(bd, k2));
        assert(tbl_total(b) == t[0].1 + tbl_total(bd));
        if tbl_contains(t, k) {
            assert forall|i: int| 0 <= i < t.len() implies tbl_keys(b)[i] == tbl_keys(t)[i] by {
                if i > 0 {
                    assert(tbl_keys(bd)[i - 1] == tbl_keys(t.drop_first())[i - 1]);
                }
            }
            assert(tbl_keys(b) =~= tbl_keys(t));
        } else {
            assert forall|i: int|
                0 <= i < t.len() + 1 implies tbl_keys(b)[i] == tbl_keys(t).push(k)[i] by {
                if i > 0 {
                    assert(tbl_keys(bd)[i - 1] == tbl_keys(t.drop_first()).push(k)[i - 1]);
                }
            }
            assert(tbl_keys(b) =~= tbl_keys(t).push(k));
        }
        assert(forall|k2: Seq<char>|
            #[trigger] tbl_contains(b, k2) <==> (tbl_contains(t, k2) || k2 == k)) by {
            assert forall|k2: Seq<char>| #[trigger] tbl_contains(b, k2) implies (tbl_contains(
                t,
                k2,
            ) || k2 == k) by {
                let i = choose|i: int| 0 <= i < b.len() && b[i].0 == k2;
                if i == 0 {
                    assert(t[0].0 == k2);
                } else {
                    assert(tbl_contains(bd, k2));
                    if tbl_contains(t.drop_first(), k2) {
                        let j = choose|j: int|
                            0 <= j < t.drop_first().len() && t.drop_first()[j].0 == k2;
                        assert(t[j + 1].0 == k2);
                    }
                }
            }
            assert forall|k2: Seq<char>| (tbl_contains(t, k2) || k2 == k) implies #[trigger]
                tbl_contains(b, k2) by {
                if tbl_contains(t, k2) {
                    let i = choose|i: int| 0 <= i < t.len() && t[i].0 == k2;
                    if i == 0 {
                        assert(b[0].0 == k2);
                    } else {
                        assert(t.drop_first()[i - 1].0 == k2);
                        assert(tbl_contains(bd, k2));
                        let j = choose|j: int| 0 <= j < bd.len() && bd[j].0 == k2;
                        assert(b[j + 1].0 == k2);
                    }
                } else {
                    assert(tbl_contains(bd, k));
                    let j = choose|j: int| 0 <= j < bd.len() && bd[j].0 == k;
                    assert(b[j + 1].0 == k);
                }
            }
        }
        if tbl_wf(t) {
            assert(tbl_wf(t.drop_first())) by {
                assert(forall|i: int|
                    0 <= i < t.drop_first().len() ==> #[trigger] t.drop_first()[i].0 == t[i
                        + 1].0);
            }
            assert(tbl_wf(bd));
            assert forall|i: int, j: int| 0 <= i < j < b.len() implies b[i].0 != b[j].0 by {
                if i == 0 {
                    if b[j].0 == t[0].0 {
                        assert(bd[j - 1].0 == t[0].0);
                        assert(tbl_contains(bd, t[0].0));
                        // so `t[0].0` is either in the tail of `t` or equals `k`;
                        // both contradict uniqueness of `t[0].0`
                        if tbl_contains(t.drop_first(), t[0].0) {
                            let m = choose|m: int|
                                0 <= m < t.drop_first().len() && t.drop_first()[m].0 == t[0].0;
                            assert(t[m + 1].0 == t[0].0);
                            assert(false);
                        } else {
                            assert(t[0].0 == k);
                            assert(false);
                        }
                    }
                } else {
                    assert(bd[i - 1].0 != bd[j - 1].0);
                }
            }
        }
    }
}

/// A key that no pair carries has count zero.
pub proof fn lemma_absent_count_zero(t: Tbl, k: Seq<char>)
    requires
        !tbl_contains(t, k),
    ensures
        tbl_count(t, k) == 0,
    decreases t.len(),
{
    if t.len() > 0 {
        assert(t[0].0 != k);
        assert(!tbl_contains(t.drop_first(), k)) by {
            if tbl_contains(t.drop_first(), k) {
                let i = choose|i: int| 0 <= i < t.drop_first().len() && t.drop_first()[i].0 == k;
                assert(t[i + 1].0 == k);
            }
        }
        lemma_absent_count_zero(t.drop_first(), k);
    }
}

/// No single count exceeds the total.
pub proof fn lemma_count_le_total(t: Tbl, k: Seq<char>)
    ensures
        tbl_count(t, k) <= tbl_total(t),
    decreases t.len(),
{
    if t.len() > 0 {
        lemma_count_le_total(t.drop_first(), k);
    }
}

/// In a duplicate-free table the first-match lookup returns exactly the
/// summed count of a present key, and nothing for an absent one.
pub proof fn lemma_lookup_count(t: Tbl, k: Seq<char>)
    requires
        tbl_wf(t),
    ensures
        tbl_contains(t, k) ==> tbl_lookup(t, k) == Some(tbl_count(t, k)),
        !tbl_contains(t, k) ==> tbl_lookup(t, k) is None,
    decreases t.len(),
{
    if t.len() == 0 {
    } else if t[0].0 == k {
        assert(!tbl_contains(t.drop_first(), k)) by {
            if tbl_contains(t.drop_first(), k) {
                let i = choose|i: int| 0 <= i < t.drop_first().len() && t.drop_first()[i].0 == k;
                assert(t[i + 1].0 == k);
            }
        }
        lemma_absent_count_zero(t.drop_first(), k);
        assert(tbl_contains(t, k)) by {
            assert(t[0].0 == k);
        }
    } else {
        assert(tbl_wf(t.drop_first())) by {
            assert(forall|i: int|
                0 <= i < t.drop_first().len() ==> #[trigger] t.drop_first()[i].0 == t[i + 1].0);
        }
        lemma_lookup_count(t.drop_first(), k);
        assert(tbl_contains(t, k) <==> tbl_contains(t.drop_first(), k)) by {
            if tbl_contains(t, k) {
                let i = choose|i: int| 0 <= i < t.len() && t[i].0 == k;
                assert(i != 0);
                assert(t.drop_first()[i - 1].0 == k);
            }
            if tbl_contains(t.drop_first(), k) {
                let i = choose|i: int| 0 <= i < t.drop_first().len() && t.drop_first()[i].0 == k;
                assert(t[i + 1].0 == k);
            }
        }
    }
}

/// A pair that carries `k` contributes no more than the summed count of `k`.
proof fn lemma_entry_le_count(t: Tbl, k: Seq<char>, i: int)
    requires
        0 <= i < t.len(),
        t[i].0 == k,
    ensures
        t[i].1 <= tbl_count(t, k),
    decreases t.len(),
{
    if i > 0 {
        lemma_entry_le_count(t.drop_first(), k, i - 1);
    }
}

/// When the first pair carrying `k` stands at index `i`, a recorded
/// occurrence is exactly an update of that pair.
proof fn lemma_first_match_bump(t: Tbl, k: Seq<char>, i: int)
    requires
        0 <= i < t.len(),
        t[i].0 == k,
        forall|j: int| 0 <= j < i ==> t[j].0 != k,
    ensures
        tbl_bump(t, k) == t.update(i, (t[i].0, (t[i].1 + 1) as nat)),
    decreases i,
{
    if i == 0 {
        assert(tbl_bump(t, k) =~= t.update(0, (t[0].0, (t[0].1 + 1) as nat)));
    } else {
        assert(t.drop_first()[i - 1] == t[i]);
        assert(forall|j: int| 0 <= j < i - 1 ==> #[trigger] t.drop_first()[j].0 == t[j + 1].0);
        lemma_first_match_bump(t.drop_first(), k, i - 1);
        assert(tbl_bump(t, k) =~= t.update(i, (t[i].0, (t[i].1 + 1) as nat)));
    }
}

/// When no pair carries `k`, a recorded occurrence is exactly an append.
proof fn lemma_no_match_bump(t: Tbl, k: Seq<char>)
    requires
        !tbl_contains(t, k),
    ensures
        tbl_bump(t, k) == t.push((k, 1 as nat)),
    decreases t.len(),
{
    if t.len() == 0 {
        assert(tbl_bump(t, k) =~= t.push((k, 1 as nat)));
    } else {
        assert(t[0].0 != k);
        assert(!tbl_contains(t.drop_first(), k)) by {
            if tbl_contains(t.drop_first(), k) {
                let i = choose|i: int| 0 <= i < t.drop_first().len() && t.drop_first()[i].0 == k;
                assert(t[i + 1].0 == k);
            }
        }
        lemma_no_match_bump(t.drop_first(), k);
        assert(tbl_bump(t, k) =~= t.push((k, 1 as nat)));
    }
}

/// A mapping from string keys to occurrence counts that remembers the order
/// in which keys were first seen.
pub struct CountTable {
    pub entries: Vec<(String, usize)>,
}

impl View for CountTable {
    type V = Tbl;

    open spec fn view(&self) -> Tbl {
        self.entries@.map_values(|p: (String, usize)| (p.0@, p.1 as nat))
    }
}

impl CountTable {
    /// An empty table.
    pub fn new() -> (t: CountTable)
        ensures
            t@ == Seq::<(Seq<char>, nat)>::empty(),
    {
        let t = CountTable { entries: Vec::new() };
        proof {
            assert(t@ =~= Seq::<(Seq<char>, nat)>::empty());
        }
        t
    }

    /// Record one more occurrence of `key`; reports whether the key was
    /// new to the table.
    pub(crate) fn bump(&mut self, key: &String) -> (was_new: bool)
        requires
            tbl_count(old(self)@, key@) < usize::MAX,
        ensures
            final(self)@ == tbl_bump(old(self)@, key@),
            was_new == !tbl_contains(old(self)@, key@),
    {
        let n = self.entries.len();
        let mut i: usize = 0;
        while i < n
            invariant
                n == self.entries@.len(),
                i <= n,
                *self == *old(self),
                tbl_count(old(self)@, key@) < usize::MAX,
                forall|j: int| 0 <= j < i ==> self.entries@[j].0@ != key@,
            decreases n - i,
        {
            if self.entries[i].0 == *key {
                let c = self.entries[i].1;
                proof {
                    assert(self@[i as int] == (self.entries@[i as int].0@,
                        self.entries@[i as int].1 as nat));
                    assert(self@[i as int].0 == key@);
                    lemma_entry_le_count(self@, key@, i as int);
                    assert(c as nat <= tbl_count(self@, key@));
                    assert(tbl_count(self@, key@) == tbl_count(old(self)@, key@));
                    assert(c < usize::MAX);
                    lemma_first_match_bump(self@, key@, i as int);
                }
                let elem = &mut self.entries[i];
                elem.1 = c + 1;
                proof {
                    assert(self@ =~= tbl_bump(old(self)@, key@));
                }
                return false;
            }
            i += 1;
        }
        proof {
            assert(!tbl_contains(self@, key@));
            lemma_no_match_bump(self@, key@);
        }
        self.entries.push((key.clone(), 1));
        proof {
            assert(self@ =~= tbl_bump(old(self)@, key@));
        }
        true
    }

    /// The count recorded under `key`, if the key has been seen. On a
    /// duplicate-free table the answer is exactly the key's count.
    pub fn get(&self, key: &str) -> (r: Option<usize>)
        ensures
            r matches Some(c) ==> tbl_lookup(self@, key@) == Some(c as nat),
            r is None ==> tbl_lookup(self@, key@) is None,
            tbl_wf(self@) ==> (r matches Some(c) ==> tbl_contains(self@, key@) && c as nat
                == tbl_count(self@, key@)),
            tbl_wf(self@) ==> (r is None ==> !tbl_contains(self@, key@)),
    {
        proof {
            if tbl_wf(self@) {
                lemma_lookup_count(self@, key@);
            }
        }
        let sought: String = key.to_owned();
        let n = self.entries.len();
        proof {
            assert(self@.skip(0) =~= self@);
        }
        let mut i: usize = 0;
        while i < n
            invariant
                n == self.entries@.len(),
                i <= n,
                sought@ == key@,
                tbl_lookup(self@, key@) == tbl_lookup(self@.skip(i as int), key@),
            decreases n - i,
        {
            proof {
                assert(self@.skip(i as int)[0] == self@[i as int]);
            }
            if self.entries[i].0 == sought {
                let c = self.entries[i].1;
                proof {
                    assert(self@[i as int].0 == key@);
                    assert(tbl_lookup(self@.skip(i as int), key@) == Some(self@[i as int].1));
                    assert(self@[i as int].1 == c as nat);
                    if tbl_wf(self@) {
                        lemma_lookup_count(self@, key@);
                    }
                }
                return Some(c);
            }
            proof {
                assert(self@.skip(i as int).drop_first() =~= self@.skip(i as int + 1));
            }
            i += 1;
        }
        proof {
            assert(self@.skip(n as int).len() == 0);
        }
        None
    }
}

} // verus!
