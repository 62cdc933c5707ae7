//! Append-only indexed log on a sorted vector, viewed as a finite map from
//! index to entry. Every operation's contract is stated over that map.
use vstd::prelude::*;
use crate::types::{LogEntry, LogEntryV};

verus! {

/// Entries sorted strictly by index: the representation invariant.
pub open spec fn wf_seq(s: Seq<LogEntry>) -> bool {
    forall|i: int, j: int| 0 <= i < j < s.len() ==> s[i].index < s[j].index
}

/// Whether some entry in `s` carries index `k`.
pub open spec fn seq_has_key(s: Seq<LogEntry>, k: u64) -> bool {
    exists|i: int| 0 <= i < s.len() && s[i].index == k
}

/// The position of the entry carrying index `k` (unique when `wf_seq` holds).
pub open spec fn key_pos(s: Seq<LogEntry>, k: u64) -> int {
    choose|i: int| 0 <= i < s.len() && s[i].index == k
}

/// The log as a map from index to entry view.
pub open spec fn log_map(s: Seq<LogEntry>) -> Map<u64, LogEntryV> {
    Map::new(|k: u64| seq_has_key(s, k), |k: u64| s[key_pos(s, k)]@)
}

/// View of a vector of entries as a sequence of entry views.
pub open spec fn entries_view(s: Seq<LogEntry>) -> Seq<LogEntryV> {
    s.map_values(|e: LogEntry| e@)
}

/// In a well-formed sequence the entry at position `i` is the only one with
/// its index, so `key_pos` finds exactly `i`.
pub proof fn lemma_pos(s: Seq<LogEntry>, i: int)
    requires
        wf_seq(s),
        0 <= i < s.len(),
    ensures
        seq_has_key(s, s[i].index),
        key_pos(s, s[i].index) == i,
        log_map(s)[s[i].index] == s[i]@,
{
    assert(seq_has_key(s, s[i].index));
    let j = key_pos(s, s[i].index);
    if j < i {
        assert(s[j].index < s[i].index);
    } else if j > i {
        assert(s[i].index < s[j].index);
    }
}

/// Removing the entry at position `i` removes exactly its key from the map.
pub proof fn lemma_map_remove(s: Seq<LogEntry>, i: int)
    requires
        wf_seq(s),
        0 <= i < s.len(),
    ensures
        wf_seq(s.remove(i)),
        log_map(s.remove(i)) == log_map(s).remove(s[i].index),
{
    let s2 = s.remove(i);
    let k0 = s[i].index;
    assert(wf_seq(s2)) by {
        assert forall|a: int, b: int| 0 <= a < b < s2.len() implies s2[a].index < s2[b].index by {
            let a1 = if a < i { a } else { a + 1 };
            let b1 = if b < i { b } else { b + 1 };
            assert(s2[a] == s[a1] && s2[b] == s[b1]);
        }
    }
    assert forall|k: u64| #[trigger] seq_has_key(s2, k) implies seq_has_key(s, k) && k != k0 by {
        let j = choose|j: int| 0 <= j < s2.len() && s2[j].index == k;
        let j1 = if j < i { j } else { j + 1 };
        assert(s2[j] == s[j1]);
        lemma_pos(s, j1);
        if k == k0 {
            lemma_pos(s, i);
        }
    }
    assert forall|k: u64| seq_has_key(s, k) && k != k0 implies #[trigger] seq_has_key(s2, k) by {
        let j = choose|j: int| 0 <= j < s.len() && s[j].index == k;
        if j < i {
            assert(s2[j] == s[j]);
        } else {
            assert(j > i);
            assert(s2[j - 1] == s[j]);
        }
    }
    assert forall|k: u64| #[trigger] seq_has_key(s2, k) implies log_map(s2)[k] == log_map(s)[k] by {
        let j = key_pos(s2, k);
        assert(0 <= j < s2.len() && s2[j].index == k);
        let j1 = if j < i { j } else { j + 1 };
        assert(s2[j] == s[j1]);
        lemma_pos(s, j1);
        lemma_pos(s2, j);
    }
    assert(log_map(s2) =~= log_map(s).remove(k0));
}

/// Inserting an entry at its sorted position adds exactly its key to the map.
pub proof fn lemma_map_insert(s: Seq<LogEntry>, p: int, e: LogEntry)
    requires
        wf_seq(s),
        0 <= p <= s.len(),
        forall|j: int| 0 <= j < p ==> s[j].index < e.index,
        forall|j: int| p <= j < s.len() ==> e.index < s[j].index,
    ensures
        wf_seq(s.insert(p, e)),
        log_map(s.insert(p, e)) == log_map(s).insert(e.index, e@),
{
    let s2 = s.insert(p, e);
    assert(wf_seq(s2)) by {
        assert forall|a: int, b: int| 0 <= a < b < s2.len() implies s2[a].index < s2[b].index by {
            if a < p { assert(s2[a] == s[a]); } else if a == p { assert(s2[a] == e); } else { assert(s2[a] == s[a - 1]); }
            if b < p { assert(s2[b] == s[b]); } else if b == p { assert(s2[b] == e); } else { assert(s2[b] == s[b - 1]); }
        }
    }
    assert forall|k: u64| #[trigger] seq_has_key(s2, k) implies seq_has_key(s, k) || k == e.index by {
        let j = choose|j: int| 0 <= j < s2.len() && s2[j].index == k;
        if j < p {
            assert(s2[j] == s[j]);
        } else if j > p {
            assert(s2[j] == s[j - 1]);
        }
    }
    assert forall|k: u64| seq_has_key(s, k) implies #[trigger] seq_has_key(s2, k) by {
        let j = choose|j: int| 0 <= j < s.len() && s[j].index == k;
        if j < p {
            assert(s2[j] == s[j]);
        } else {
            assert(s2[j + 1] == s[j]);
        }
    }
    assert(seq_has_key(s2, e.index)) by {
        assert(s2[p] == e);
    }
    assert forall|k: u64| #[trigger] seq_has_key(s2, k) implies log_map(s2)[k] == log_map(s).insert(e.index, e@)[k] by {
        let j = key_pos(s2, k);
        assert(0 <= j < s2.len() && s2[j].index == k);
        lemma_pos(s2, j);
        if j == p {
            assert(s2[j] == e);
        } else if j < p {
            assert(s2[j] == s[j]);
            lemma_pos(s, j);
        } else {
            assert(s2[j] == s[j - 1]);
            lemma_pos(s, j - 1);
        }
    }
    assert(log_map(s2) =~= log_map(s).insert(e.index, e@));
}

/// An empty sequence maps to the empty log.
pub proof fn lemma_map_empty(s: Seq<LogEntry>)
    requires
        s.len() == 0,
    ensures
        log_map(s) == Map::<u64, LogEntryV>::empty(),
{
    assert(log_map(s) =~= Map::<u64, LogEntryV>::empty());
}

/// Which indices a deletion touches: at or above `lo`, and below the bound.
#[derive(Clone, Copy, Debug, PartialEq, Eq)]
pub enum DeleteBound {
    /// No upper bound: delete everything at or above `lo`.
    Unbounded,
    /// Delete strictly below this index.
    Excl(u64),
    /// Delete up to and including this index.
    Incl(u64),
}

/// Whether index `k` falls in the deleted span `[lo, hi)` / `[lo, hi]` / `[lo, inf)`.
pub open spec fn del_contains(lo: u64, hi: DeleteBound, k: u64) -> bool {
    lo <= k && match hi {
        DeleteBound::Unbounded => true,
        DeleteBound::Excl(h) => k < h,
        DeleteBound::Incl(h) => k <= h,
    }
}

/// The log after deleting the span: the map restricted to untouched keys.
pub open spec fn delete_span_spec(m: Map<u64, LogEntryV>, lo: u64, hi: DeleteBound) -> Map<u64, LogEntryV> {
    Map::new(|k: u64| m.dom().contains(k) && !del_contains(lo, hi, k), |k: u64| m[k])
}

/// An exec test for membership in the deleted span.
fn del_hit(lo: u64, hi: DeleteBound, k: u64) -> (r: bool)
    ensures
        r == del_contains(lo, hi, k),
{
    lo <= k && match hi {
        DeleteBound::Unbounded => true,
        DeleteBound::Excl(h) => k < h,
        DeleteBound::Incl(h) => k <= h,
    }
}

/// Cutting the positions `[a, b)` out of a well-formed sequence, when exactly
/// they carry the deleted indices, yields the restricted map.
pub proof fn lemma_map_delete_span(s: Seq<LogEntry>, lo: u64, hi: DeleteBound, a: int, b: int)
    requires
        wf_seq(s),
        0 <= a <= b <= s.len(),
        forall|j: int| a <= j < b ==> del_contains(lo, hi, (#[trigger] s[j]).index),
        forall|j: int| 0 <= j < a ==> !del_contains(lo, hi, (#[trigger] s[j]).index),
        forall|j: int| b <= j < s.len() ==> !del_contains(lo, hi, (#[trigger] s[j]).index),
    ensures
        wf_seq(s.subrange(0, a) + s.subrange(b, s.len() as int)),
        log_map(s.subrange(0, a) + s.subrange(b, s.len() as int)) == delete_span_spec(log_map(s), lo, hi),
{
    let s2 = s.subrange(0, a) + s.subrange(b, s.len() as int);
    assert forall|j: int| 0 <= j < s2.len() implies s2[j] == s[if j < a { j } else { j - a + b }] by {}
    assert(wf_seq(s2)) by {
        assert forall|x: int, y: int| 0 <= x < y < s2.len() implies s2[x].index < s2[y].index by {
            let x1 = if x < a { x } else { x - a + b };
            let y1 = if y < a { y } else { y - a + b };
            assert(s2[x] == s[x1] && s2[y] == s[y1]);
        }
    }
    assert forall|k: u64| #[trigger] seq_has_key(s2, k)
        implies seq_has_key(s, k) && !del_contains(lo, hi, k) by {
        let j = choose|j: int| 0 <= j < s2.len() && s2[j].index == k;
        let j1 = if j < a { j } else { j - a + b };
        assert(s2[j] == s[j1]);
    }
    assert forall|k: u64| seq_has_key(s, k) && !del_contains(lo, hi, k)
        implies #[trigger] seq_has_key(s2, k) by {
        let j = choose|j: int| 0 <= j < s.len() && s[j].index == k;
        if j < a {
            assert(s2[j] == s[j]);
        } else {
            assert(b <= j);
            assert(s2[j - b + a] == s[j]);
        }
    }
    assert forall|k: u64| #[trigger] seq_has_key(s2, k)
        implies log_map(s2)[k] == log_map(s)[k] by {
        let j = key_pos(s2, k);
        assert(0 <= j < s2.len() && s2[j].index == k);
        let j1 = if j < a { j } else { j - a + b };
        assert(s2[j] == s[j1]);
        lemma_pos(s, j1);
        lemma_pos(s2, j);
    }
    assert(log_map(s2) =~= delete_span_spec(log_map(s), lo, hi));
}

/// The ordered log store.
pub struct LogStore {
    entries: Vec<LogEntry>,
}

impl View for LogStore {
    type V = Map<u64, LogEntryV>;

    closed spec fn view(&self) -> Map<u64, LogEntryV> {
        log_map(self.entries@)
    }
}

impl LogStore {
    /// The representation invariant: entries sorted strictly by index.
    pub closed spec fn wf(self) -> bool {
        wf_seq(self.entries@)
    }

    /// An empty log.
    pub fn new() -> (r: LogStore)
        ensures
            r.wf(),
            r@ == Map::<u64, LogEntryV>::empty(),
    {
        let r = LogStore { entries: Vec::new() };
        proof {
            lemma_map_empty(r.entries@);
        }
        r
    }

    /// Write `entry` at its own index, replacing any entry already there:
    /// the raw keyed write of the backing store. The facade's append checks
    /// the conflict rule before reaching for this.
    pub fn put(&mut self, entry: LogEntry)
        requires
            old(self).wf(),
        ensures
            final(self).wf(),
            final(self)@ == old(self)@.insert(entry.index, entry@),
    {
        let ghost s0 = self.entries@;
        let mut p: usize = 0;
        while p < self.entries.len() && self.entries[p].index < entry.index
            invariant
                self.entries@ == s0,
                p <= s0.len(),
                forall|j: int| 0 <= j < p ==> s0[j].index < entry.index,
            decreases s0.len() - p,
        {
            p = p + 1;
        }
        if p < self.entries.len() && self.entries[p].index == entry.index {
            proof {
                lemma_map_remove(s0, p as int);
            }
            self.entries.remove(p);
            let ghost s1 = self.entries@;
            proof {
                assert forall|j: int| p <= j < s1.len() implies entry.index < s1[j].index by {
                    assert(s1[j] == s0[j + 1]);
                    assert(s0[p as int].index < s0[j + 1].index);
                }
                lemma_map_insert(s1, p as int, entry);
            }
            self.entries.insert(p, entry);
            proof {
                assert(self@ =~= old(self)@.insert(entry.index, entry@));
            }
        } else {
            proof {
                assert forall|j: int| p <= j < s0.len() implies entry.index < s0[j].index by {
                    if j == p {
                        assert(!(s0[j].index < entry.index) && s0[j].index != entry.index);
                    } else {
                        assert(!(s0[p as int].index < entry.index) && s0[p as int].index != entry.index);
                        assert(s0[p as int].index < s0[j].index);
                    }
                }
                lemma_map_insert(s0, p as int, entry);
            }
            self.entries.insert(p, entry);
        }
    }

    /// Read the entry at index `k`, if present.
    pub fn get(&self, k: u64) -> (r: Option<LogEntry>)
        requires
            self.wf(),
        ensures
            match r {
                Some(e) => self@.dom().contains(k) && e@ == self@[k],
                None => !self@.dom().contains(k),
            },
    {
        let mut i: usize = 0;
        while i < self.entries.len()
            invariant
                self.wf(),
                i <= self.entries@.len(),
                forall|j: int| 0 <= j < i ==> self.entries@[j].index != k,
            decreases self.entries@.len() - i,
        {
            if self.entries[i].index == k {
                proof {
                    lemma_pos(self.entries@, i as int);
                }
                return Some(self.entries[i].clone());
            }
            i = i + 1;
        }
        proof {
            assert(!seq_has_key(self.entries@, k));
        }
        None
    }

    /// The entry with the greatest index, if the log is not empty.
    pub fn last(&self) -> (r: Option<LogEntry>)
        requires
            self.wf(),
        ensures
            match r {
                Some(e) => {
                    &&& self@.dom().contains(e@.index)
                    &&& self@[e@.index] == e@
                    &&& forall|k: u64| self@.dom().contains(k) ==> k <= e@.index
                },
                None => self@ == Map::<u64, LogEntryV>::empty(),
            },
    {
        if self.entries.len() == 0 {
            proof {
                lemma_map_empty(self.entries@);
            }
            None
        } else {
            let n = self.entries.len() - 1;
            proof {
                lemma_pos(self.entries@, n as int);
                assert forall|k: u64| self@.dom().contains(k) implies k <= self.entries@[n as int].index by {
                    let j = key_pos(self.entries@, k);
                    assert(0 <= j < self.entries@.len() && self.entries@[j].index == k);
                    if j < n {
                        assert(self.entries@[j].index < self.entries@[n as int].index);
                    }
                }
            }
            Some(self.entries[n].clone())
        }
    }

    /// All entries with index in `[start, stop]`, in increasing index order.
    pub fn range(&self, start: u64, stop: u64) -> (r: Vec<LogEntry>)
        requires
            self.wf(),
        ensures
            forall|j: int| 0 <= j < r@.len() ==> {
                &&& start <= (#[trigger] r@[j])@.index <= stop
                &&& self@.dom().contains(r@[j]@.index)
                &&& r@[j]@ == self@[r@[j]@.index]
            },
            forall|a: int, b: int| 0 <= a < b < r@.len() ==> r@[a]@.index < r@[b]@.index,
            forall|k: u64| start <= k <= stop && self@.dom().contains(k)
                ==> exists|j: int| 0 <= j < r@.len() && (#[trigger] r@[j])@.index == k,
    {
        let ghost s0 = self.entries@;
        let n = self.entries.len();
        let mut a: usize = 0;
        while a < n && self.entries[a].index < start
            invariant
                self.wf(),
                self.entries@ == s0,
                n == s0.len(),
                a <= n,
                forall|j: int| 0 <= j < a ==> (#[trigger] s0[j]).index < start,
            decreases n - a,
        {
            a = a + 1;
        }
        let mut r: Vec<LogEntry> = Vec::new();
        let mut j: usize = a;
        while j < n && self.entries[j].index <= stop
            invariant
                self.wf(),
                self.entries@ == s0,
                n == s0.len(),
                a <= j <= n,
                a < n ==> start <= s0[a as int].index,
                r@.len() == j - a,
                forall|t: int| 0 <= t < r@.len() ==> (#[trigger] r@[t])@ == s0[a + t]@,
                forall|t: int| a <= t < j ==> (#[trigger] s0[t]).index <= stop,
            decreases n - j,
        {
            r.push(self.entries[j].clone());
            j = j + 1;
        }
        proof {
            assert forall|t: int| 0 <= t < r@.len() implies {
                &&& start <= (#[trigger] r@[t])@.index <= stop
                &&& self@.dom().contains(r@[t]@.index)
                &&& r@[t]@ == self@[r@[t]@.index]
            } by {
                lemma_pos(s0, a + t);
                assert(r@[t]@ == s0[a + t]@);
                if t > 0 || !(s0[a as int].index >= start) {
                    assert(s0[a as int].index >= start || a >= s0.len());
                }
                if a + t > a {
                    assert(s0[a as int].index < s0[a + t].index);
                }
            }
            assert forall|t1: int, t2: int| 0 <= t1 < t2 < r@.len() implies r@[t1]@.index < r@[t2]@.index by {
                assert(s0[a + t1].index < s0[a + t2].index);
            }
            assert forall|k: u64| start <= k <= stop && self@.dom().contains(k)
                implies exists|t: int| 0 <= t < r@.len() && (#[trigger] r@[t])@.index == k by {
                let p = key_pos(s0, k);
                assert(0 <= p < s0.len() && s0[p].index == k);
                assert(p >= a);
                if j < n {
                    assert(s0[j as int].index > stop);
                    assert(p < j);
                }
                assert(a <= p < j);
                assert(r@[p - a]@ == s0[p]@);
            }
        }
        r
    }

    /// Delete every entry whose index lies in the given span.
    pub fn delete_span(&mut self, lo: u64, hi: DeleteBound)
        requires
            old(self).wf(),
        ensures
            final(self).wf(),
            final(self)@ == delete_span_spec(old(self)@, lo, hi),
    {
        let ghost s0 = self.entries@;
        let n = self.entries.len();
        let mut a: usize = 0;
        while a < n && !del_hit(lo, hi, self.entries[a].index)
            invariant
                self.wf(),
                self.entries@ == s0,
                n == s0.len(),
                a <= n,
                forall|j: int| 0 <= j < a ==> !del_contains(lo, hi, (#[trigger] s0[j]).index),
            decreases n - a,
        {
            a = a + 1;
        }
        let mut b: usize = a;
        while b < n && del_hit(lo, hi, self.entries[b].index)
            invariant
                self.wf(),
                self.entries@ == s0,
                n == s0.len(),
                a <= b <= n,
                forall|j: int| a <= j < b ==> del_contains(lo, hi, (#[trigger] s0[j]).index),
            decreases n - b,
        {
            b = b + 1;
        }
        proof {
            assert forall|j: int| b <= j < s0.len() implies !del_contains(lo, hi, (#[trigger] s0[j]).index) by {
                assert(a < s0.len() && del_contains(lo, hi, s0[a as int].index));
                assert(b > a);
                assert(!del_contains(lo, hi, s0[b as int].index));
                assert(lo <= s0[a as int].index);
                if j > b {
                    assert(s0[b as int].index < s0[j].index);
                }
                assert(s0[a as int].index < s0[b as int].index || b == a);
            }
        }
        let mut c: usize = 0;
        while c < b - a
            invariant
                a <= b <= n,
                n == s0.len(),
                c <= b - a,
                wf_seq(s0),
                self.entries@ == s0.subrange(0, a as int) + s0.subrange(a + c, n as int),
            decreases b - a - c,
        {
            let ghost pre = self.entries@;
            self.entries.remove(a);
            c = c + 1;
            proof {
                assert(self.entries@ =~= s0.subrange(0, a as int) + s0.subrange(a + c, n as int));
            }
        }
        proof {
            assert(self.entries@ == s0.subrange(0, a as int) + s0.subrange(b as int, n as int));
            lemma_map_delete_span(s0, lo, hi, a as int, b as int);
        }
    }

    /// Delete every entry.
    pub fn clear(&mut self)
        ensures
            final(self).wf(),
            final(self)@ == Map::<u64, LogEntryV>::empty(),
    {
        self.entries.clear();
        proof {
            lemma_map_empty(self.entries@);
        }
    }
}

} // verus!
