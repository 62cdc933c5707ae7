//! The store's cross-operation guarantees, proved once and for all over the
//! spec-level transitions that the operations' contracts are stated with.
use vstd::prelude::*;
use crate::types::{LogEntryV, EntryPayloadV, MembershipConfigV};
use crate::log_store::{DeleteBound, delete_span_spec, del_contains};
use crate::store::{
    StoreView, store_put_log, store_replicate, compact_log_spec, install_log_spec,
    membership_or_initial, append_conflict, last_write, last_entry_info, entry_serial, max_serial,
};

verus! {

/// What a batch write leaves in the log, index by index: every entry of the
/// batch is present at its index (the last write winning), and every other
/// index is untouched. Reads after the writes return exactly this, and a
/// reopen that replays the same entries rebuilds it.
pub proof fn lemma_replicate_log(v: StoreView, es: Seq<LogEntryV>)
    ensures
        forall|k: u64| #[trigger] store_replicate(v, es).log.dom().contains(k)
            <==> v.log.dom().contains(k) || last_write(es, k) is Some,
        forall|k: u64| #[trigger] store_replicate(v, es).log.dom().contains(k)
            ==> store_replicate(v, es).log[k] == (match last_write(es, k) {
                Some(e) => e,
                None => v.log[k],
            }),
    decreases es.len(),
{
    if es.len() > 0 {
        lemma_replicate_log(store_put_log(v, es[0]), es.drop_first());
    }
}

/// Conflict resolution wins: writing an entry at `i`, truncating the log from
/// `i` on, then writing a different entry at `i` is conflict-free and leaves
/// exactly the new entry readable at `i`.
pub proof fn lemma_overwrite_after_truncate(v: StoreView, e1: LogEntryV, e2: LogEntryV, i: u64)
    requires
        e1.index == i,
        e2.index == i,
    ensures
        ({
            let v1 = store_put_log(v, e1);
            let v2 = StoreView { log: delete_span_spec(v1.log, i, DeleteBound::Unbounded), ..v1 };
            let v3 = store_put_log(v2, e2);
            &&& !append_conflict(v2, e2)
            &&& v3.log.dom().contains(i)
            &&& v3.log[i] == e2
        }),
{
}

/// After truncation from `start` on, nothing at or above `start` remains and
/// everything below is untouched.
pub proof fn lemma_truncate_tail(m: Map<u64, LogEntryV>, start: u64)
    ensures
        forall|k: u64| k >= start ==> !(#[trigger] delete_span_spec(m, start, DeleteBound::Unbounded).dom().contains(k)),
        forall|k: u64| k < start ==> {
            &&& (#[trigger] delete_span_spec(m, start, DeleteBound::Unbounded).dom().contains(k) <==> m.dom().contains(k))
            &&& (m.dom().contains(k) ==> delete_span_spec(m, start, DeleteBound::Unbounded)[k] == m[k])
        },
{
    assert forall|k: u64| k < start implies {
        &&& (#[trigger] delete_span_spec(m, start, DeleteBound::Unbounded).dom().contains(k) <==> m.dom().contains(k))
        &&& (m.dom().contains(k) ==> delete_span_spec(m, start, DeleteBound::Unbounded)[k] == m[k])
    } by {
        assert(!del_contains(start, DeleteBound::Unbounded, k));
    }
}

/// After compaction through `through`: below `through` nothing remains; at
/// `through` stands exactly the synthetic pointer; above `through` every
/// entry is exactly as it was.
pub proof fn lemma_compaction_log(m: Map<u64, LogEntryV>, through: u64, ptr: LogEntryV)
    ensures
        forall|k: u64| k < through ==> !(#[trigger] compact_log_spec(m, through, ptr).dom().contains(k)),
        compact_log_spec(m, through, ptr).dom().contains(through),
        compact_log_spec(m, through, ptr)[through] == ptr,
        forall|k: u64| k > through ==> {
            &&& (#[trigger] compact_log_spec(m, through, ptr).dom().contains(k) <==> m.dom().contains(k))
            &&& (m.dom().contains(k) ==> compact_log_spec(m, through, ptr)[k] == m[k])
        },
{
}

/// Installing a snapshot with no retained prefix leaves a log holding exactly
/// the pointer entry at the snapshot index and nothing else.
pub proof fn lemma_install_clears(m: Map<u64, LogEntryV>, index: u64, ptr: LogEntryV)
    ensures
        install_log_spec(m, None, index, ptr).dom() =~= set![index],
        install_log_spec(m, None, index, ptr)[index] == ptr,
{
    assert forall|k: u64| #[trigger] install_log_spec(m, None, index, ptr).dom().contains(k)
        implies k == index by {}
}

/// The configuration-change side effect: appending a configuration-change
/// entry makes its membership the one that membership reads return.
pub proof fn lemma_config_change_membership(v: StoreView, e: LogEntryV, cfg: MembershipConfigV)
    requires
        e.payload == (EntryPayloadV::ConfigChange { membership: cfg }),
    ensures
        store_put_log(v, e).membership == Some(cfg),
        membership_or_initial(store_put_log(v, e)) == cfg,
{
}

/// The membership a batch leaves behind: that of its last configuration
/// change, if it has one.
pub open spec fn last_config(es: Seq<LogEntryV>) -> Option<MembershipConfigV>
    decreases es.len(),
{
    if es.len() == 0 {
        None
    } else {
        match last_config(es.drop_first()) {
            Some(c) => Some(c),
            None => match es[0].payload {
                EntryPayloadV::ConfigChange { membership } => Some(membership),
                _ => None,
            },
        }
    }
}

/// The configuration-change side effect holds for batches too: after a batch
/// write, the membership slot carries the batch's last configuration change,
/// or stands as it was when the batch has none.
pub proof fn lemma_replicate_membership(v: StoreView, es: Seq<LogEntryV>)
    ensures
        store_replicate(v, es).membership == (match last_config(es) {
            Some(c) => Some(c),
            None => v.membership,
        }),
    decreases es.len(),
{
    if es.len() > 0 {
        lemma_replicate_membership(store_put_log(v, es[0]), es.drop_first());
    }
}

/// Appending entries that are not configuration changes leaves the membership
/// slot alone, and never touches the other slots.
pub proof fn lemma_put_log_frame(v: StoreView, e: LogEntryV)
    ensures
        store_put_log(v, e).id == v.id,
        store_put_log(v, e).hard_state == v.hard_state,
        store_put_log(v, e).last_applied == v.last_applied,
        store_put_log(v, e).snapshot == v.snapshot,
        store_put_log(v, e).next_serial == v.next_serial,
        store_put_log(v, e).snapshot_dir == v.snapshot_dir,
        !(e.payload is ConfigChange) ==> store_put_log(v, e).membership == v.membership,
        store_put_log(v, e).log == v.log.insert(e.index, e),
{
}

/// The applied watermark stays at or below the last log index: an applied
/// index is a committed entry's, hence in the log, and the last-entry
/// information bounds every index in it.
pub proof fn lemma_watermark_within_log(m: Map<u64, LogEntryV>, i: u64, idx: u64, term: u64)
    requires
        m.dom().contains(i),
        last_entry_info(m, idx, term),
    ensures
        i <= idx,
{
    assert(!(m.dom() =~= Set::<u64>::empty())) by {
        assert(m.dom().contains(i));
    }
}

/// The snapshot counter a rebuild computes covers every serial the replayed
/// log carries, so no snapshot name is issued twice after a restart.
pub proof fn lemma_serial_floor(es: Seq<LogEntryV>, i: int)
    requires
        0 <= i < es.len(),
    ensures
        entry_serial(es[i]) <= max_serial(es),
    decreases es.len(),
{
    if i == es.len() - 1 {
        assert(es.last() == es[i]);
    } else {
        lemma_serial_floor(es.drop_last(), i);
        assert(es.drop_last()[i] == es[i]);
    }
}

} // verus!
