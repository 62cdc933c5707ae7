use raft_store::store::RaftStore;
use raft_store::types::{
    ClientRequest, ClientResponse, EntryPayload, HardState, IndexOutcome, LogEntry,
    MembershipConfig, Message, NodeState, StoreError,
};

fn blank_entry(index: u64, term: u64) -> LogEntry {
    LogEntry { index, term, payload: EntryPayload::Blank }
}

fn normal_entry(index: u64, term: u64, serial: u64) -> LogEntry {
    LogEntry {
        index,
        term,
        payload: EntryPayload::Normal {
            request: ClientRequest {
                serial,
                message: Message::ClearAllDocuments { index_uid: "movies".to_string() },
            },
        },
    }
}

fn fresh_store() -> RaftStore {
    RaftStore::new(1, "snapshots".to_string()).unwrap()
}

#[test]
fn initial_state_on_empty_store() {
    let mut store = fresh_store();
    let st = store.get_initial_state().unwrap();
    assert_eq!(st.last_log_index, 0);
    assert_eq!(st.last_log_term, 0);
    assert_eq!(st.last_applied_log, 0);
    assert_eq!(st.hard_state, HardState { current_term: 0, voted_for: None });
    assert_eq!(st.membership.members, vec![1]);
    assert_eq!(st.membership.members_after_consensus, None);
    // The synthesized hard state was persisted: a second read takes the
    // ordinary branch and reports the same values.
    let st2 = store.get_initial_state().unwrap();
    assert_eq!(st2.hard_state, st.hard_state);
    assert_eq!(st2.last_log_index, 0);
}

#[test]
fn truncate_then_append_new_term() {
    let mut store = fresh_store();
    let _ = store.get_initial_state().unwrap();
    store.append_entry_to_log(&blank_entry(1, 1)).unwrap();
    store.append_entry_to_log(&blank_entry(2, 1)).unwrap();
    store.append_entry_to_log(&blank_entry(3, 2)).unwrap();
    store.delete_logs_from(2, None).unwrap();
    store.append_entry_to_log(&blank_entry(2, 3)).unwrap();
    let st = store.get_initial_state().unwrap();
    assert_eq!(st.last_log_index, 2);
    assert_eq!(st.last_log_term, 3);
    assert!(store.get_log_entries(3, 3).unwrap().is_empty());
    let at2 = store.get_log_entries(2, 2).unwrap();
    assert_eq!(at2.len(), 1);
    assert_eq!(at2[0].term, 3);
}

#[test]
fn overwrite_at_same_index_wins() {
    let mut store = fresh_store();
    store.append_entry_to_log(&blank_entry(1, 1)).unwrap();
    store.delete_logs_from(1, None).unwrap();
    store.append_entry_to_log(&blank_entry(1, 2)).unwrap();
    let at1 = store.get_log_entries(1, 1).unwrap();
    assert_eq!(at1.len(), 1);
    assert_eq!(at1[0].term, 2);
}

#[test]
fn compaction_replaces_prefix_with_pointer() {
    let mut store = fresh_store();
    let mut entries = Vec::new();
    for i in 1..=10u64 {
        entries.push(normal_entry(i, 1, i));
    }
    store.replicate_to_log(&entries).unwrap();
    for i in 1..=7u64 {
        let req = ClientRequest {
            serial: i,
            message: Message::ClearAllDocuments { index_uid: "movies".to_string() },
        };
        let resp = store
            .apply_entry_to_state_machine(i, &req, IndexOutcome::TaskId(i))
            .unwrap();
        assert_eq!(resp, ClientResponse::UpdateResponse(Ok(i)));
    }
    let snap = store.do_log_compaction(5).unwrap();
    assert_eq!(snap.index, 5);
    assert_eq!(snap.term, 1);
    assert_eq!(snap.id, "snapshot-7".to_string());
    assert_eq!(snap.path, "snapshots/snapshot-7.snap".to_string());
    let all = store.get_log_entries(0, 20).unwrap();
    assert_eq!(all.len(), 6);
    assert_eq!(all[0].index, 5);
    match &all[0].payload {
        EntryPayload::SnapshotPointer { id, .. } => assert_eq!(id, &snap.id),
        other => panic!("expected a snapshot pointer, got {:?}", other),
    }
    for (j, idx) in (6..=10u64).enumerate() {
        assert_eq!(all[j + 1].index, idx);
        assert!(matches!(all[j + 1].payload, EntryPayload::Normal { .. }));
    }
    assert!(store.get_log_entries(4, 4).unwrap().is_empty());
    let current = store.get_current_snapshot().unwrap().unwrap();
    assert_eq!(current.index, 5);
    assert_eq!(current.id, snap.id);
}

#[test]
fn compaction_of_missing_index_is_inconsistent_log() {
    let mut store = fresh_store();
    let err = store.do_log_compaction(5).unwrap_err();
    assert_eq!(err, StoreError::InconsistentLog);
}

#[test]
fn install_snapshot_replaces_everything() {
    let mut store = fresh_store();
    let _ = store.get_initial_state().unwrap();
    let mut entries = Vec::new();
    for i in 1..=50u64 {
        entries.push(blank_entry(i, 1));
    }
    store.replicate_to_log(&entries).unwrap();
    store
        .finalize_snapshot_installation(100, 4, None, "s".to_string())
        .unwrap();
    let all = store.get_log_entries(0, 1000).unwrap();
    assert_eq!(all.len(), 1);
    assert_eq!(all[0].index, 100);
    assert_eq!(all[0].term, 4);
    match &all[0].payload {
        EntryPayload::SnapshotPointer { id, .. } => assert_eq!(id, "s"),
        other => panic!("expected a snapshot pointer, got {:?}", other),
    }
    let st = store.get_initial_state().unwrap();
    assert_eq!(st.last_log_index, 100);
    assert_eq!(st.last_log_term, 4);
    let current = store.get_current_snapshot().unwrap().unwrap();
    assert_eq!(current.index, 100);
    assert_eq!(current.term, 4);
    assert_eq!(current.id, "s".to_string());
    assert_eq!(current.path, "snapshots/s.snap".to_string());
}

#[test]
fn install_snapshot_with_retained_suffix() {
    let mut store = fresh_store();
    for i in 1..=10u64 {
        store.append_entry_to_log(&blank_entry(i, 2)).unwrap();
    }
    store
        .finalize_snapshot_installation(5, 2, Some(6), "t".to_string())
        .unwrap();
    let all = store.get_log_entries(0, 100).unwrap();
    let indices: Vec<u64> = all.iter().map(|e| e.index).collect();
    assert_eq!(indices, vec![5, 6, 7, 8, 9, 10]);
    assert!(matches!(all[0].payload, EntryPayload::SnapshotPointer { .. }));
}

#[test]
fn two_appends_both_visible() {
    let mut store = fresh_store();
    store.append_entry_to_log(&blank_entry(11, 3)).unwrap();
    store.append_entry_to_log(&blank_entry(12, 3)).unwrap();
    let all = store.get_log_entries(11, 12).unwrap();
    assert_eq!(all.len(), 2);
    assert_eq!(all[0].index, 11);
    assert_eq!(all[1].index, 12);
}

#[test]
fn create_index_error_is_a_response_value() {
    let mut store = fresh_store();
    let _ = store.get_initial_state().unwrap();
    let req = ClientRequest {
        serial: 7,
        message: Message::CreateIndex {
            uid: Some("movies".to_string()),
            primary_key: None,
        },
    };
    let entry = LogEntry {
        index: 1,
        term: 1,
        payload: EntryPayload::Normal { request: req.clone() },
    };
    store.append_entry_to_log(&entry).unwrap();
    let resp = store
        .apply_entry_to_state_machine(1, &req, IndexOutcome::Error("uid already exists".to_string()))
        .unwrap();
    assert_eq!(resp, ClientResponse::IndexUpdate(Err("uid already exists".to_string())));
    let st = store.get_initial_state().unwrap();
    assert_eq!(st.last_applied_log, 1);
    // A restart that reads the persisted watermark back skips the entry.
    let mut reopened = RaftStore::from_parts(
        1,
        "snapshots".to_string(),
        vec![entry],
        Some(st.hard_state),
        Some(st.last_applied_log),
        None,
        None,
        8,
    );
    let st2 = reopened.get_initial_state().unwrap();
    assert!(st2.last_applied_log >= 1);
}

#[test]
fn bad_document_batch_is_a_protocol_break() {
    let mut store = fresh_store();
    let req = ClientRequest {
        serial: 3,
        message: Message::DocumentAddition {
            update_query: String::new(),
            index_uid: "movies".to_string(),
            documents: "this is not a document batch".to_string(),
            partial: false,
        },
    };
    let entry = LogEntry {
        index: 1,
        term: 1,
        payload: EntryPayload::Normal { request: req.clone() },
    };
    store.append_entry_to_log(&entry).unwrap();
    let err = store
        .apply_entry_to_state_machine(1, &req, IndexOutcome::TaskId(9))
        .unwrap_err();
    assert_eq!(err, StoreError::DeserializationError);
}

#[test]
fn good_document_batch_applies() {
    let mut store = fresh_store();
    let req = ClientRequest {
        serial: 4,
        message: Message::DocumentAddition {
            update_query: String::new(),
            index_uid: "movies".to_string(),
            documents: "[{\"id\": 1, \"title\": \"Carol\"}]".to_string(),
            partial: true,
        },
    };
    let entry = LogEntry {
        index: 2,
        term: 1,
        payload: EntryPayload::Normal { request: req.clone() },
    };
    store.append_entry_to_log(&entry).unwrap();
    let resp = store
        .apply_entry_to_state_machine(2, &req, IndexOutcome::TaskId(42))
        .unwrap();
    assert_eq!(resp, ClientResponse::UpdateResponse(Ok(42)));
}

#[test]
fn bulk_apply_advances_watermark_once() {
    let mut store = fresh_store();
    let _ = store.get_initial_state().unwrap();
    let batch = vec![
        (1u64, ClientRequest { serial: 1, message: Message::DeleteIndex { index_uid: "a".to_string() } }),
        (2u64, ClientRequest { serial: 2, message: Message::DeleteIndex { index_uid: "b".to_string() } }),
        (3u64, ClientRequest { serial: 3, message: Message::DeleteIndex { index_uid: "c".to_string() } }),
    ];
    for (i, req) in &batch {
        let entry = LogEntry { index: *i, term: 1, payload: EntryPayload::Normal { request: req.clone() } };
        store.append_entry_to_log(&entry).unwrap();
    }
    store.replicate_to_state_machine(&batch).unwrap();
    let st = store.get_initial_state().unwrap();
    assert_eq!(st.last_applied_log, 3);
}

#[test]
fn bulk_apply_with_bad_batch_changes_nothing() {
    let mut store = fresh_store();
    let _ = store.get_initial_state().unwrap();
    let batch = vec![
        (1u64, ClientRequest { serial: 1, message: Message::DeleteIndex { index_uid: "a".to_string() } }),
        (2u64, ClientRequest {
            serial: 2,
            message: Message::DocumentAddition {
                update_query: String::new(),
                index_uid: "movies".to_string(),
                documents: "not json".to_string(),
                partial: false,
            },
        }),
    ];
    for (i, req) in &batch {
        let entry = LogEntry { index: *i, term: 1, payload: EntryPayload::Normal { request: req.clone() } };
        store.append_entry_to_log(&entry).unwrap();
    }
    let err = store.replicate_to_state_machine(&batch).unwrap_err();
    assert_eq!(err, StoreError::DeserializationError);
    let st = store.get_initial_state().unwrap();
    assert_eq!(st.last_applied_log, 0);
}

#[test]
fn config_change_updates_membership() {
    let mut store = fresh_store();
    let cfg = MembershipConfig { members: vec![1, 2, 3], members_after_consensus: None };
    let entry = LogEntry {
        index: 1,
        term: 1,
        payload: EntryPayload::ConfigChange { membership: cfg },
    };
    store.append_entry_to_log(&entry).unwrap();
    let got = store.get_membership_config().unwrap();
    assert_eq!(got.members, vec![1, 2, 3]);
    assert_eq!(store.state().unwrap(), NodeState::Initialized);
}

#[test]
fn batch_config_change_updates_membership() {
    let mut store = fresh_store();
    let cfg = MembershipConfig { members: vec![1, 2], members_after_consensus: Some(vec![1, 2, 4]) };
    let batch = vec![
        blank_entry(1, 1),
        LogEntry { index: 2, term: 1, payload: EntryPayload::ConfigChange { membership: cfg } },
        blank_entry(3, 1),
    ];
    store.replicate_to_log(&batch).unwrap();
    let got = store.get_membership_config().unwrap();
    assert_eq!(got.members, vec![1, 2]);
    assert_eq!(got.members_after_consensus, Some(vec![1, 2, 4]));
}

#[test]
fn lone_node_is_uninitialized() {
    let store = fresh_store();
    assert_eq!(store.state().unwrap(), NodeState::Uninitialized);
    let m = store.get_membership_config().unwrap();
    assert_eq!(m.members, vec![1]);
}

#[test]
fn save_hard_state_is_returned_on_bootstrap() {
    let mut store = fresh_store();
    let hs = HardState { current_term: 5, voted_for: Some(2) };
    store.save_hard_state(&hs).unwrap();
    let st = store.get_initial_state().unwrap();
    assert_eq!(st.hard_state, hs);
}

#[test]
fn crash_reopen_sees_committed_prefix() {
    let mut store = fresh_store();
    let committed = vec![blank_entry(1, 1), blank_entry(2, 1), blank_entry(3, 2)];
    store.replicate_to_log(&committed).unwrap();
    let before = store.get_log_entries(0, 10).unwrap();
    // The process dies; a reopen replays what stable storage holds.
    let reopened = RaftStore::from_parts(
        1,
        "snapshots".to_string(),
        committed.clone(),
        Some(HardState { current_term: 2, voted_for: None }),
        None,
        None,
        None,
        0,
    );
    let after = reopened.get_log_entries(0, 10).unwrap();
    assert_eq!(before, after);
    assert!(reopened.get_log_entries(4, 4).unwrap().is_empty());
}

#[test]
fn apply_watermark_survives_reopen() {
    let mut store = fresh_store();
    let _ = store.get_initial_state().unwrap();
    let req = ClientRequest { serial: 9, message: Message::DeleteIndex { index_uid: "a".to_string() } };
    let entry = LogEntry { index: 3, term: 1, payload: EntryPayload::Normal { request: req.clone() } };
    store.append_entry_to_log(&entry).unwrap();
    store.apply_entry_to_state_machine(3, &req, IndexOutcome::Unit).unwrap();
    let st = store.get_initial_state().unwrap();
    assert_eq!(st.last_applied_log, 3);
    let mut reopened = RaftStore::from_parts(
        1,
        "snapshots".to_string(),
        vec![entry],
        Some(st.hard_state),
        Some(st.last_applied_log),
        None,
        None,
        10,
    );
    assert!(reopened.get_initial_state().unwrap().last_applied_log >= 3);
}

#[test]
fn conflicting_append_fails_and_changes_nothing() {
    let mut store = fresh_store();
    store.append_entry_to_log(&blank_entry(1, 1)).unwrap();
    let err = store.append_entry_to_log(&blank_entry(1, 2)).unwrap_err();
    assert_eq!(err, StoreError::Conflict);
    let at1 = store.get_log_entries(1, 1).unwrap();
    assert_eq!(at1.len(), 1);
    assert_eq!(at1[0].term, 1);
    // Re-appending the very entry (same term) is accepted.
    store.append_entry_to_log(&blank_entry(1, 1)).unwrap();
}

#[test]
fn conflicting_batch_is_all_or_nothing() {
    let mut store = fresh_store();
    store.append_entry_to_log(&blank_entry(1, 1)).unwrap();
    let err = store
        .replicate_to_log(&vec![blank_entry(2, 1), blank_entry(1, 2)])
        .unwrap_err();
    assert_eq!(err, StoreError::Conflict);
    let all = store.get_log_entries(0, 10).unwrap();
    assert_eq!(all.len(), 1);
    assert_eq!(all[0].index, 1);
    // A batch that contradicts itself at one index is a conflict too.
    let err = store
        .replicate_to_log(&vec![blank_entry(5, 1), blank_entry(5, 2)])
        .unwrap_err();
    assert_eq!(err, StoreError::Conflict);
    assert!(store.get_log_entries(5, 5).unwrap().is_empty());
}

#[test]
fn snapshot_counter_restarts_above_applied_serials() {
    let hs = HardState { current_term: 1, voted_for: None };
    let mut reopened = RaftStore::from_parts(
        1,
        "snapshots".to_string(),
        vec![normal_entry(1, 1, 41)],
        Some(hs),
        Some(1),
        None,
        None,
        7,
    );
    let (id, _) = reopened.create_snapshot().unwrap();
    assert_eq!(id, "snapshot-41".to_string());
    // The persisted counter wins when it is the larger.
    let mut other = RaftStore::from_parts(
        1,
        "snapshots".to_string(),
        vec![normal_entry(1, 1, 3)],
        Some(hs),
        Some(1),
        None,
        None,
        9,
    );
    let (id, _) = other.create_snapshot().unwrap();
    assert_eq!(id, "snapshot-9".to_string());
}

#[test]
fn snapshot_names_advance() {
    let mut store = fresh_store();
    assert!(store.get_current_snapshot().unwrap().is_none());
    let (id0, path0) = store.create_snapshot().unwrap();
    let (id1, _) = store.create_snapshot().unwrap();
    assert_eq!(id0, "snapshot-0".to_string());
    assert_eq!(id1, "snapshot-1".to_string());
    assert_eq!(path0, "snapshots/snapshot-0.snap".to_string());
    store.append_entry_to_log(&blank_entry(1, 1)).unwrap();
    let snap = store.do_log_compaction(1).unwrap();
    assert_eq!(snap.id, "snapshot-2".to_string());
}

#[test]
fn delete_logs_from_with_stop_is_half_open() {
    let mut store = fresh_store();
    for i in 1..=5u64 {
        store.append_entry_to_log(&blank_entry(i, 1)).unwrap();
    }
    store.delete_logs_from(2, Some(4)).unwrap();
    let all = store.get_log_entries(0, 10).unwrap();
    let indices: Vec<u64> = all.iter().map(|e| e.index).collect();
    assert_eq!(indices, vec![1, 4, 5]);
}

#[test]
fn update_and_settings_responses() {
    let store = fresh_store();
    let resp = store
        .apply_message(
            &Message::UpdateIndex { index_uid: "m".to_string(), update: "u".to_string() },
            IndexOutcome::Meta("meta".to_string()),
        )
        .unwrap();
    assert_eq!(resp, ClientResponse::IndexUpdate(Ok("meta".to_string())));
    let resp = store
        .apply_message(
            &Message::SettingsUpdate { index_uid: "m".to_string(), update: "u".to_string() },
            IndexOutcome::Error("unknown uid".to_string()),
        )
        .unwrap();
    assert_eq!(resp, ClientResponse::UpdateResponse(Err("unknown uid".to_string())));
    let resp = store
        .apply_message(
            &Message::DocumentsDeletion { index_uid: "m".to_string(), ids: vec!["1".to_string()] },
            IndexOutcome::TaskId(5),
        )
        .unwrap();
    assert_eq!(resp, ClientResponse::UpdateResponse(Ok(5)));
    let resp = store
        .apply_message(&Message::DeleteIndex { index_uid: "m".to_string() }, IndexOutcome::Unit)
        .unwrap();
    assert_eq!(resp, ClientResponse::DeleteIndex(Ok(())));
}
