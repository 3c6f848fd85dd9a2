use std::cell::Cell;
use serde_json::Value;
use webext_sync::error::Error;
use webext_sync::incoming::{
    apply_action, apply_actions, get_incoming, plan_all, stage_incoming, IncomingAction,
    IncomingItem, IncomingState,
};
use webext_sync::payload::ServerPayload;
use webext_sync::signal::{Interruptee, NeverInterrupts};
use webext_sync::rows::{LocalRow, MirrorRow, StagingRow};
use webext_sync::store::{Store, Transaction};

fn json_map(text: &str) -> serde_json::Map<String, Value> {
    match serde_json::from_str::<Value>(text) {
        Ok(Value::Object(m)) => m,
        _ => panic!("not an object: {}", text),
    }
}

fn payload(guid: &str, ext_id: &str, data: Option<&str>) -> ServerPayload {
    ServerPayload {
        guid: guid.to_string(),
        ext_id: ext_id.to_string(),
        data: data.map(|d| d.to_string()),
        deleted: data.is_none(),
        last_modified: 0,
    }
}

fn staged(guid: &str, ext_id: &str, data: Option<&str>) -> StagingRow {
    StagingRow { guid: guid.to_string(), ext_id: ext_id.to_string(), data: data.map(|d| d.to_string()) }
}

fn local(ext_id: &str, data: Option<&str>, counter: i32) -> LocalRow {
    LocalRow { ext_id: ext_id.to_string(), data: data.map(|d| d.to_string()), sync_change_counter: counter }
}

fn new_tx() -> Transaction {
    Store::new().begin_tx()
}

/// Fires at the poll with the given number, counted from zero, and from then on.
struct FiresAtPoll {
    polls: Cell<usize>,
    at: usize,
}

impl Interruptee for FiresAtPoll {
    fn was_interrupted(&self) -> bool {
        let poll = self.polls.get();
        self.polls.set(poll + 1);
        poll >= self.at
    }
}

#[test]
fn test_incoming_populates_staging() {
    let db = Store::new();
    let mut tx = db.begin_tx();

    let mut data = serde_json::Map::new();
    data.insert("foo".to_string(), Value::String("bar".to_string()));
    let incoming = vec![ServerPayload {
        guid: "guidAAAAAAAA".to_string(),
        last_modified: 0,
        ext_id: "ext1@example.com".to_string(),
        data: Some(Value::Object(data).to_string()),
        deleted: false,
    }];

    stage_incoming(&mut tx, incoming, &NeverInterrupts).unwrap();
    // check staging table
    assert_eq!(tx.staging_rows().len(), 1);
    assert_eq!(
        tx.staging_rows()[0],
        staged("guidAAAAAAAA", "ext1@example.com", Some(r#"{"foo":"bar"}"#))
    );
}

#[test]
fn test_fetch_incoming_state() {
    let db = Store::new();
    let mut tx = db.begin_tx();

    // Start with an item just in staging.
    tx.replace_staging(staged("guid", "ext_id", Some(r#"{"foo":"bar"}"#)));

    let incoming = get_incoming(&tx);
    assert_eq!(incoming.len(), 1);
    assert_eq!(incoming[0].0, IncomingItem::new("guid".to_string(), "ext_id".to_string()));
    assert_eq!(
        incoming[0].1,
        IncomingState::IncomingOnly { incoming: Some(json_map(r#"{"foo": "bar"}"#)) }
    );

    // Add the same item to the mirror.
    tx.replace_mirror(MirrorRow {
        guid: "guid".to_string(),
        ext_id: "ext_id".to_string(),
        data: Some(r#"{"foo":"new"}"#.to_string()),
        server_modified: 0,
    });
    let incoming = get_incoming(&tx);
    assert_eq!(incoming.len(), 1);
    assert_eq!(
        incoming[0].1,
        IncomingState::NotLocal {
            incoming: Some(json_map(r#"{"foo": "bar"}"#)),
            mirror: Some(json_map(r#"{"foo": "new"}"#)),
        }
    );

    // and finally the data itself, through a local write
    tx.write_local("ext_id".to_string(), Some(r#"{"foo":"local"}"#.to_string()));
    let incoming = get_incoming(&tx);
    assert_eq!(incoming.len(), 1);
    assert_eq!(
        incoming[0].1,
        IncomingState::Everywhere {
            incoming: Some(json_map(r#"{"foo": "bar"}"#)),
            local: Some(json_map(r#"{"foo": "local"}"#)),
            mirror: Some(json_map(r#"{"foo": "new"}"#)),
        }
    );
}

// Like test_fetch_incoming_state, but check NULLs are handled correctly.
#[test]
fn test_fetch_incoming_state_nulls() {
    let db = Store::new();
    let mut tx = db.begin_tx();

    // Start with an item just in staging.
    tx.replace_staging(staged("guid", "ext_id", None));

    let incoming = get_incoming(&tx);
    assert_eq!(incoming.len(), 1);
    assert_eq!(incoming[0].1, IncomingState::IncomingOnly { incoming: None });

    // Add the same item to the mirror.
    tx.replace_mirror(MirrorRow {
        guid: "guid".to_string(),
        ext_id: "ext_id".to_string(),
        data: None,
        server_modified: 0,
    });
    let incoming = get_incoming(&tx);
    assert_eq!(incoming.len(), 1);
    assert_eq!(incoming[0].1, IncomingState::NotLocal { incoming: None, mirror: None });

    tx.replace_local(local("ext_id", None, 0));
    let incoming = get_incoming(&tx);
    assert_eq!(incoming.len(), 1);
    assert_eq!(
        incoming[0].1,
        IncomingState::Everywhere { incoming: None, local: None, mirror: None }
    );
}

#[test]
fn get_incoming_joins_mirror_by_guid_and_local_by_extension() {
    let mut tx = new_tx();
    tx.replace_staging(staged("g-new", "ext", Some(r#"{"s":1}"#)));
    // A mirror row of the same extension under another guid is not the record's mirror row.
    tx.replace_mirror(MirrorRow {
        guid: "g-old".to_string(),
        ext_id: "ext".to_string(),
        data: Some(r#"{"m":1}"#.to_string()),
        server_modified: 5,
    });
    tx.replace_local(local("ext", Some(r#"{"l":1}"#), 2));
    tx.replace_local(local("other", Some(r#"{"o":1}"#), 0));
    let incoming = get_incoming(&tx);
    assert_eq!(incoming.len(), 1);
    assert_eq!(incoming[0].0.guid(), "g-new");
    assert_eq!(incoming[0].0.ext_id(), "ext");
    assert_eq!(
        incoming[0].1,
        IncomingState::HasLocal {
            incoming: Some(json_map(r#"{"s":1}"#)),
            local: Some(json_map(r#"{"l":1}"#)),
        }
    );
}

#[test]
fn get_incoming_reads_corrupt_data_as_none() {
    let mut tx = new_tx();
    tx.replace_staging(staged("g1", "e1", Some("not json")));
    tx.replace_staging(staged("g2", "e2", Some("[1,2,3]")));
    tx.replace_staging(staged("g3", "e3", Some(r#"{"ok":true}"#)));
    tx.replace_mirror(MirrorRow {
        guid: "g2".to_string(),
        ext_id: "e2".to_string(),
        data: Some("\"a string\"".to_string()),
        server_modified: 0,
    });
    tx.replace_local(local("e3", Some("{broken"), 1));
    let incoming = get_incoming(&tx);
    assert_eq!(incoming.len(), 3);
    assert_eq!(incoming[0].1, IncomingState::IncomingOnly { incoming: None });
    assert_eq!(incoming[1].1, IncomingState::NotLocal { incoming: None, mirror: None });
    assert_eq!(
        incoming[2].1,
        IncomingState::HasLocal { incoming: Some(json_map(r#"{"ok":true}"#)), local: None }
    );
    let actions = plan_all(incoming);
    assert_eq!(actions[0].1, IncomingAction::DeleteLocally);
    assert_eq!(actions[1].1, IncomingAction::Same);
    assert_eq!(actions[2].1, IncomingAction::DeleteLocally);
}

#[test]
fn stage_incoming_replaces_by_guid_and_moves_the_row_to_the_end() {
    let mut tx = new_tx();
    let incoming = vec![
        payload("g1", "e1", Some(r#"{"v":1}"#)),
        payload("g2", "e2", None),
        payload("g1", "e1", Some(r#"{"v":2}"#)),
    ];
    assert_eq!(stage_incoming(&mut tx, incoming, &NeverInterrupts), Ok(()));
    assert_eq!(
        tx.staging_rows(),
        &vec![staged("g2", "e2", None), staged("g1", "e1", Some(r#"{"v":2}"#))]
    );
    assert_eq!(tx.local_rows().len(), 0);
    assert_eq!(tx.mirror_rows().len(), 0);
}

#[test]
fn stage_incoming_of_nothing_changes_nothing() {
    let mut tx = new_tx();
    tx.replace_staging(staged("g0", "e0", None));
    assert_eq!(stage_incoming(&mut tx, Vec::new(), &NeverInterrupts), Ok(()));
    assert_eq!(tx.staging_rows(), &vec![staged("g0", "e0", None)]);
}

#[test]
fn stage_incoming_interrupted_keeps_the_chunks_that_ran() {
    // Seven bind variables: two rows in a statement.
    let db = Store::with_max_variable_number(7);
    let mut tx = db.begin_tx();
    assert_eq!(tx.max_variable_number(), 7);
    let incoming = vec![
        payload("g1", "e1", None),
        payload("g2", "e2", None),
        payload("g3", "e3", None),
        payload("g4", "e4", None),
        payload("g5", "e5", None),
    ];
    // The signal fires before the fourth row is bound: the first chunk ran, the second did not.
    let signal = FiresAtPoll { polls: Cell::new(0), at: 3 };
    assert_eq!(stage_incoming(&mut tx, incoming, &signal), Err(Error::Interrupted));
    assert_eq!(tx.staging_rows(), &vec![staged("g1", "e1", None), staged("g2", "e2", None)]);
    assert_eq!(signal.polls.get(), 4);
}

#[test]
fn stage_incoming_asks_the_signal_once_for_each_row() {
    let db = Store::with_max_variable_number(3);
    let mut tx = db.begin_tx();
    let incoming =
        vec![payload("g1", "e1", None), payload("g2", "e2", None), payload("g3", "e3", None)];
    let signal = FiresAtPoll { polls: Cell::new(0), at: 100 };
    assert_eq!(stage_incoming(&mut tx, incoming, &signal), Ok(()));
    assert_eq!(signal.polls.get(), 3);
    assert_eq!(tx.staging_rows().len(), 3);
}

#[test]
fn stage_incoming_interrupted_at_once_stages_nothing() {
    let mut tx = new_tx();
    let signal = FiresAtPoll { polls: Cell::new(0), at: 0 };
    let incoming = vec![payload("g1", "e1", None)];
    assert_eq!(stage_incoming(&mut tx, incoming, &signal), Err(Error::Interrupted));
    assert_eq!(tx.staging_rows().len(), 0);
}

#[test]
fn store_default_limit_is_999() {
    assert_eq!(webext_sync::store::DEFAULT_MAX_VARIABLE_NUMBER, 999);
    assert_eq!(Store::new().begin_tx().max_variable_number(), 999);
    assert_eq!(webext_sync::incoming::VARIABLES_PER_ROW, 3);
}

#[test]
fn apply_delete_locally_removes_the_row() {
    let mut tx = new_tx();
    tx.replace_local(local("e1", Some(r#"{"x":2}"#), 1));
    tx.replace_local(local("e2", Some(r#"{"y":2}"#), 1));
    let item = IncomingItem::new("g1".to_string(), "e1".to_string());
    apply_action(&mut tx, &item, &IncomingAction::DeleteLocally);
    assert_eq!(tx.local_rows(), &vec![local("e2", Some(r#"{"y":2}"#), 1)]);
    // Deleting what is not there is no error.
    apply_action(&mut tx, &item, &IncomingAction::DeleteLocally);
    assert_eq!(tx.local_rows(), &vec![local("e2", Some(r#"{"y":2}"#), 1)]);
}

#[test]
fn apply_take_remote_writes_the_data_and_cleans_the_row() {
    let mut tx = new_tx();
    tx.replace_local(local("e1", Some(r#"{"x":2}"#), 3));
    let item = IncomingItem::new("g1".to_string(), "e1".to_string());
    apply_action(&mut tx, &item, &IncomingAction::TakeRemote { data: json_map(r#"{"b": 1, "a": [true, null]}"#) });
    assert_eq!(tx.local_rows(), &vec![local("e1", Some(r#"{"a":[true,null],"b":1}"#), 0)]);
}

#[test]
fn apply_take_remote_makes_the_row_where_there_is_none() {
    let mut tx = new_tx();
    let item = IncomingItem::new("g1".to_string(), "e1".to_string());
    apply_action(&mut tx, &item, &IncomingAction::TakeRemote { data: json_map(r#"{"k":1}"#) });
    assert_eq!(tx.local_rows(), &vec![local("e1", Some(r#"{"k":1}"#), 0)]);
}

#[test]
fn apply_merge_writes_the_data_and_raises_the_counter() {
    let mut tx = new_tx();
    tx.replace_local(local("e1", Some(r#"{"x":2}"#), 3));
    let item = IncomingItem::new("g1".to_string(), "e1".to_string());
    apply_action(&mut tx, &item, &IncomingAction::Merge { data: json_map(r#"{"x":2,"y":3}"#) });
    assert_eq!(tx.local_rows(), &vec![local("e1", Some(r#"{"x":2,"y":3}"#), 4)]);
    // Without a row there is nothing to merge into.
    let other = IncomingItem::new("g2".to_string(), "e2".to_string());
    apply_action(&mut tx, &other, &IncomingAction::Merge { data: json_map(r#"{"z":1}"#) });
    assert_eq!(tx.local_rows().len(), 1);
}

#[test]
fn apply_same_only_resets_the_counter() {
    let mut tx = new_tx();
    tx.replace_local(local("e1", Some("{ \"x\" : 2 }"), 3));
    let item = IncomingItem::new("g1".to_string(), "e1".to_string());
    apply_action(&mut tx, &item, &IncomingAction::Same);
    assert_eq!(tx.local_rows(), &vec![local("e1", Some("{ \"x\" : 2 }"), 0)]);
    let other = IncomingItem::new("g2".to_string(), "e2".to_string());
    apply_action(&mut tx, &other, &IncomingAction::Same);
    assert_eq!(tx.local_rows().len(), 1);
}

#[test]
fn apply_actions_applies_in_order() {
    let mut tx = new_tx();
    tx.replace_local(local("e1", Some(r#"{"x":2}"#), 1));
    let actions = vec![
        (IncomingItem::new("g1".to_string(), "e1".to_string()), IncomingAction::DeleteLocally),
        (
            IncomingItem::new("g2".to_string(), "e1".to_string()),
            IncomingAction::TakeRemote { data: json_map(r#"{"x":3}"#) },
        ),
        (
            IncomingItem::new("g3".to_string(), "e1".to_string()),
            IncomingAction::Merge { data: json_map(r#"{"x":4}"#) },
        ),
    ];
    assert_eq!(apply_actions(&mut tx, actions, &NeverInterrupts), Ok(()));
    assert_eq!(tx.local_rows(), &vec![local("e1", Some(r#"{"x":4}"#), 1)]);
}

#[test]
fn apply_actions_interrupted_stops_before_the_action_at_hand() {
    let mut tx = new_tx();
    tx.replace_local(local("e1", Some(r#"{"x":2}"#), 1));
    tx.replace_local(local("e2", Some(r#"{"y":2}"#), 1));
    let actions = vec![
        (IncomingItem::new("g1".to_string(), "e1".to_string()), IncomingAction::Same),
        (IncomingItem::new("g2".to_string(), "e2".to_string()), IncomingAction::DeleteLocally),
    ];
    let signal = FiresAtPoll { polls: Cell::new(0), at: 1 };
    assert_eq!(apply_actions(&mut tx, actions, &signal), Err(Error::Interrupted));
    assert_eq!(
        tx.local_rows(),
        &vec![local("e1", Some(r#"{"x":2}"#), 0), local("e2", Some(r#"{"y":2}"#), 1)]
    );
}

#[test]
fn counters_fit_looks_at_every_row() {
    let mut tx = new_tx();
    assert!(webext_sync::incoming::counters_fit(&tx, i32::MAX as usize));
    assert!(!webext_sync::incoming::counters_fit(&tx, i32::MAX as usize + 1));
    tx.replace_local(local("e1", None, 0));
    tx.replace_local(local("e2", None, i32::MAX - 2));
    assert!(webext_sync::incoming::counters_fit(&tx, 0));
    assert!(webext_sync::incoming::counters_fit(&tx, 2));
    assert!(!webext_sync::incoming::counters_fit(&tx, 3));
}

#[test]
fn incoming_from_row_tells_the_four_states_apart() {
    let s = Some(r#"{"s":1}"#.to_string());
    let m = Some(r#"{"m":1}"#.to_string());
    let l = Some("corrupt".to_string());
    let row = |mirror_exists: bool, local_exists: bool| {
        webext_sync::incoming::incoming_from_row(
            "guid".to_string(),
            "ext".to_string(),
            &s,
            mirror_exists,
            &m,
            local_exists,
            &l,
        )
    };
    assert_eq!(row(false, false).0, IncomingItem::new("guid".to_string(), "ext".to_string()));
    assert_eq!(
        row(false, false).1,
        IncomingState::IncomingOnly { incoming: Some(json_map(r#"{"s":1}"#)) }
    );
    assert_eq!(
        row(false, true).1,
        IncomingState::HasLocal { incoming: Some(json_map(r#"{"s":1}"#)), local: None }
    );
    assert_eq!(
        row(true, false).1,
        IncomingState::NotLocal {
            incoming: Some(json_map(r#"{"s":1}"#)),
            mirror: Some(json_map(r#"{"m":1}"#)),
        }
    );
    assert_eq!(
        row(true, true).1,
        IncomingState::Everywhere {
            incoming: Some(json_map(r#"{"s":1}"#)),
            mirror: Some(json_map(r#"{"m":1}"#)),
            local: None,
        }
    );
}
