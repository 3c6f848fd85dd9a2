use serde_json::Value;
use webext_sync::incoming::{plan_incoming, IncomingAction, IncomingState};
use webext_sync::json::json_map_from_text;

fn map(text: &str) -> serde_json::Map<String, Value> {
    match serde_json::from_str::<Value>(text) {
        Ok(Value::Object(m)) => m,
        _ => panic!("not an object: {}", text),
    }
}

#[test]
fn plan_incoming_only_with_data_takes_remote() {
    let action = plan_incoming(IncomingState::IncomingOnly { incoming: Some(map(r#"{"k":1}"#)) });
    assert_eq!(action, IncomingAction::TakeRemote { data: map(r#"{"k":1}"#) });
}

#[test]
fn plan_incoming_only_without_data_deletes_locally() {
    let action = plan_incoming(IncomingState::IncomingOnly { incoming: None });
    assert_eq!(action, IncomingAction::DeleteLocally);
}

#[test]
fn plan_not_local_with_data_takes_remote() {
    let action = plan_incoming(IncomingState::NotLocal {
        incoming: Some(map(r#"{"k":1}"#)),
        mirror: Some(map(r#"{"k":0}"#)),
    });
    assert_eq!(action, IncomingAction::TakeRemote { data: map(r#"{"k":1}"#) });
}

#[test]
fn plan_not_local_without_data_is_same() {
    let action =
        plan_incoming(IncomingState::NotLocal { incoming: None, mirror: Some(map(r#"{"k":0}"#)) });
    assert_eq!(action, IncomingAction::Same);
    let action = plan_incoming(IncomingState::NotLocal { incoming: None, mirror: None });
    assert_eq!(action, IncomingAction::Same);
}

#[test]
fn plan_has_local_both_with_data_merges_two_way() {
    let action = plan_incoming(IncomingState::HasLocal {
        incoming: Some(map(r#"{"i":1,"c":"incoming"}"#)),
        local: Some(map(r#"{"l":2,"c":"local"}"#)),
    });
    assert_eq!(action, IncomingAction::Merge { data: map(r#"{"i":1,"l":2,"c":"incoming"}"#) });
}

#[test]
fn plan_has_local_incoming_data_and_local_tombstone_deletes_locally() {
    let action = plan_incoming(IncomingState::HasLocal {
        incoming: Some(map(r#"{"i":1}"#)),
        local: None,
    });
    assert_eq!(action, IncomingAction::DeleteLocally);
}

#[test]
fn plan_has_local_incoming_deletion_takes_the_local_data() {
    let action =
        plan_incoming(IncomingState::HasLocal { incoming: None, local: Some(map(r#"{"l":2}"#)) });
    assert_eq!(action, IncomingAction::TakeRemote { data: map(r#"{"l":2}"#) });
}

#[test]
fn plan_has_local_nothing_anywhere_is_same() {
    let action = plan_incoming(IncomingState::HasLocal { incoming: None, local: None });
    assert_eq!(action, IncomingAction::Same);
}

#[test]
fn plan_everywhere_all_with_data_merges_three_way() {
    let action = plan_incoming(IncomingState::Everywhere {
        incoming: Some(map(r#"{"a":9,"b":2}"#)),
        mirror: Some(map(r#"{"a":1,"b":2}"#)),
        local: Some(map(r#"{"a":1,"b":3}"#)),
    });
    assert_eq!(action, IncomingAction::Merge { data: map(r#"{"a":9,"b":3}"#) });
}

#[test]
fn plan_everywhere_without_mirror_data_merges_two_way() {
    let action = plan_incoming(IncomingState::Everywhere {
        incoming: Some(map(r#"{"a":9}"#)),
        mirror: None,
        local: Some(map(r#"{"b":3}"#)),
    });
    assert_eq!(action, IncomingAction::Merge { data: map(r#"{"a":9,"b":3}"#) });
}

#[test]
fn plan_everywhere_without_local_data_takes_remote() {
    let action = plan_incoming(IncomingState::Everywhere {
        incoming: Some(map(r#"{"a":9}"#)),
        mirror: Some(map(r#"{"a":1}"#)),
        local: None,
    });
    assert_eq!(action, IncomingAction::TakeRemote { data: map(r#"{"a":9}"#) });
    let action = plan_incoming(IncomingState::Everywhere {
        incoming: Some(map(r#"{"a":9}"#)),
        mirror: None,
        local: None,
    });
    assert_eq!(action, IncomingAction::TakeRemote { data: map(r#"{"a":9}"#) });
}

#[test]
fn plan_everywhere_incoming_deletion_deletes_locally() {
    let action = plan_incoming(IncomingState::Everywhere {
        incoming: None,
        mirror: Some(map(r#"{"x":1}"#)),
        local: Some(map(r#"{"x":2}"#)),
    });
    assert_eq!(action, IncomingAction::DeleteLocally);
    let action =
        plan_incoming(IncomingState::Everywhere { incoming: None, mirror: None, local: None });
    assert_eq!(action, IncomingAction::DeleteLocally);
}

#[test]
fn json_map_from_text_reads_objects_only() {
    assert_eq!(json_map_from_text(&Some(r#"{"foo":"bar"}"#.to_string())), Some(map(r#"{"foo":"bar"}"#)));
    assert_eq!(json_map_from_text(&Some("{}".to_string())), Some(map("{}")));
    assert_eq!(json_map_from_text(&None), None);
    assert_eq!(json_map_from_text(&Some("not json".to_string())), None);
    assert_eq!(json_map_from_text(&Some("".to_string())), None);
    assert_eq!(json_map_from_text(&Some("[1,2]".to_string())), None);
    assert_eq!(json_map_from_text(&Some("\"text\"".to_string())), None);
    assert_eq!(json_map_from_text(&Some("17".to_string())), None);
    assert_eq!(json_map_from_text(&Some("null".to_string())), None);
    assert_eq!(json_map_from_text(&Some(r#"{"foo":"bar"} trailing"#.to_string())), None);
}
