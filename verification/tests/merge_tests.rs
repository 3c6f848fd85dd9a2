use serde_json::Value;
use webext_sync::incoming::IncomingAction;
use webext_sync::merge::{json_same, merge};

fn object(text: &str) -> serde_json::Map<String, Value> {
    match serde_json::from_str::<Value>(text) {
        Ok(Value::Object(m)) => m,
        _ => panic!("not an object: {}", text),
    }
}

#[test]
fn merge_three_way_takes_each_side_where_only_it_changed() {
    let action = merge(
        object(r#"{"a":9,"b":2}"#),
        object(r#"{"a":1,"b":3}"#),
        Some(object(r#"{"a":1,"b":2}"#)),
    );
    assert_eq!(action, IncomingAction::Merge { data: object(r#"{"a":9,"b":3}"#) });
}

#[test]
fn merge_of_equal_objects_takes_the_remote() {
    let action = merge(
        object(r#"{"one":"one","two":"two"}"#),
        object(r#"{"two":"two","one":"one"}"#),
        Some(object(r#"{"parent_only":"parent"}"#)),
    );
    assert_eq!(action, IncomingAction::TakeRemote { data: object(r#"{"one":"one","two":"two"}"#) });
}

#[test]
fn merge_two_way_unites_the_keys() {
    let action = merge(
        object(r#"{"other_only":"other","common":"common"}"#),
        object(r#"{"ours_only":"ours","common":"common"}"#),
        None,
    );
    assert_eq!(
        action,
        IncomingAction::Merge {
            data: object(r#"{"other_only":"other","ours_only":"ours","common":"common"}"#)
        }
    );
}

#[test]
fn merge_two_way_conflict_goes_to_incoming() {
    let action = merge(object(r#"{"k":"incoming"}"#), object(r#"{"k":"local"}"#), None);
    assert_eq!(action, IncomingAction::TakeRemote { data: object(r#"{"k":"incoming"}"#) });
}

#[test]
fn merge_conflict_on_a_key_goes_to_incoming() {
    let action = merge(
        object(r#"{"other_only":"other","common":"incoming"}"#),
        object(r#"{"ours_only":"ours","common":"local"}"#),
        Some(object(r#"{"parent_only":"parent","common":"parent"}"#)),
    );
    assert_eq!(
        action,
        IncomingAction::Merge {
            data: object(r#"{"other_only":"other","ours_only":"ours","common":"incoming"}"#)
        }
    );
}

#[test]
fn merge_keeps_a_local_change_that_incoming_did_not_touch() {
    let action = merge(
        object(r#"{"other_only":"other","common":"old_value"}"#),
        object(r#"{"ours_only":"ours","common":"local"}"#),
        Some(object(r#"{"parent_only":"parent","common":"old_value"}"#)),
    );
    assert_eq!(
        action,
        IncomingAction::Merge {
            data: object(r#"{"other_only":"other","ours_only":"ours","common":"local"}"#)
        }
    );
}

#[test]
fn merge_drops_a_key_that_incoming_removed() {
    let action = merge(
        object(r#"{"other_only":"other"}"#),
        object(r#"{"common":"old_value"}"#),
        Some(object(r#"{"common":"old_value"}"#)),
    );
    assert_eq!(action, IncomingAction::TakeRemote { data: object(r#"{"other_only":"other"}"#) });
}

#[test]
fn merge_removal_by_incoming_wins_over_a_local_change() {
    let action = merge(
        object(r#"{"other_only":"other"}"#),
        object(r#"{"common":"new_value"}"#),
        Some(object(r#"{"common":"old_value"}"#)),
    );
    assert_eq!(action, IncomingAction::TakeRemote { data: object(r#"{"other_only":"other"}"#) });
}

#[test]
fn merge_drops_a_key_that_local_removed() {
    let action = merge(
        object(r#"{"kept":1,"gone":2}"#),
        object(r#"{"kept":1}"#),
        Some(object(r#"{"kept":1,"gone":2}"#)),
    );
    assert_eq!(action, IncomingAction::Same);
}

#[test]
fn merge_that_ends_at_local_is_same() {
    let action = merge(
        object(r#"{"a":1}"#),
        object(r#"{"a":1,"b":2}"#),
        Some(object(r#"{"a":1}"#)),
    );
    assert_eq!(action, IncomingAction::Same);
}

#[test]
fn merge_compares_nested_values_whole() {
    let action = merge(
        object(r#"{"k":{"x":[1,2,{"y":null}]},"n":1.5}"#),
        object(r#"{"k":{"x":[1,2,{"y":true}]},"n":1.5}"#),
        Some(object(r#"{"k":{"x":[1,2,{"y":null}]},"n":1.5}"#)),
    );
    assert_eq!(action, IncomingAction::Same);
}

#[test]
fn merge_is_deterministic() {
    let first = merge(
        object(r#"{"a":9,"b":2,"c":[1]}"#),
        object(r#"{"a":1,"b":3,"d":"x"}"#),
        Some(object(r#"{"a":1,"b":2}"#)),
    );
    let second = merge(
        object(r#"{"a":9,"b":2,"c":[1]}"#),
        object(r#"{"a":1,"b":3,"d":"x"}"#),
        Some(object(r#"{"a":1,"b":2}"#)),
    );
    assert_eq!(first, second);
    assert_eq!(first, IncomingAction::Merge { data: object(r#"{"a":9,"b":3,"c":[1],"d":"x"}"#) });
}

#[test]
fn merge_again_into_the_merged_object_changes_nothing() {
    let again = merge(
        object(r#"{"a":9,"b":2}"#),
        object(r#"{"a":9,"b":3}"#),
        Some(object(r#"{"a":1,"b":2}"#)),
    );
    assert_eq!(again, IncomingAction::Same);
}

#[test]
fn json_same_tells_objects_apart() {
    assert!(json_same(&object(r#"{"a":1,"b":"x"}"#), &object(r#"{"b":"x","a":1}"#)));
    assert!(!json_same(&object(r#"{"a":1}"#), &object(r#"{"a":2}"#)));
    assert!(!json_same(&object(r#"{"a":1}"#), &object(r#"{"a":1,"b":2}"#)));
    assert!(!json_same(&object(r#"{"a":1,"b":2}"#), &object(r#"{"a":1}"#)));
    assert!(!json_same(&object(r#"{"a":1}"#), &object(r#"{"a":1.0}"#)));
    assert!(json_same(&object("{}"), &object("{}")));
}
