//! The merger: a three-way (or, without a parent, two-way) merge of JSON
//! objects, key by key, in which the incoming side wins a conflict.
use vstd::prelude::*;
use crate::incoming::{ActionView, IncomingAction};
use crate::json::{
    entry_at, json_copy_entry, json_entries, json_keys, json_new, json_text_at, key_views,
    option_entries, Entries, JsonMap,
};

verus! {

/// What a parent holds under a key; a missing parent holds nothing.
pub open spec fn parent_at(parent: Option<Entries>, key: Seq<char>) -> Option<Seq<char>> {
    match parent {
        Some(p) => entry_at(p, key),
        None => None,
    }
}

/// The merged value of one key, `None` where the merged object has no such
/// key. A side that lacks the key counts as holding `None` there, so leaving a
/// key out is a change like any other.
pub open spec fn merged_value(
    incoming: Entries,
    local: Entries,
    parent: Option<Entries>,
    key: Seq<char>,
) -> Option<Seq<char>> {
    let i = entry_at(incoming, key);
    let l = entry_at(local, key);
    let p = parent_at(parent, key);
    if i == l {
        // Both sides agree.
        i
    } else if i == p {
        // Only the local side moved away from the parent.
        l
    } else {
        // The incoming side moved; it also wins over a local change.
        i
    }
}

/// The merged object.
pub open spec fn merged_entries(incoming: Entries, local: Entries, parent: Option<Entries>) -> Entries {
    Map::new(
        |k: Seq<char>| merged_value(incoming, local, parent, k).is_some(),
        |k: Seq<char>| merged_value(incoming, local, parent, k).unwrap(),
    )
}

/// The action that a merge decides on: take the remote where the merged
/// object is the incoming one, nothing to do where it is the local one, and a
/// merge that must be uploaded otherwise.
pub open spec fn merge_spec(incoming: Entries, local: Entries, parent: Option<Entries>) -> ActionView {
    let merged = merged_entries(incoming, local, parent);
    if merged == incoming {
        ActionView::TakeRemote { data: merged }
    } else if merged == local {
        ActionView::Same
    } else {
        ActionView::Merge { data: merged }
    }
}

/// The merged object restricted to the keys in `done`.
pub open spec fn merged_over(
    incoming: Entries,
    local: Entries,
    parent: Option<Entries>,
    done: Set<Seq<char>>,
) -> Entries {
    Map::new(
        |k: Seq<char>| done.contains(k) && merged_value(incoming, local, parent, k).is_some(),
        |k: Seq<char>| merged_value(incoming, local, parent, k).unwrap(),
    )
}

/// Whether two optional texts are the same.
fn same_text(a: &Option<String>, b: &Option<String>) -> (same: bool)
    ensures
        same == (a.deep_view() == b.deep_view()),
{
    match a {
        Some(x) => match b {
            Some(y) => *x == *y,
            None => false,
        },
        None => b.is_none(),
    }
}

/// Whether two objects hold the same keys with the same value texts.
pub fn json_same(a: &JsonMap, b: &JsonMap) -> (same: bool)
    ensures
        same == (json_entries(*a) == json_entries(*b)),
{
    let a_keys = json_keys(a);
    let mut idx: usize = 0;
    while idx < a_keys.len()
        invariant
            idx <= a_keys.len(),
            key_views(a_keys@).to_set() == json_entries(*a).dom(),
            forall|j: int|
                0 <= j < idx ==> entry_at(json_entries(*a), #[trigger] key_views(a_keys@)[j])
                    == entry_at(json_entries(*b), key_views(a_keys@)[j]),
        decreases a_keys.len() - idx,
    {
        let key = a_keys[idx].as_str();
        let in_a = json_text_at(a, key);
        let in_b = json_text_at(b, key);
        if !same_text(&in_a, &in_b) {
            assert(key_views(a_keys@)[idx as int] == key@);
            assert(entry_at(json_entries(*a), key@) != entry_at(json_entries(*b), key@));
            return false;
        }
        assert(key_views(a_keys@)[idx as int] == key@);
        idx += 1;
    }
    let b_keys = json_keys(b);
    let mut idx: usize = 0;
    while idx < b_keys.len()
        invariant
            idx <= b_keys.len(),
            key_views(b_keys@).to_set() == json_entries(*b).dom(),
            forall|j: int|
                0 <= j < idx ==> json_entries(*a).contains_key(#[trigger] key_views(b_keys@)[j]),
        decreases b_keys.len() - idx,
    {
        let key = b_keys[idx].as_str();
        let in_a = json_text_at(a, key);
        assert(key_views(b_keys@)[idx as int] == key@);
        if in_a.is_none() {
            assert(key_views(b_keys@).to_set().contains(key@));
            assert(json_entries(*b).contains_key(key@));
            assert(!json_entries(*a).contains_key(key@));
            return false;
        }
        idx += 1;
    }
    proof {
        let ea = json_entries(*a);
        let eb = json_entries(*b);
        assert forall|k: Seq<char>| ea.contains_key(k) implies eb.contains_key(k) && ea[k] == eb[k] by {
            assert(key_views(a_keys@).to_set().contains(k));
            let j = choose|j: int| 0 <= j < key_views(a_keys@).len() && key_views(a_keys@)[j] == k;
            assert(entry_at(ea, key_views(a_keys@)[j]) == entry_at(eb, key_views(a_keys@)[j]));
        }
        assert forall|k: Seq<char>| eb.contains_key(k) implies ea.contains_key(k) by {
            assert(key_views(b_keys@).to_set().contains(k));
            let j = choose|j: int| 0 <= j < key_views(b_keys@).len() && key_views(b_keys@)[j] == k;
            assert(ea.contains_key(key_views(b_keys@)[j]));
        }
        assert(ea =~= eb);
    }
    true
}

/// Decides one key and, where the merged object has it, writes it to
/// `result`.
fn merge_key(
    result: &mut JsonMap,
    key: &str,
    incoming: &JsonMap,
    local: &JsonMap,
    parent: &Option<JsonMap>,
    Ghost(done): Ghost<Set<Seq<char>>>,
)
    requires
        json_entries(*old(result)) == merged_over(
            json_entries(*incoming),
            json_entries(*local),
            option_entries(*parent),
            done,
        ),
    ensures
        json_entries(*final(result)) == merged_over(
            json_entries(*incoming),
            json_entries(*local),
            option_entries(*parent),
            done.insert(key@),
        ),
{
    let ghost i = json_entries(*incoming);
    let ghost l = json_entries(*local);
    let ghost p = option_entries(*parent);
    let in_incoming = json_text_at(incoming, key);
    let in_local = json_text_at(local, key);
    let in_parent = match parent {
        Some(parent) => json_text_at(parent, key),
        None => None,
    };
    if same_text(&in_incoming, &in_local) || !same_text(&in_incoming, &in_parent) {
        if in_incoming.is_some() {
            json_copy_entry(result, incoming, key);
        }
    } else {
        if in_local.is_some() {
            json_copy_entry(result, local, key);
        }
    }
    assert(json_entries(*result) =~= merged_over(i, l, p, done.insert(key@)));
}

/// Merges every key of `keys` into `result`.
fn merge_keys(
    result: &mut JsonMap,
    keys: &Vec<String>,
    incoming: &JsonMap,
    local: &JsonMap,
    parent: &Option<JsonMap>,
    Ghost(done): Ghost<Set<Seq<char>>>,
)
    requires
        json_entries(*old(result)) == merged_over(
            json_entries(*incoming),
            json_entries(*local),
            option_entries(*parent),
            done,
        ),
    ensures
        json_entries(*final(result)) == merged_over(
            json_entries(*incoming),
            json_entries(*local),
            option_entries(*parent),
            done.union(key_views(keys@).to_set()),
        ),
{
    let ghost i = json_entries(*incoming);
    let ghost l = json_entries(*local);
    let ghost p = option_entries(*parent);
    let mut idx: usize = 0;
    while idx < keys.len()
        invariant
            idx <= keys.len(),
            i == json_entries(*incoming),
            l == json_entries(*local),
            p == option_entries(*parent),
            json_entries(*result) == merged_over(
                i,
                l,
                p,
                done.union(key_views(keys@).take(idx as int).to_set()),
            ),
        decreases keys.len() - idx,
    {
        let ghost before = done.union(key_views(keys@).take(idx as int).to_set());
        merge_key(result, keys[idx].as_str(), incoming, local, parent, Ghost(before));
        proof {
            let views = key_views(keys@);
            assert(views.take(idx as int + 1) =~= views.take(idx as int).push(views[idx as int]));
            assert(views.take(idx as int + 1).to_set() =~= views.take(idx as int).to_set().insert(
                views[idx as int],
            )) by {
                let shorter = views.take(idx as int);
                let longer = views.take(idx as int + 1);
                assert forall|k: Seq<char>| longer.to_set().contains(k) <==> shorter.to_set().insert(
                    views[idx as int],
                ).contains(k) by {
                    if longer.contains(k) {
                        let j = choose|j: int| 0 <= j < longer.len() && longer[j] == k;
                        if j < idx {
                            assert(shorter[j] == k);
                        }
                    }
                    if shorter.contains(k) {
                        let j = choose|j: int| 0 <= j < shorter.len() && shorter[j] == k;
                        assert(longer[j] == k);
                    }
                    if k == views[idx as int] {
                        assert(longer[idx as int] == k);
                    }
                }
            }
            assert(before.insert(views[idx as int]) =~= done.union(
                views.take(idx as int + 1).to_set(),
            ));
        }
        idx += 1;
    }
    assert(key_views(keys@).take(keys.len() as int) =~= key_views(keys@));
}

/// Merges the incoming object with the local one. With a parent (the mirror)
/// the merge is three-way, without one it is two-way: every key then counts
/// as absent from the parent.
pub fn merge(incoming: JsonMap, local: JsonMap, parent: Option<JsonMap>) -> (action: IncomingAction)
    ensures
        action@ == merge_spec(json_entries(incoming), json_entries(local), option_entries(parent)),
{
    let ghost i = json_entries(incoming);
    let ghost l = json_entries(local);
    let ghost p = option_entries(parent);
    let mut result = json_new();
    assert(json_entries(result) =~= merged_over(i, l, p, Set::empty()));
    let incoming_keys = json_keys(&incoming);
    merge_keys(&mut result, &incoming_keys, &incoming, &local, &parent, Ghost(Set::empty()));
    let local_keys = json_keys(&local);
    merge_keys(
        &mut result,
        &local_keys,
        &incoming,
        &local,
        &parent,
        Ghost(Set::empty().union(i.dom())),
    );
    assert(json_entries(result) =~= merged_entries(i, l, p));
    if json_same(&result, &incoming) {
        IncomingAction::TakeRemote { data: result }
    } else if json_same(&result, &local) {
        IncomingAction::Same
    } else {
        IncomingAction::Merge { data: result }
    }
}

} // verus!
