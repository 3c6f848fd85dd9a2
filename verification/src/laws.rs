//! What holds of the sync cycle as a whole, stated over the tables and proved
//! from the definitions of its steps.
use vstd::prelude::*;
use crate::incoming::{
    apply_action_spec, apply_all, incoming_states, plan_spec, planned_actions, stage_all,
    state_from, state_of, ActionView, ItemView, StateView,
};
use crate::json::{column_entries, json_object_of, json_text_of, Entries};
use crate::lookup::{
    lemma_local_lookup_found, lemma_local_lookup_member, lemma_local_lookup_push,
    lemma_local_lookup_remove, lemma_local_lookup_update, lemma_mirror_lookup_member,
    lemma_mirror_replace, lemma_no_index, lemma_tombstones_lookup,
};
use crate::merge::{merge_spec, merged_entries, merged_value};
use crate::outgoing::{
    decrement_all, decrement_spec, dirty_rows, is_upload_of, promote_all, promoted_row, upload_all,
    uploaded_row, uploaded_spec, OutgoingInfoView,
};
use crate::payload::PayloadView;
use crate::rows::{LocalRowView, MirrorRowView, StagingRowView};
use crate::sync::reconcile_spec;
use crate::tables::{
    lemma_tombstones_keep_distinct, local_keys, local_lookup, local_write, mirror_ext_ids,
    mirror_guids, mirror_lookup, mirror_lookup_ext, staging_guids, TablesView,
};

verus! {

/// Merging an object with itself takes the remote: there is nothing to merge.
pub proof fn lemma_merge_same(object: Entries, parent: Option<Entries>)
    ensures
        merge_spec(object, object, parent) == (ActionView::TakeRemote { data: object }),
{
    assert(merged_entries(object, object, parent) =~= object);
}

/// Merging is idempotent on the local side: merging the incoming object into
/// what an earlier merge of it left gives that again.
pub proof fn lemma_merge_idempotent(incoming: Entries, local: Entries, parent: Option<Entries>)
    ensures
        merged_entries(incoming, merged_entries(incoming, local, parent), parent) == merged_entries(
            incoming,
            local,
            parent,
        ),
{
    let once = merged_entries(incoming, local, parent);
    let twice = merged_entries(incoming, once, parent);
    assert forall|k: Seq<char>| merged_value(incoming, once, parent, k) == merged_value(
        incoming,
        local,
        parent,
        k,
    ) by {
        assert(once.contains_key(k) <==> merged_value(incoming, local, parent, k).is_some());
    }
    assert(twice =~= once);
}

/// The incoming datum of a state.
pub open spec fn incoming_of(state: StateView) -> Option<Entries> {
    match state {
        StateView::IncomingOnly { incoming } => incoming,
        StateView::HasLocal { incoming, .. } => incoming,
        StateView::NotLocal { incoming, .. } => incoming,
        StateView::Everywhere { incoming, .. } => incoming,
    }
}

/// Corruption tolerance: a staged record whose text holds no JSON object is
/// classified as a record without data, whatever rows stand beside it, and
/// the plan for it is the plan for a deletion: delete locally, nothing to do,
/// or keep the local data.
pub proof fn lemma_corrupt_data_is_no_data(
    staged: StagingRowView,
    mirror: Seq<MirrorRowView>,
    local: Seq<LocalRowView>,
)
    ensures
        column_entries(staged.data) is None ==> incoming_of(state_of(staged, mirror, local))
            is None,
        column_entries(staged.data) is None ==> plan_spec(state_of(staged, mirror, local))
            == match state_of(staged, mirror, local) {
            StateView::IncomingOnly { .. } => ActionView::DeleteLocally,
            StateView::Everywhere { .. } => ActionView::DeleteLocally,
            StateView::NotLocal { .. } => ActionView::Same,
            StateView::HasLocal { local: None, .. } => ActionView::Same,
            StateView::HasLocal { local: Some(data), .. } => ActionView::TakeRemote { data },
        },
{
}

/// The change counter of an extension; zero where it has no row.
pub open spec fn counter_at(local: Seq<LocalRowView>, ext_id: Seq<char>) -> int {
    match local_lookup(local, ext_id) {
        Some(row) => row.sync_change_counter,
        None => 0,
    }
}

/// The row that an extension has after an action, given the row it had.
pub open spec fn row_after(row: Option<LocalRowView>, ext_id: Seq<char>, action: ActionView) -> Option<
    LocalRowView,
> {
    match action {
        ActionView::DeleteLocally => None,
        ActionView::TakeRemote { data } => Some(
            LocalRowView { ext_id, data: Some(json_text_of(data)), sync_change_counter: 0 },
        ),
        ActionView::Merge { data } => match row {
            Some(r) => Some(
                LocalRowView {
                    ext_id,
                    data: Some(json_text_of(data)),
                    sync_change_counter: r.sync_change_counter + 1,
                },
            ),
            None => None,
        },
        ActionView::Same => match row {
            Some(r) => Some(LocalRowView { ext_id, data: r.data, sync_change_counter: 0 }),
            None => None,
        },
    }
}

/// An action changes the row of its own extension and no other.
pub proof fn lemma_apply_lookup(
    local: Seq<LocalRowView>,
    ext_id: Seq<char>,
    action: ActionView,
    key: Seq<char>,
)
    requires
        local_keys(local).no_duplicates(),
    ensures
        local_keys(apply_action_spec(local, ext_id, action)).no_duplicates(),
        local_lookup(apply_action_spec(local, ext_id, action), key) == if key == ext_id {
            row_after(local_lookup(local, ext_id), ext_id, action)
        } else {
            local_lookup(local, key)
        },
{
    let keys = local_keys(local);
    lemma_no_index(keys, ext_id);
    match keys.index_of_first(ext_id) {
        Some(i) => {
            match action {
                ActionView::DeleteLocally => {
                    lemma_local_lookup_remove(local, ext_id, key);
                },
                ActionView::TakeRemote { data } => {
                    lemma_local_lookup_update(
                        local,
                        i,
                        LocalRowView {
                            ext_id,
                            data: Some(json_text_of(data)),
                            sync_change_counter: 0,
                        },
                        key,
                    );
                },
                ActionView::Merge { data } => {
                    lemma_local_lookup_update(
                        local,
                        i,
                        LocalRowView {
                            ext_id,
                            data: Some(json_text_of(data)),
                            sync_change_counter: local[i].sync_change_counter + 1,
                        },
                        key,
                    );
                },
                ActionView::Same => {
                    lemma_local_lookup_update(
                        local,
                        i,
                        LocalRowView { ext_id, data: local[i].data, sync_change_counter: 0 },
                        key,
                    );
                },
            }
        },
        None => {
            match action {
                ActionView::TakeRemote { data } => {
                    lemma_local_lookup_push(
                        local,
                        LocalRowView {
                            ext_id,
                            data: Some(json_text_of(data)),
                            sync_change_counter: 0,
                        },
                        key,
                    );
                },
                _ => {},
            }
        },
    }
}

/// An action that leaves the row of its extension as it is leaves the whole
/// table as it is.
pub proof fn lemma_apply_unchanged(local: Seq<LocalRowView>, ext_id: Seq<char>, action: ActionView)
    requires
        local_keys(local).no_duplicates(),
        row_after(local_lookup(local, ext_id), ext_id, action) == local_lookup(local, ext_id),
    ensures
        apply_action_spec(local, ext_id, action) == local,
{
    lemma_no_index(local_keys(local), ext_id);
    assert(apply_action_spec(local, ext_id, action) =~= local);
}

/// Applying actions keeps the extensions of `local` distinct.
pub proof fn lemma_apply_all_distinct(local: Seq<LocalRowView>, actions: Seq<(ItemView, ActionView)>)
    requires
        local_keys(local).no_duplicates(),
    ensures
        local_keys(apply_all(local, actions)).no_duplicates(),
    decreases actions.len(),
{
    if actions.len() > 0 {
        lemma_apply_all_distinct(local, actions.drop_last());
        lemma_apply_lookup(
            apply_all(local, actions.drop_last()),
            actions.last().0.ext_id,
            actions.last().1,
            actions.last().0.ext_id,
        );
    }
}

/// Reconciling a batch keeps the tables well formed.
pub proof fn lemma_reconciled_wf(tables: TablesView, payloads: Seq<PayloadView>)
    requires
        tables.wf(),
    ensures
        reconcile_spec(tables, payloads).wf(),
{
    let staged = TablesView { staging: stage_all(tables.staging, payloads), ..tables };
    lemma_apply_all_distinct(tables.local, planned_actions(incoming_states(staged)));
    assert(staging_guids(reconcile_spec(tables, payloads).staging) =~= Seq::empty());
}

/// The extensions of a list of actions, item by item.
pub open spec fn action_ext_ids(actions: Seq<(ItemView, ActionView)>) -> Seq<Seq<char>> {
    actions.map_values(|a: (ItemView, ActionView)| a.0.ext_id)
}

/// Actions on other extensions leave the row of an extension as it is.
pub proof fn lemma_apply_all_untouched(
    local: Seq<LocalRowView>,
    actions: Seq<(ItemView, ActionView)>,
    key: Seq<char>,
)
    requires
        local_keys(local).no_duplicates(),
        !action_ext_ids(actions).contains(key),
    ensures
        local_keys(apply_all(local, actions)).no_duplicates(),
        local_lookup(apply_all(local, actions), key) == local_lookup(local, key),
    decreases actions.len(),
{
    if actions.len() > 0 {
        let shorter = actions.drop_last();
        assert(action_ext_ids(shorter) =~= action_ext_ids(actions).drop_last());
        if action_ext_ids(shorter).contains(key) {
            let j = choose|j: int|
                0 <= j < action_ext_ids(shorter).len() && action_ext_ids(shorter)[j] == key;
            assert(action_ext_ids(actions)[j] == key);
        }
        lemma_apply_all_untouched(local, shorter, key);
        assert(action_ext_ids(actions)[actions.len() - 1] == actions.last().0.ext_id);
        lemma_apply_lookup(apply_all(local, shorter), actions.last().0.ext_id, actions.last().1, key);
    }
}

/// Where every action is on an extension of its own, the row of an
/// extension after all of them is the row after its own action.
pub proof fn lemma_apply_all_touched(
    local: Seq<LocalRowView>,
    actions: Seq<(ItemView, ActionView)>,
    j: int,
)
    requires
        local_keys(local).no_duplicates(),
        action_ext_ids(actions).no_duplicates(),
        0 <= j < actions.len(),
    ensures
        local_keys(apply_all(local, actions)).no_duplicates(),
        local_lookup(apply_all(local, actions), actions[j].0.ext_id) == row_after(
            local_lookup(local, actions[j].0.ext_id),
            actions[j].0.ext_id,
            actions[j].1,
        ),
    decreases actions.len(),
{
    let shorter = actions.drop_last();
    let key = actions[j].0.ext_id;
    let ids = action_ext_ids(actions);
    assert(action_ext_ids(shorter) =~= ids.drop_last());
    assert(ids[j] == key);
    assert(ids[actions.len() - 1] == actions.last().0.ext_id);
    if j == actions.len() - 1 {
        if action_ext_ids(shorter).contains(key) {
            let i = choose|i: int|
                0 <= i < action_ext_ids(shorter).len() && action_ext_ids(shorter)[i] == key;
            assert(ids[i] == key);
        }
        lemma_apply_all_untouched(local, shorter, key);
        lemma_apply_lookup(apply_all(local, shorter), key, actions.last().1, key);
    } else {
        lemma_apply_all_touched(local, shorter, j);
        lemma_apply_lookup(apply_all(local, shorter), actions.last().0.ext_id, actions.last().1, key);
    }
}

/// A state whose record can be replayed without a further change. Three
/// kinds of state are left out. A merge raises the change counter, and the
/// replay, finding local and merged data equal, resets it. An incoming record
/// with data beside a local tombstone and no mirror row deletes the row, and
/// the replay, finding no row, takes the remote. And data whose text does not
/// parse back to itself is not found again by the replay.
pub open spec fn replayable(state: StateView) -> bool {
    &&& !(plan_spec(state) is Merge)
    &&& !(state matches StateView::HasLocal { incoming: Some(_), local: None })
    &&& plan_spec(state) matches ActionView::TakeRemote { data } ==> json_object_of(
        json_text_of(data),
    ) == Some(data)
}

/// For one record: the action planned on replay leaves the row as the first
/// action made it.
pub proof fn lemma_replay_keeps_row(
    incoming: Option<Entries>,
    row: Option<LocalRowView>,
    mirror: Option<MirrorRowView>,
    ext_id: Seq<char>,
)
    requires
        replayable(state_from(incoming, row, mirror)),
    ensures
        ({
            let first = plan_spec(state_from(incoming, row, mirror));
            let row1 = row_after(row, ext_id, first);
            let second = plan_spec(state_from(incoming, row1, mirror));
            row_after(row1, ext_id, second) == row1
        }),
{
    let state = state_from(incoming, row, mirror);
    let first = plan_spec(state);
    let row1 = row_after(row, ext_id, first);
    let parent = match mirror {
        Some(m) => column_entries(m.data),
        None => None,
    };
    match first {
        ActionView::TakeRemote { data } => {
            assert(column_entries(row1.unwrap().data) == Some(data));
            match incoming {
                Some(i) => {
                    assert(data == i);
                    lemma_merge_same(i, parent);
                    lemma_merge_same(i, None);
                },
                None => {},
            }
        },
        _ => {},
    }
}

/// Actions that each leave the row of their extension as it is leave the
/// table as it is.
pub proof fn lemma_replay_changes_nothing(
    local: Seq<LocalRowView>,
    actions: Seq<(ItemView, ActionView)>,
    count: int,
)
    requires
        local_keys(local).no_duplicates(),
        0 <= count <= actions.len(),
        forall|j: int|
            0 <= j < actions.len() ==> row_after(
                local_lookup(local, #[trigger] actions[j].0.ext_id),
                actions[j].0.ext_id,
                actions[j].1,
            ) == local_lookup(local, actions[j].0.ext_id),
    ensures
        apply_all(local, actions.take(count)) == local,
    decreases count,
{
    if count > 0 {
        lemma_replay_changes_nothing(local, actions, count - 1);
        assert(actions.take(count).drop_last() =~= actions.take(count - 1));
        assert(actions.take(count).last() == actions[count - 1]);
        lemma_apply_unchanged(local, actions[count - 1].0.ext_id, actions[count - 1].1);
    } else {
        assert(actions.take(0) =~= Seq::empty());
    }
}

/// The extensions of the staged records, row by row.
pub open spec fn staging_ext_ids(staging: Seq<StagingRowView>) -> Seq<Seq<char>> {
    staging.map_values(|s: StagingRowView| s.ext_id)
}

/// A batch that can be replayed: no two of its staged records are about the
/// same extension, and the state of each is one that can be replayed.
pub open spec fn replayable_batch(tables: TablesView, payloads: Seq<PayloadView>) -> bool {
    let staged = TablesView { staging: stage_all(tables.staging, payloads), ..tables };
    &&& staging_ext_ids(staged.staging).no_duplicates()
    &&& forall|j: int|
        0 <= j < staged.staging.len() ==> replayable((#[trigger] incoming_states(staged)[j]).1)
}

/// Idempotence of reconciling: on a store with nothing staged, reconciling a
/// replayable batch a second time leaves the tables as the first time left
/// them. Nothing of the batch is then left to upload: after the first time
/// already, the extensions of the batch have no row or a clean one.
pub proof fn lemma_reconcile_idempotent(tables: TablesView, payloads: Seq<PayloadView>)
    requires
        tables.wf(),
        tables.staging.len() == 0,
        replayable_batch(tables, payloads),
    ensures
        reconcile_spec(reconcile_spec(tables, payloads), payloads) == reconcile_spec(
            tables,
            payloads,
        ),
        forall|j: int|
            0 <= j < stage_all(tables.staging, payloads).len() ==> counter_at(
                reconcile_spec(tables, payloads).local,
                (#[trigger] stage_all(tables.staging, payloads)[j]).ext_id,
            ) == 0,
{
    let staging = stage_all(tables.staging, payloads);
    let staged = TablesView { staging, ..tables };
    let states = incoming_states(staged);
    let actions = planned_actions(states);
    let once = reconcile_spec(tables, payloads);
    assert(tables.staging =~= once.staging);
    let staged_again = TablesView { staging, ..once };
    let states_again = incoming_states(staged_again);
    let actions_again = planned_actions(states_again);
    assert(action_ext_ids(actions) =~= staging_ext_ids(staging));
    assert forall|j: int| 0 <= j < actions_again.len() implies row_after(
        local_lookup(once.local, #[trigger] actions_again[j].0.ext_id),
        actions_again[j].0.ext_id,
        actions_again[j].1,
    ) == local_lookup(once.local, actions_again[j].0.ext_id) by {
        let record = staging[j];
        assert(states[j].1 == state_of(record, tables.mirror, tables.local));
        assert(actions[j].0.ext_id == record.ext_id);
        lemma_apply_all_touched(tables.local, actions, j);
        lemma_replay_keeps_row(
            column_entries(record.data),
            local_lookup(tables.local, record.ext_id),
            mirror_lookup(tables.mirror, record.guid),
            record.ext_id,
        );
    }
    if actions.len() > 0 {
        lemma_apply_all_touched(tables.local, actions, 0);
    }
    lemma_replay_changes_nothing(once.local, actions_again, actions_again.len() as int);
    assert(actions_again.take(actions_again.len() as int) =~= actions_again);
    assert forall|j: int| 0 <= j < staging.len() implies counter_at(
        once.local,
        (#[trigger] staging[j]).ext_id,
    ) == 0 by {
        assert(states[j].1 == state_of(staging[j], tables.mirror, tables.local));
        assert(actions[j].0.ext_id == staging[j].ext_id);
        lemma_apply_all_touched(tables.local, actions, j);
    }
}

/// A row with its change counter lowered.
pub open spec fn lowered(row: Option<LocalRowView>, by: int) -> Option<LocalRowView> {
    match row {
        Some(r) => Some(LocalRowView { sync_change_counter: r.sync_change_counter - by, ..r }),
        None => None,
    }
}

/// The extensions of a list of items, item by item.
pub open spec fn item_ext_ids(items: Seq<OutgoingInfoView>) -> Seq<Seq<char>> {
    items.map_values(|i: OutgoingInfoView| i.state.ext_id)
}

/// The guids of a list of items, item by item.
pub open spec fn item_guids(items: Seq<OutgoingInfoView>) -> Seq<Seq<char>> {
    items.map_values(|i: OutgoingInfoView| i.payload.guid)
}

/// Recording an item lowers the counter of its own extension and of no
/// other.
pub proof fn lemma_decrement_lookup(local: Seq<LocalRowView>, item: OutgoingInfoView, key: Seq<char>)
    requires
        local_keys(local).no_duplicates(),
    ensures
        local_keys(decrement_spec(local, item)) == local_keys(local),
        local_lookup(decrement_spec(local, item), key) == if key == item.state.ext_id {
            lowered(local_lookup(local, key), item.state.change_counter)
        } else {
            local_lookup(local, key)
        },
{
    let keys = local_keys(local);
    lemma_no_index(keys, item.state.ext_id);
    match keys.index_of_first(item.state.ext_id) {
        Some(i) => {
            lemma_local_lookup_update(
                local,
                i,
                LocalRowView {
                    sync_change_counter: local[i].sync_change_counter - item.state.change_counter,
                    ..local[i]
                },
                key,
            );
        },
        None => {},
    }
}

/// Lowering counters changes no key.
pub proof fn lemma_decrement_all_keys(local: Seq<LocalRowView>, items: Seq<OutgoingInfoView>)
    requires
        local_keys(local).no_duplicates(),
    ensures
        local_keys(decrement_all(local, items)) == local_keys(local),
    decreases items.len(),
{
    if items.len() > 0 {
        lemma_decrement_all_keys(local, items.drop_last());
        lemma_decrement_lookup(
            decrement_all(local, items.drop_last()),
            items.last(),
            items.last().state.ext_id,
        );
    }
}

/// Items of other extensions leave the counter of an extension alone.
pub proof fn lemma_decrement_all_untouched(
    local: Seq<LocalRowView>,
    items: Seq<OutgoingInfoView>,
    key: Seq<char>,
)
    requires
        local_keys(local).no_duplicates(),
        !item_ext_ids(items).contains(key),
    ensures
        local_keys(decrement_all(local, items)) == local_keys(local),
        local_lookup(decrement_all(local, items), key) == local_lookup(local, key),
    decreases items.len(),
{
    if items.len() > 0 {
        let shorter = items.drop_last();
        assert(item_ext_ids(shorter) =~= item_ext_ids(items).drop_last());
        if item_ext_ids(shorter).contains(key) {
            let j = choose|j: int|
                0 <= j < item_ext_ids(shorter).len() && item_ext_ids(shorter)[j] == key;
            assert(item_ext_ids(items)[j] == key);
        }
        lemma_decrement_all_untouched(local, shorter, key);
        assert(item_ext_ids(items)[items.len() - 1] == items.last().state.ext_id);
        lemma_decrement_lookup(decrement_all(local, shorter), items.last(), key);
    }
}

/// Where every item is of an extension of its own, the counter of an
/// item's extension is lowered once, by what the item carries.
pub proof fn lemma_decrement_all_touched(
    local: Seq<LocalRowView>,
    items: Seq<OutgoingInfoView>,
    k: int,
)
    requires
        local_keys(local).no_duplicates(),
        item_ext_ids(items).no_duplicates(),
        0 <= k < items.len(),
    ensures
        local_keys(decrement_all(local, items)) == local_keys(local),
        local_lookup(decrement_all(local, items), items[k].state.ext_id) == lowered(
            local_lookup(local, items[k].state.ext_id),
            items[k].state.change_counter,
        ),
    decreases items.len(),
{
    let shorter = items.drop_last();
    let key = items[k].state.ext_id;
    let ids = item_ext_ids(items);
    assert(item_ext_ids(shorter) =~= ids.drop_last());
    assert(ids[k] == key);
    assert(ids[items.len() - 1] == items.last().state.ext_id);
    if k == items.len() - 1 {
        if item_ext_ids(shorter).contains(key) {
            let i = choose|i: int|
                0 <= i < item_ext_ids(shorter).len() && item_ext_ids(shorter)[i] == key;
            assert(ids[i] == key);
        }
        lemma_decrement_all_untouched(local, shorter, key);
        lemma_decrement_lookup(decrement_all(local, shorter), items.last(), key);
    } else {
        lemma_decrement_all_touched(local, shorter, k);
        lemma_decrement_lookup(decrement_all(local, shorter), items.last(), key);
    }
}

/// Moving the staged records to the mirror keeps its guids and extensions
/// distinct.
pub proof fn lemma_promote_all_distinct(mirror: Seq<MirrorRowView>, staging: Seq<StagingRowView>)
    requires
        mirror_guids(mirror).no_duplicates(),
        mirror_ext_ids(mirror).no_duplicates(),
    ensures
        mirror_guids(promote_all(mirror, staging)).no_duplicates(),
        mirror_ext_ids(promote_all(mirror, staging)).no_duplicates(),
    decreases staging.len(),
{
    if staging.len() > 0 {
        lemma_promote_all_distinct(mirror, staging.drop_last());
        lemma_mirror_replace(promote_all(mirror, staging.drop_last()), promoted_row(staging.last()));
    }
}

/// Writing uploaded items to the mirror keeps its guids and extensions
/// distinct.
pub proof fn lemma_upload_all_distinct(mirror: Seq<MirrorRowView>, items: Seq<OutgoingInfoView>)
    requires
        mirror_guids(mirror).no_duplicates(),
        mirror_ext_ids(mirror).no_duplicates(),
    ensures
        mirror_guids(upload_all(mirror, items)).no_duplicates(),
        mirror_ext_ids(upload_all(mirror, items)).no_duplicates(),
    decreases items.len(),
{
    if items.len() > 0 {
        lemma_upload_all_distinct(mirror, items.drop_last());
        lemma_mirror_replace(upload_all(mirror, items.drop_last()), uploaded_row(items.last()));
    }
}

/// Recording an upload keeps the tables well formed.
pub proof fn lemma_uploaded_wf(tables: TablesView, items: Seq<OutgoingInfoView>)
    requires
        tables.wf(),
    ensures
        uploaded_spec(tables, items).wf(),
{
    lemma_decrement_all_keys(tables.local, items);
    lemma_tombstones_keep_distinct(decrement_all(tables.local, items));
    lemma_promote_all_distinct(tables.mirror, tables.staging);
    lemma_upload_all_distinct(promote_all(tables.mirror, tables.staging), items);
    assert(staging_guids(uploaded_spec(tables, items).staging) =~= Seq::empty());
}

/// Where no two items share a guid or an extension, the mirror holds the row
/// of every uploaded item once all are written.
pub proof fn lemma_upload_all_holds(mirror: Seq<MirrorRowView>, items: Seq<OutgoingInfoView>, k: int)
    requires
        mirror_guids(mirror).no_duplicates(),
        mirror_ext_ids(mirror).no_duplicates(),
        item_ext_ids(items).no_duplicates(),
        item_guids(items).no_duplicates(),
        0 <= k < items.len(),
    ensures
        mirror_guids(upload_all(mirror, items)).no_duplicates(),
        mirror_ext_ids(upload_all(mirror, items)).no_duplicates(),
        upload_all(mirror, items).contains(uploaded_row(items[k])),
    decreases items.len(),
{
    let shorter = items.drop_last();
    assert(item_ext_ids(shorter) =~= item_ext_ids(items).drop_last());
    assert(item_guids(shorter) =~= item_guids(items).drop_last());
    lemma_upload_all_distinct(mirror, shorter);
    lemma_mirror_replace(upload_all(mirror, shorter), uploaded_row(items.last()));
    if k < items.len() - 1 {
        lemma_upload_all_holds(mirror, shorter, k);
        assert(item_ext_ids(items)[k] == items[k].state.ext_id);
        assert(item_ext_ids(items)[items.len() - 1] == items.last().state.ext_id);
        assert(item_guids(items)[k] == items[k].payload.guid);
        assert(item_guids(items)[items.len() - 1] == items.last().payload.guid);
    }
}

/// Tombstone liveness: once the upload of a deletion is recorded, the local
/// row is gone and the mirror row of the extension holds no data. This is
/// said of an upload whose items are each of another extension and under
/// another guid, and of a row that is still the tombstone it was when its
/// item was made.
pub proof fn lemma_tombstone_liveness(tables: TablesView, items: Seq<OutgoingInfoView>, k: int)
    requires
        tables.wf(),
        item_ext_ids(items).no_duplicates(),
        item_guids(items).no_duplicates(),
        0 <= k < items.len(),
        items[k].payload.data is None,
        local_lookup(tables.local, items[k].state.ext_id) matches Some(row) && row.data is None
            && row.sync_change_counter == items[k].state.change_counter,
    ensures
        local_lookup(uploaded_spec(tables, items).local, items[k].state.ext_id) is None,
        mirror_lookup_ext(uploaded_spec(tables, items).mirror, items[k].state.ext_id) matches Some(
            m,
        ) && m.data is None && m.guid == items[k].payload.guid,
{
    let key = items[k].state.ext_id;
    lemma_decrement_all_touched(tables.local, items, k);
    lemma_tombstones_lookup(decrement_all(tables.local, items), key);
    lemma_promote_all_distinct(tables.mirror, tables.staging);
    lemma_upload_all_holds(promote_all(tables.mirror, tables.staging), items, k);
    lemma_mirror_lookup_member(uploaded_spec(tables, items).mirror, uploaded_row(items[k]));
}

/// The dirty rows are the rows of `local` with a counter above zero, and
/// their extensions are distinct where those of `local` are.
pub proof fn lemma_dirty_rows(local: Seq<LocalRowView>)
    requires
        local_keys(local).no_duplicates(),
    ensures
        local_keys(dirty_rows(local)).no_duplicates(),
        forall|row: LocalRowView|
            #[trigger] dirty_rows(local).contains(row) <==> local.contains(row)
                && row.sync_change_counter > 0,
    decreases local.len(),
{
    if local.len() > 0 {
        let shorter = local.drop_last();
        let last = local.last();
        assert(local_keys(shorter) =~= local_keys(local).drop_last());
        lemma_dirty_rows(shorter);
        let dirty = dirty_rows(shorter);
        assert forall|row: LocalRowView| #[trigger]
            dirty_rows(local).contains(row) <==> local.contains(row) && row.sync_change_counter
                > 0 by {
            if dirty_rows(local).contains(row) {
                let j = choose|j: int| 0 <= j < dirty_rows(local).len() && dirty_rows(local)[j] == row;
                if j < dirty.len() {
                    assert(dirty[j] == row);
                    assert(dirty.contains(row));
                    let i = choose|i: int| 0 <= i < shorter.len() && shorter[i] == row;
                    assert(local[i] == row);
                } else {
                    assert(local[local.len() - 1] == row);
                }
            }
            if local.contains(row) && row.sync_change_counter > 0 {
                let i = choose|i: int| 0 <= i < local.len() && local[i] == row;
                if i < shorter.len() {
                    assert(shorter[i] == row);
                    assert(dirty.contains(row));
                    let j = choose|j: int| 0 <= j < dirty.len() && dirty[j] == row;
                    assert(dirty_rows(local)[j] == row);
                } else {
                    assert(dirty_rows(local)[dirty.len() as int] == row);
                }
            }
        }
        if last.sync_change_counter > 0 {
            assert(local_keys(dirty.push(last)) =~= local_keys(dirty).push(last.ext_id));
            if local_keys(dirty).contains(last.ext_id) {
                let j = choose|j: int|
                    0 <= j < local_keys(dirty).len() && local_keys(dirty)[j] == last.ext_id;
                assert(dirty.contains(dirty[j]));
                let i = choose|i: int| 0 <= i < shorter.len() && shorter[i] == dirty[j];
                assert(local_keys(local)[i] == last.ext_id);
                assert(local_keys(local)[local.len() - 1] == last.ext_id);
            }
            crate::tables::lemma_push_keeps_distinct(local_keys(dirty), last.ext_id);
        }
    }
}

/// A local write raises the change counter of its extension by one and
/// leaves the counters of the others alone.
pub proof fn lemma_write_is_counted(
    local: Seq<LocalRowView>,
    ext_id: Seq<char>,
    data: Option<Seq<char>>,
    key: Seq<char>,
)
    requires
        local_keys(local).no_duplicates(),
    ensures
        local_keys(local_write(local, ext_id, data)).no_duplicates(),
        counter_at(local_write(local, ext_id, data), key) == counter_at(local, key) + if key
            == ext_id {
            1int
        } else {
            0int
        },
{
    let keys = local_keys(local);
    lemma_no_index(keys, ext_id);
    match keys.index_of_first(ext_id) {
        Some(i) => {
            lemma_local_lookup_update(
                local,
                i,
                LocalRowView {
                    ext_id,
                    data,
                    sync_change_counter: local[i].sync_change_counter + 1,
                },
                key,
            );
        },
        None => {
            lemma_local_lookup_push(
                local,
                LocalRowView { ext_id, data, sync_change_counter: 1 },
                key,
            );
        },
    }
}

/// What an item takes off the counter of an extension: the counter that the
/// extension had when the items were made, if it was dirty then.
pub open spec fn snapshot_at(at_emit: Seq<LocalRowView>, ext_id: Seq<char>) -> int {
    if counter_at(at_emit, ext_id) > 0 {
        counter_at(at_emit, ext_id)
    } else {
        0
    }
}

/// The counter of an extension after an upload is recorded: what it was
/// before, less what it was when the items were made. This is said of an
/// extension that still has its row if it was dirty then.
pub proof fn lemma_counter_after_upload(
    at_emit: TablesView,
    items: Seq<OutgoingInfoView>,
    at_record: TablesView,
    ext_id: Seq<char>,
)
    requires
        at_emit.wf(),
        at_record.wf(),
        items.len() == dirty_rows(at_emit.local).len(),
        forall|j: int|
            0 <= j < items.len() ==> is_upload_of(
                #[trigger] items[j],
                dirty_rows(at_emit.local)[j],
                at_emit.mirror,
            ),
        counter_at(at_emit.local, ext_id) > 0 ==> local_lookup(at_record.local, ext_id) is Some,
    ensures
        counter_at(uploaded_spec(at_record, items).local, ext_id) == counter_at(
            at_record.local,
            ext_id,
        ) - snapshot_at(at_emit.local, ext_id),
        counter_at(uploaded_spec(at_record, items).local, ext_id) != 0 ==> local_lookup(
            uploaded_spec(at_record, items).local,
            ext_id,
        ) is Some,
{
    let dirty = dirty_rows(at_emit.local);
    lemma_dirty_rows(at_emit.local);
    assert(item_ext_ids(items) =~= local_keys(dirty));
    lemma_local_lookup_found(at_emit.local, ext_id);
    if counter_at(at_emit.local, ext_id) > 0 {
        let row = local_lookup(at_emit.local, ext_id).unwrap();
        assert(dirty.contains(row));
        let k = choose|k: int| 0 <= k < dirty.len() && dirty[k] == row;
        assert(items[k].state.ext_id == ext_id);
        lemma_decrement_all_touched(at_record.local, items, k);
    } else {
        if item_ext_ids(items).contains(ext_id) {
            let k = choose|k: int|
                0 <= k < item_ext_ids(items).len() && item_ext_ids(items)[k] == ext_id;
            assert(dirty.contains(dirty[k]));
            lemma_local_lookup_member(at_emit.local, dirty[k]);
        }
        lemma_decrement_all_untouched(at_record.local, items, ext_id);
    }
    lemma_tombstones_lookup(decrement_all(at_record.local, items), ext_id);
}

/// Counter preservation: the local writes that an extension sees between
/// the making of the items and the recording of their upload stay counted.
/// If the counter was not below zero when the items were made and has gone
/// up by `writes` since, it stands at `writes` after the upload is recorded;
/// after one write or more the row is therefore there and dirty, and goes out
/// with the next cycle.
pub proof fn lemma_counter_preservation(
    at_emit: TablesView,
    items: Seq<OutgoingInfoView>,
    at_record: TablesView,
    ext_id: Seq<char>,
    writes: int,
)
    requires
        at_emit.wf(),
        at_record.wf(),
        items.len() == dirty_rows(at_emit.local).len(),
        forall|j: int|
            0 <= j < items.len() ==> is_upload_of(
                #[trigger] items[j],
                dirty_rows(at_emit.local)[j],
                at_emit.mirror,
            ),
        writes >= 0,
        counter_at(at_emit.local, ext_id) >= 0,
        counter_at(at_record.local, ext_id) == counter_at(at_emit.local, ext_id) + writes,
    ensures
        counter_at(uploaded_spec(at_record, items).local, ext_id) == writes,
        writes >= 1 ==> local_lookup(uploaded_spec(at_record, items).local, ext_id) is Some,
{
    lemma_counter_after_upload(at_emit, items, at_record, ext_id);
}

/// An upload that is recorded before anything else is written leaves nothing
/// to upload: no row of `local` is dirty.
pub proof fn lemma_upload_leaves_nothing_dirty(tables: TablesView, items: Seq<OutgoingInfoView>)
    requires
        tables.wf(),
        items.len() == dirty_rows(tables.local).len(),
        forall|j: int|
            0 <= j < items.len() ==> is_upload_of(
                #[trigger] items[j],
                dirty_rows(tables.local)[j],
                tables.mirror,
            ),
    ensures
        dirty_rows(uploaded_spec(tables, items).local).len() == 0,
{
    let after = uploaded_spec(tables, items).local;
    lemma_uploaded_wf(tables, items);
    lemma_dirty_rows(after);
    if dirty_rows(after).len() > 0 {
        let row = dirty_rows(after)[0];
        assert(dirty_rows(after).contains(row));
        lemma_local_lookup_member(after, row);
        lemma_counter_after_upload(tables, items, tables, row.ext_id);
    }
}

} // verus!
