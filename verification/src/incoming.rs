//! The incoming side of a sync: classifying each staged record by where else
//! it is known, planning one action for it, and applying the actions.
use vstd::prelude::*;
use crate::error::Error;
use crate::json::{
    column_entries, json_entries, json_map_from_text, json_object_text, json_text_of,
    option_entries, Entries, JsonMap,
};
use crate::merge::{merge, merge_spec};
use crate::payload::{payload_views, PayloadView, ServerPayload};
use crate::rows::{
    copy_text, local_views, mirror_views, staging_views, LocalRow, LocalRowView, MirrorRowView,
    StagingRow, StagingRowView,
};
use crate::signal::{err_if_interrupted, Interruptee};
use crate::store::Transaction;
use crate::tables::{
    local_keys, local_lookup, mirror_lookup, remove_at, staging_guids, staging_replace, TablesView,
};

verus! {

/// Which object an incoming record is about.
#[derive(Debug, PartialEq, Eq)]
pub struct IncomingItem {
    guid: String,
    ext_id: String,
}

pub struct ItemView {
    pub guid: Seq<char>,
    pub ext_id: Seq<char>,
}

impl View for IncomingItem {
    type V = ItemView;

    closed spec fn view(&self) -> ItemView {
        ItemView { guid: self.guid@, ext_id: self.ext_id@ }
    }
}

impl IncomingItem {
    pub fn new(guid: String, ext_id: String) -> (item: IncomingItem)
        ensures
            item@ == (ItemView { guid: guid@, ext_id: ext_id@ }),
    {
        IncomingItem { guid, ext_id }
    }

    /// The server's name for the object.
    pub fn guid(&self) -> (guid: &String)
        ensures
            guid@ == self@.guid,
    {
        &self.guid
    }

    /// The extension that owns the object.
    pub fn ext_id(&self) -> (ext_id: &String)
        ensures
            ext_id@ == self@.ext_id,
    {
        &self.ext_id
    }
}

/// Where an incoming record finds itself: which of the local row and the
/// mirror row exist beside it. Each datum is `None` where the row holds no
/// JSON object, be it a deletion or text that does not parse to an object.
#[derive(Debug, PartialEq)]
pub enum IncomingState {
    IncomingOnly { incoming: Option<JsonMap> },
    HasLocal { incoming: Option<JsonMap>, local: Option<JsonMap> },
    NotLocal { incoming: Option<JsonMap>, mirror: Option<JsonMap> },
    Everywhere { incoming: Option<JsonMap>, mirror: Option<JsonMap>, local: Option<JsonMap> },
}

/// An `IncomingState` with the contents of its objects.
pub enum StateView {
    IncomingOnly { incoming: Option<Entries> },
    HasLocal { incoming: Option<Entries>, local: Option<Entries> },
    NotLocal { incoming: Option<Entries>, mirror: Option<Entries> },
    Everywhere { incoming: Option<Entries>, mirror: Option<Entries>, local: Option<Entries> },
}

impl View for IncomingState {
    type V = StateView;

    open spec fn view(&self) -> StateView {
        match *self {
            IncomingState::IncomingOnly { incoming } => StateView::IncomingOnly {
                incoming: option_entries(incoming),
            },
            IncomingState::HasLocal { incoming, local } => StateView::HasLocal {
                incoming: option_entries(incoming),
                local: option_entries(local),
            },
            IncomingState::NotLocal { incoming, mirror } => StateView::NotLocal {
                incoming: option_entries(incoming),
                mirror: option_entries(mirror),
            },
            IncomingState::Everywhere { incoming, mirror, local } => StateView::Everywhere {
                incoming: option_entries(incoming),
                mirror: option_entries(mirror),
                local: option_entries(local),
            },
        }
    }
}

/// What to do locally for an incoming record.
#[derive(Debug, PartialEq)]
pub enum IncomingAction {
    /// Delete the local row.
    DeleteLocally,
    /// Take the remote data; the row is clean afterwards.
    TakeRemote { data: JsonMap },
    /// Store the merged data; the row stays dirty, the merge must be uploaded.
    Merge { data: JsonMap },
    /// Local and remote agree; only the change counter is reset.
    Same,
}

/// An `IncomingAction` with the contents of its object.
pub enum ActionView {
    DeleteLocally,
    TakeRemote { data: Entries },
    Merge { data: Entries },
    Same,
}

impl View for IncomingAction {
    type V = ActionView;

    open spec fn view(&self) -> ActionView {
        match *self {
            IncomingAction::DeleteLocally => ActionView::DeleteLocally,
            IncomingAction::TakeRemote { data } => ActionView::TakeRemote { data: json_entries(data) },
            IncomingAction::Merge { data } => ActionView::Merge { data: json_entries(data) },
            IncomingAction::Same => ActionView::Same,
        }
    }
}

pub open spec fn state_views(states: Seq<(IncomingItem, IncomingState)>) -> Seq<(ItemView, StateView)> {
    states.map_values(|s: (IncomingItem, IncomingState)| (s.0@, s.1@))
}

pub open spec fn action_views(actions: Seq<(IncomingItem, IncomingAction)>) -> Seq<
    (ItemView, ActionView),
> {
    actions.map_values(|a: (IncomingItem, IncomingAction)| (a.0@, a.1@))
}

/// The number of bind variables that one staged row takes.
pub const VARIABLES_PER_ROW: usize = 3;

/// The number of rows in a number of full chunks, for statements that carry
/// at most `max_variables` bind variables.
pub open spec fn rows_in_chunks(max_variables: nat, chunks: int) -> int {
    chunks * (max_variables as int / 3)
}

/// The staging row that an incoming record becomes.
pub open spec fn staged_row(payload: PayloadView) -> StagingRowView {
    StagingRowView { guid: payload.guid, ext_id: payload.ext_id, data: payload.data }
}

/// `staging` after the records have been written to it, one after the other.
pub open spec fn stage_all(staging: Seq<StagingRowView>, payloads: Seq<PayloadView>) -> Seq<
    StagingRowView,
>
    decreases payloads.len(),
{
    if payloads.len() == 0 {
        staging
    } else {
        staging_replace(stage_all(staging, payloads.drop_last()), staged_row(payloads.last()))
    }
}

/// Staging a batch adds at most one row for each record.
pub proof fn lemma_stage_all_len(staging: Seq<StagingRowView>, payloads: Seq<PayloadView>)
    ensures
        stage_all(staging, payloads).len() <= staging.len() + payloads.len(),
    decreases payloads.len(),
{
    if payloads.len() > 0 {
        lemma_stage_all_len(staging, payloads.drop_last());
        let before = stage_all(staging, payloads.drop_last());
        staging_guids(before).index_of_first_ensures(staged_row(payloads.last()).guid);
    }
}

/// The rows of one statement: a copy of what `payloads[from..to]` hold, each
/// bound after the signal was asked.
fn bind_chunk<S: Interruptee + ?Sized>(
    payloads: &Vec<ServerPayload>,
    from: usize,
    to: usize,
    signal: &S,
) -> (bound: Result<Vec<StagingRow>, Error>)
    requires
        from <= to <= payloads.len(),
    ensures
        match bound {
            Ok(rows) => rows.len() == to - from && forall|j: int|
                0 <= j < rows.len() ==> (#[trigger] rows[j])@ == staged_row(payloads[from + j]@),
            Err(e) => e == Error::Interrupted && from < to && signal.can_fire(),
        },
{
    let mut rows: Vec<StagingRow> = Vec::new();
    let mut idx: usize = from;
    while idx < to
        invariant
            from <= idx <= to <= payloads.len(),
            rows.len() == idx - from,
            forall|j: int|
                0 <= j < rows.len() ==> (#[trigger] rows[j])@ == staged_row(payloads[from + j]@),
        decreases to - idx,
    {
        match err_if_interrupted(signal) {
            Err(e) => {
                return Err(e);
            },
            Ok(()) => {},
        }
        let bso = &payloads[idx];
        rows.push(
            StagingRow {
                guid: bso.guid.clone(),
                ext_id: bso.ext_id.clone(),
                data: copy_text(&bso.data),
            },
        );
        idx += 1;
    }
    Ok(rows)
}

/// Runs one statement: writes its rows to `staging`.
fn execute_chunk(
    tx: &mut Transaction,
    rows: Vec<StagingRow>,
    Ghost(payloads): Ghost<Seq<PayloadView>>,
    Ghost(from): Ghost<int>,
)
    requires
        old(tx).wf(),
        0 <= from,
        from + rows.len() <= payloads.len(),
        forall|j: int| 0 <= j < rows.len() ==> (#[trigger] rows[j])@ == staged_row(payloads[from + j]),
    ensures
        final(tx).wf(),
        final(tx).max_variables() == old(tx).max_variables(),
        final(tx)@.local == old(tx)@.local,
        final(tx)@.mirror == old(tx)@.mirror,
        forall|before: Seq<StagingRowView>|
            old(tx)@.staging == stage_all(before, payloads.take(from)) ==> final(tx)@.staging
                == stage_all(before, payloads.take(from + rows.len())),
{
    let mut idx: usize = 0;
    while idx < rows.len()
        invariant
            idx <= rows.len(),
            tx.wf(),
            tx.max_variables() == old(tx).max_variables(),
            tx@.local == old(tx)@.local,
            tx@.mirror == old(tx)@.mirror,
            0 <= from,
            from + rows.len() <= payloads.len(),
            forall|j: int|
                0 <= j < rows.len() ==> (#[trigger] rows[j])@ == staged_row(payloads[from + j]),
            forall|before: Seq<StagingRowView>|
                old(tx)@.staging == stage_all(before, payloads.take(from)) ==> tx@.staging
                    == stage_all(before, payloads.take(from + idx)),
        decreases rows.len() - idx,
    {
        tx.replace_staging(rows[idx].duplicate());
        proof {
            assert forall|before: Seq<StagingRowView>|
                old(tx)@.staging == stage_all(before, payloads.take(from)) implies tx@.staging
                == stage_all(before, payloads.take(from + idx + 1)) by {
                let longer = payloads.take(from + idx + 1);
                assert(longer.drop_last() =~= payloads.take(from + idx));
                assert(longer.last() == payloads[from + idx]);
            }
        }
        idx += 1;
    }
}

/// Stages the incoming records: writes each into `staging`, replacing a row
/// with the same guid. The records go in chunks of as many rows as one
/// statement can carry; the signal is asked before each row is bound, and a
/// statement runs only when all its rows are bound. When the signal fires,
/// the chunks before the one at hand are staged and the rest is not.
pub fn stage_incoming<S: Interruptee + ?Sized>(
    tx: &mut Transaction,
    incoming_bsos: Vec<ServerPayload>,
    signal: &S,
) -> (result: Result<(), Error>)
    requires
        old(tx).wf(),
    ensures
        final(tx).wf(),
        final(tx).max_variables() == old(tx).max_variables(),
        final(tx)@.local == old(tx)@.local,
        final(tx)@.mirror == old(tx)@.mirror,
        match result {
            Ok(()) => final(tx)@.staging == stage_all(
                old(tx)@.staging,
                payload_views(incoming_bsos@),
            ),
            Err(e) => e == Error::Interrupted && exists|chunks: int|
                0 <= chunks && #[trigger] rows_in_chunks(old(tx).max_variables(), chunks)
                    < incoming_bsos.len() && final(tx)@.staging == stage_all(
                    old(tx)@.staging,
                    payload_views(incoming_bsos@).take(
                        rows_in_chunks(old(tx).max_variables(), chunks),
                    ),
                ),
        },
        result is Err ==> signal.can_fire(),
{
    let chunk_size = tx.max_variable_number() / VARIABLES_PER_ROW;
    let ghost payloads = payload_views(incoming_bsos@);
    let ghost before = tx@.staging;
    let ghost limit = tx.max_variables();
    let ghost mut chunks: int = 0;
    let mut from: usize = 0;
    assert(payloads.take(0) =~= Seq::empty());
    while from < incoming_bsos.len()
        invariant
            tx.wf(),
            tx.max_variables() == limit,
            limit == old(tx).max_variables(),
            chunk_size == limit / 3,
            chunk_size >= 1,
            payloads == payload_views(incoming_bsos@),
            before == old(tx)@.staging,
            tx@.local == old(tx)@.local,
            tx@.mirror == old(tx)@.mirror,
            from <= incoming_bsos.len(),
            0 <= chunks,
            from < incoming_bsos.len() ==> from == rows_in_chunks(limit, chunks),
            tx@.staging == stage_all(before, payloads.take(from as int)),
        decreases incoming_bsos.len() - from,
    {
        let to = if incoming_bsos.len() - from > chunk_size {
            from + chunk_size
        } else {
            incoming_bsos.len()
        };
        match bind_chunk(&incoming_bsos, from, to, signal) {
            Err(e) => {
                return Err(e);
            },
            Ok(rows) => {
                execute_chunk(tx, rows, Ghost(payloads), Ghost(from as int));
            },
        }
        proof {
            assert(rows_in_chunks(limit, chunks + 1) == rows_in_chunks(limit, chunks) + limit / 3)
                by (nonlinear_arith);
            chunks = chunks + 1;
        }
        from = to;
    }
    assert(payloads.take(from as int) =~= payloads);
    Ok(())
}

/// The state of an incoming record, from the data of the record, whether a
/// local row and a mirror row exist beside it, and the data of those rows.
/// The data of a row that does not exist plays no part.
pub open spec fn state_from_columns(
    incoming: Option<Entries>,
    local_exists: bool,
    local: Option<Entries>,
    mirror_exists: bool,
    mirror: Option<Entries>,
) -> StateView {
    match (local_exists, mirror_exists) {
        (false, false) => StateView::IncomingOnly { incoming },
        (true, false) => StateView::HasLocal { incoming, local },
        (false, true) => StateView::NotLocal { incoming, mirror },
        (true, true) => StateView::Everywhere { incoming, mirror, local },
    }
}

/// The data of a row that may not exist.
pub open spec fn local_data(row: Option<LocalRowView>) -> Option<Seq<char>> {
    match row {
        Some(r) => r.data,
        None => None,
    }
}

/// The data of a mirror row that may not exist.
pub open spec fn mirror_data(row: Option<MirrorRowView>) -> Option<Seq<char>> {
    match row {
        Some(r) => r.data,
        None => None,
    }
}

/// The state of an incoming record, from its data and the rows found beside
/// it.
pub open spec fn state_from(
    incoming: Option<Entries>,
    local: Option<LocalRowView>,
    mirror: Option<MirrorRowView>,
) -> StateView {
    state_from_columns(
        incoming,
        local is Some,
        column_entries(local_data(local)),
        mirror is Some,
        column_entries(mirror_data(mirror)),
    )
}

/// The item and its state from one row of the join of `staging` with
/// `mirror` and `local`: the columns of the staged record, whether a mirror
/// row and a local row were found, and the data of those. Text that holds no
/// JSON object counts as no data.
pub fn incoming_from_row(
    guid: String,
    ext_id: String,
    s_data: &Option<String>,
    mirror_exists: bool,
    m_data: &Option<String>,
    local_exists: bool,
    l_data: &Option<String>,
) -> (incoming: (IncomingItem, IncomingState))
    ensures
        incoming.0@ == (ItemView { guid: guid@, ext_id: ext_id@ }),
        incoming.1@ == state_from_columns(
            column_entries(s_data.deep_view()),
            local_exists,
            column_entries(l_data.deep_view()),
            mirror_exists,
            column_entries(m_data.deep_view()),
        ),
{
    let incoming = json_map_from_text(s_data);
    let state = match (local_exists, mirror_exists) {
        (false, false) => IncomingState::IncomingOnly { incoming },
        (true, false) => IncomingState::HasLocal { incoming, local: json_map_from_text(l_data) },
        (false, true) => IncomingState::NotLocal { incoming, mirror: json_map_from_text(m_data) },
        (true, true) => IncomingState::Everywhere {
            incoming,
            mirror: json_map_from_text(m_data),
            local: json_map_from_text(l_data),
        },
    };
    (IncomingItem { guid, ext_id }, state)
}

/// The state of one staged record: which rows stand beside it, and what
/// they hold. The mirror row is the one with the record's guid, the local
/// row the one of the record's extension.
pub open spec fn state_of(
    staged: StagingRowView,
    mirror: Seq<MirrorRowView>,
    local: Seq<LocalRowView>,
) -> StateView {
    state_from(
        column_entries(staged.data),
        local_lookup(local, staged.ext_id),
        mirror_lookup(mirror, staged.guid),
    )
}

/// The item and the state of every staged record, in the order of `staging`.
pub open spec fn incoming_states(tables: TablesView) -> Seq<(ItemView, StateView)> {
    tables.staging.map_values(
        |staged: StagingRowView|
            (
                ItemView { guid: staged.guid, ext_id: staged.ext_id },
                state_of(staged, tables.mirror, tables.local),
            ),
    )
}

/// Gets the items to process from `staging`, each with the state it is in.
/// Text that holds no JSON object counts as no data; nothing here can fail.
pub fn get_incoming(tx: &Transaction) -> (incoming: Vec<(IncomingItem, IncomingState)>)
    ensures
        state_views(incoming@) == incoming_states(tx@),
{
    let staging = tx.staging_rows();
    let local = tx.local_rows();
    let mirror = tx.mirror_rows();
    let none: Option<String> = None;
    let mut incoming: Vec<(IncomingItem, IncomingState)> = Vec::new();
    let mut idx: usize = 0;
    while idx < staging.len()
        invariant
            idx <= staging.len(),
            staging_views(staging@) == tx@.staging,
            local_views(local@) == tx@.local,
            mirror_views(mirror@) == tx@.mirror,
            none is None,
            incoming.len() == idx,
            forall|j: int|
                0 <= j < idx ==> (#[trigger] incoming[j]).0@ == incoming_states(tx@)[j].0
                    && incoming[j].1@ == incoming_states(tx@)[j].1,
        decreases staging.len() - idx,
    {
        let row = &staging[idx];
        assert(row@ == tx@.staging[idx as int]);
        let l = tx.local_position(&row.ext_id);
        let m = tx.mirror_position(&row.guid);
        let l_data = match l {
            Some(l) => {
                assert(local[l as int]@ == tx@.local[l as int]);
                &local[l].data
            },
            None => &none,
        };
        let m_data = match m {
            Some(m) => {
                assert(mirror[m as int]@ == tx@.mirror[m as int]);
                &mirror[m].data
            },
            None => &none,
        };
        incoming.push(
            incoming_from_row(
                row.guid.clone(),
                row.ext_id.clone(),
                &row.data,
                m.is_some(),
                m_data,
                l.is_some(),
                l_data,
            ),
        );
        idx += 1;
    }
    assert(state_views(incoming@) =~= incoming_states(tx@));
    incoming
}

/// The action planned for a state.
pub open spec fn plan_spec(state: StateView) -> ActionView {
    match state {
        StateView::Everywhere { incoming: Some(i), mirror, local: Some(l) } => merge_spec(i, l, mirror),
        StateView::Everywhere { incoming: Some(i), mirror: _, local: None } => ActionView::TakeRemote {
            data: i,
        },
        StateView::Everywhere { incoming: None, mirror: _, local: _ } => ActionView::DeleteLocally,
        StateView::HasLocal { incoming: Some(i), local: Some(l) } => merge_spec(i, l, None),
        StateView::HasLocal { incoming: Some(_), local: None } => ActionView::DeleteLocally,
        StateView::HasLocal { incoming: None, local: Some(l) } => ActionView::TakeRemote { data: l },
        StateView::HasLocal { incoming: None, local: None } => ActionView::Same,
        StateView::NotLocal { incoming: Some(i), mirror: _ } => ActionView::TakeRemote { data: i },
        StateView::NotLocal { incoming: None, mirror: _ } => ActionView::Same,
        StateView::IncomingOnly { incoming: Some(i) } => ActionView::TakeRemote { data: i },
        StateView::IncomingOnly { incoming: None } => ActionView::DeleteLocally,
    }
}

/// Takes the state of an item and returns the action to take for it.
pub fn plan_incoming(s: IncomingState) -> (action: IncomingAction)
    ensures
        action@ == plan_spec(s@),
{
    match s {
        IncomingState::Everywhere { incoming, local, mirror } => {
            match (incoming, local, mirror) {
                (Some(id), Some(ld), Some(md)) => merge(id, ld, Some(md)),
                (Some(id), Some(ld), None) => merge(id, ld, None),
                (Some(id), None, _) => IncomingAction::TakeRemote { data: id },
                (None, _, _) => IncomingAction::DeleteLocally,
            }
        },
        IncomingState::HasLocal { incoming, local } => {
            match (incoming, local) {
                (Some(id), Some(ld)) => merge(id, ld, None),
                (Some(_), None) => IncomingAction::DeleteLocally,
                (None, Some(data)) => IncomingAction::TakeRemote { data },
                (None, None) => IncomingAction::Same,
            }
        },
        IncomingState::NotLocal { incoming, .. } => {
            match incoming {
                Some(data) => IncomingAction::TakeRemote { data },
                None => IncomingAction::Same,
            }
        },
        IncomingState::IncomingOnly { incoming } => {
            match incoming {
                Some(data) => IncomingAction::TakeRemote { data },
                None => IncomingAction::DeleteLocally,
            }
        },
    }
}

/// The action planned for every state.
pub open spec fn planned_actions(states: Seq<(ItemView, StateView)>) -> Seq<(ItemView, ActionView)> {
    states.map_values(|s: (ItemView, StateView)| (s.0, plan_spec(s.1)))
}

/// Plans an action for every item.
pub fn plan_all(incoming: Vec<(IncomingItem, IncomingState)>) -> (actions: Vec<
    (IncomingItem, IncomingAction),
>)
    ensures
        action_views(actions@) == planned_actions(state_views(incoming@)),
{
    let ghost states = state_views(incoming@);
    let ghost count = incoming.len();
    let mut rest = incoming;
    let mut reversed: Vec<(IncomingItem, IncomingAction)> = Vec::new();
    while rest.len() > 0
        invariant
            rest.len() + reversed.len() == count,
            states.len() == count,
            forall|j: int| 0 <= j < rest.len() ==> (#[trigger] rest[j]).0@ == states[j].0 && rest[j].1@ == states[j].1,
            forall|j: int|
                0 <= j < reversed.len() ==> (#[trigger] reversed[j]).0@ == states[count - 1 - j].0
                    && reversed[j].1@ == plan_spec(states[count - 1 - j].1),
        decreases rest.len(),
    {
        match rest.pop() {
            Some((item, state)) => {
                let action = plan_incoming(state);
                reversed.push((item, action));
            },
            None => {},
        }
    }
    let mut actions: Vec<(IncomingItem, IncomingAction)> = Vec::new();
    while reversed.len() > 0
        invariant
            reversed.len() + actions.len() == count,
            states.len() == count,
            forall|j: int|
                0 <= j < reversed.len() ==> (#[trigger] reversed[j]).0@ == states[count - 1 - j].0
                    && reversed[j].1@ == plan_spec(states[count - 1 - j].1),
            forall|j: int|
                0 <= j < actions.len() ==> (#[trigger] actions[j]).0@ == states[j].0
                    && actions[j].1@ == plan_spec(states[j].1),
        decreases reversed.len(),
    {
        match reversed.pop() {
            Some(entry) => {
                actions.push(entry);
            },
            None => {},
        }
    }
    assert(action_views(actions@) =~= planned_actions(states));
    actions
}

/// `local` after one action on the row of an extension. Taking the remote
/// writes the row, and makes it where there is none; the other actions leave
/// an extension without a row as it is.
pub open spec fn apply_action_spec(
    local: Seq<LocalRowView>,
    ext_id: Seq<char>,
    action: ActionView,
) -> Seq<LocalRowView> {
    let at = local_keys(local).index_of_first(ext_id);
    match action {
        ActionView::DeleteLocally => remove_at(local, at),
        ActionView::TakeRemote { data } => {
            let row = LocalRowView {
                ext_id,
                data: Some(json_text_of(data)),
                sync_change_counter: 0,
            };
            match at {
                Some(i) => local.update(i, row),
                None => local.push(row),
            }
        },
        ActionView::Merge { data } => match at {
            Some(i) => local.update(
                i,
                LocalRowView {
                    ext_id,
                    data: Some(json_text_of(data)),
                    sync_change_counter: local[i].sync_change_counter + 1,
                },
            ),
            None => local,
        },
        ActionView::Same => match at {
            Some(i) => local.update(
                i,
                LocalRowView { ext_id, data: local[i].data, sync_change_counter: 0 },
            ),
            None => local,
        },
    }
}

/// `local` after the actions, one after the other.
pub open spec fn apply_all(local: Seq<LocalRowView>, actions: Seq<(ItemView, ActionView)>) -> Seq<
    LocalRowView,
>
    decreases actions.len(),
{
    if actions.len() == 0 {
        local
    } else {
        apply_action_spec(
            apply_all(local, actions.drop_last()),
            actions.last().0.ext_id,
            actions.last().1,
        )
    }
}

/// Every change counter can still be raised `room` times.
pub open spec fn counters_have_room(local: Seq<LocalRowView>, room: int) -> bool {
    &&& room <= i32::MAX
    &&& forall|i: int|
        0 <= i < local.len() ==> (#[trigger] local[i]).sync_change_counter + room <= i32::MAX
}

/// An action uses up at most one of the raises that the counters have room
/// for.
pub proof fn lemma_apply_keeps_room(
    local: Seq<LocalRowView>,
    ext_id: Seq<char>,
    action: ActionView,
    room: int,
)
    requires
        room >= 1,
        counters_have_room(local, room),
    ensures
        counters_have_room(apply_action_spec(local, ext_id, action), room - 1),
{
    let after = apply_action_spec(local, ext_id, action);
    local_keys(local).index_of_first_ensures(ext_id);
    assert forall|i: int| 0 <= i < after.len() implies (#[trigger] after[i]).sync_change_counter
        + room - 1 <= i32::MAX by {
        match local_keys(local).index_of_first(ext_id) {
            Some(at) => {
                if action is DeleteLocally {
                    if i < at {
                        assert(after[i] == local[i]);
                    } else {
                        assert(after[i] == local[i + 1]);
                    }
                } else if i != at {
                    assert(after[i] == local[i]);
                } else {
                    assert(local[at].sync_change_counter + room <= i32::MAX);
                }
            },
            None => {
                if i < local.len() {
                    assert(after[i] == local[i]);
                }
            },
        }
    }
}

/// Whether every change counter can still be raised `raises` times.
pub fn counters_fit(tx: &Transaction, raises: usize) -> (fit: bool)
    ensures
        fit == counters_have_room(tx@.local, raises as int),
{
    if raises > i32::MAX as usize {
        return false;
    }
    let local = tx.local_rows();
    let ghost rows = tx@.local;
    let limit: i64 = i32::MAX as i64 - raises as i64;
    let mut idx: usize = 0;
    while idx < local.len()
        invariant
            idx <= local.len(),
            local_views(local@) == rows,
            rows == tx@.local,
            raises <= i32::MAX,
            limit == i32::MAX - raises,
            forall|j: int| 0 <= j < idx ==> (#[trigger] rows[j]).sync_change_counter <= limit,
        decreases local.len() - idx,
    {
        assert(local[idx as int]@ == rows[idx as int]);
        if local[idx].sync_change_counter as i64 > limit {
            assert(rows[idx as int].sync_change_counter + raises > i32::MAX);
            return false;
        }
        idx += 1;
    }
    true
}

/// Applies one action to the local row of the item's extension.
pub fn apply_action(tx: &mut Transaction, item: &IncomingItem, action: &IncomingAction)
    requires
        old(tx).wf(),
        counters_have_room(old(tx)@.local, 1),
    ensures
        final(tx).wf(),
        final(tx).max_variables() == old(tx).max_variables(),
        final(tx)@ == (TablesView {
            local: apply_action_spec(old(tx)@.local, item@.ext_id, action@),
            ..old(tx)@
        }),
{
    let ghost local = tx@.local;
    let at = tx.local_position(item.ext_id());
    proof {
        local_keys(local).index_of_first_ensures(item@.ext_id);
    }
    match action {
        IncomingAction::DeleteLocally => {
            if let Some(i) = at {
                tx.remove_local(i);
            }
        },
        IncomingAction::TakeRemote { data } => {
            let row = LocalRow {
                ext_id: item.ext_id().clone(),
                data: Some(json_object_text(data)),
                sync_change_counter: 0,
            };
            match at {
                Some(i) => {
                    tx.set_local(i, row);
                },
                None => {
                    tx.push_local(row);
                },
            }
        },
        IncomingAction::Merge { data } => {
            if let Some(i) = at {
                let counter = tx.local_rows()[i].sync_change_counter;
                assert(counter == local[i as int].sync_change_counter);
                let row = LocalRow {
                    ext_id: item.ext_id().clone(),
                    data: Some(json_object_text(data)),
                    sync_change_counter: counter + 1,
                };
                tx.set_local(i, row);
            }
        },
        IncomingAction::Same => {
            if let Some(i) = at {
                let old_row = &tx.local_rows()[i];
                assert(old_row@ == local[i as int]);
                let row = LocalRow {
                    ext_id: item.ext_id().clone(),
                    data: copy_text(&old_row.data),
                    sync_change_counter: 0,
                };
                tx.set_local(i, row);
            }
        },
    }
}

/// Applies the actions to `local`, one after the other, asking the signal
/// before each. When the signal fires, the actions before the one at hand are
/// applied and the rest is not; it is for the caller to give the transaction
/// up.
pub fn apply_actions<S: Interruptee + ?Sized>(
    tx: &mut Transaction,
    actions: Vec<(IncomingItem, IncomingAction)>,
    signal: &S,
) -> (result: Result<(), Error>)
    requires
        old(tx).wf(),
        counters_have_room(old(tx)@.local, actions.len() as int),
    ensures
        final(tx).wf(),
        final(tx).max_variables() == old(tx).max_variables(),
        final(tx)@.mirror == old(tx)@.mirror,
        final(tx)@.staging == old(tx)@.staging,
        match result {
            Ok(()) => final(tx)@.local == apply_all(old(tx)@.local, action_views(actions@)),
            Err(e) => e == Error::Interrupted && exists|done: int|
                0 <= done < actions.len() && final(tx)@.local == apply_all(
                    old(tx)@.local,
                    #[trigger] action_views(actions@).take(done),
                ),
        },
        result is Err ==> signal.can_fire(),
{
    let ghost views = action_views(actions@);
    let mut idx: usize = 0;
    assert(views.take(0) =~= Seq::empty());
    while idx < actions.len()
        invariant
            idx <= actions.len(),
            views == action_views(actions@),
            tx.wf(),
            tx.max_variables() == old(tx).max_variables(),
            tx@.mirror == old(tx)@.mirror,
            tx@.staging == old(tx)@.staging,
            tx@.local == apply_all(old(tx)@.local, views.take(idx as int)),
            counters_have_room(tx@.local, actions.len() - idx),
        decreases actions.len() - idx,
    {
        match err_if_interrupted(signal) {
            Err(e) => {
                return Err(e);
            },
            Ok(()) => {},
        }
        let ghost before = tx@.local;
        apply_action(tx, &actions[idx].0, &actions[idx].1);
        proof {
            let longer = views.take(idx as int + 1);
            assert(longer.drop_last() =~= views.take(idx as int));
            assert(longer.last() == views[idx as int]);
            lemma_apply_keeps_room(before, views[idx as int].0.ext_id, views[idx as int].1, actions.len() - idx);
        }
        idx += 1;
    }
    assert(views.take(idx as int) =~= views);
    Ok(())
}

} // verus!
