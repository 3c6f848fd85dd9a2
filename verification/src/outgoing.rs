//! The outgoing side of a sync: what has to be uploaded, and how the books
//! are kept once the server has confirmed the upload.
use vstd::prelude::*;
use crate::error::Error;
use crate::payload::{PayloadView, ServerPayload};
use crate::rows::{
    copy_text, local_views, mirror_views, LocalRow, LocalRowView, MirrorRow, MirrorRowView,
    StagingRowView,
};
use crate::signal::{err_if_interrupted, Interruptee};
use crate::store::Transaction;
use crate::tables::{
    local_keys, mirror_lookup_ext, mirror_replace, without_confirmed_tombstones, TablesView,
};

verus! {

/// What is remembered of an item while its upload is under way: whose it is,
/// and the change counter of its row when the payload was made.
#[derive(Debug, PartialEq, Eq)]
pub struct OutgoingStateHolder {
    ext_id: String,
    change_counter: i32,
}

pub struct OutgoingStateView {
    pub ext_id: Seq<char>,
    pub change_counter: int,
}

impl View for OutgoingStateHolder {
    type V = OutgoingStateView;

    closed spec fn view(&self) -> OutgoingStateView {
        OutgoingStateView { ext_id: self.ext_id@, change_counter: self.change_counter as int }
    }
}

impl OutgoingStateHolder {
    /// The extension whose row the item was made from.
    pub fn ext_id(&self) -> (ext_id: &String)
        ensures
            ext_id@ == self@.ext_id,
    {
        &self.ext_id
    }

    /// The change counter of the row when the item was made.
    pub fn change_counter(&self) -> (counter: i32)
        ensures
            counter == self@.change_counter,
    {
        self.change_counter
    }
}

/// The payload to send to the server, with the state to hand back to
/// `record_uploaded` once it is there.
#[derive(Debug, PartialEq, Eq)]
pub struct OutgoingInfo {
    pub state: OutgoingStateHolder,
    pub payload: ServerPayload,
}

pub struct OutgoingInfoView {
    pub state: OutgoingStateView,
    pub payload: PayloadView,
}

impl View for OutgoingInfo {
    type V = OutgoingInfoView;

    open spec fn view(&self) -> OutgoingInfoView {
        OutgoingInfoView { state: self.state@, payload: self.payload@ }
    }
}

pub open spec fn info_views(items: Seq<OutgoingInfo>) -> Seq<OutgoingInfoView> {
    items.map_values(|i: OutgoingInfo| i@)
}

/// Makes the identifiers of objects that the server has not seen yet. What
/// it returns comes from a random source outside this crate.
pub trait GuidSource {
    fn new_guid(&mut self) -> String;
}

/// The item that a dirty local row is uploaded as, under a guid. A row
/// without data goes out as a deletion. The time stamp is the server's to
/// set, and zero here.
pub open spec fn outgoing_info(guid: Seq<char>, row: LocalRowView) -> OutgoingInfoView {
    OutgoingInfoView {
        state: OutgoingStateView { ext_id: row.ext_id, change_counter: row.sync_change_counter },
        payload: PayloadView {
            ext_id: row.ext_id,
            guid,
            data: row.data,
            deleted: row.data is None,
            last_modified: 0,
        },
    }
}

impl OutgoingInfo {
    /// The item for one dirty row, from the columns of the row and the guid
    /// to upload it under.
    pub fn from_row(
        guid: String,
        ext_id: String,
        raw_data: Option<String>,
        sync_change_counter: i32,
    ) -> (info: OutgoingInfo)
        ensures
            info@ == outgoing_info(
                guid@,
                LocalRowView {
                    ext_id: ext_id@,
                    data: raw_data.deep_view(),
                    sync_change_counter: sync_change_counter as int,
                },
            ),
    {
        let (data, deleted) = if raw_data.is_some() {
            (raw_data, false)
        } else {
            (None, true)
        };
        OutgoingInfo {
            state: OutgoingStateHolder {
                ext_id: ext_id.clone(),
                change_counter: sync_change_counter,
            },
            payload: ServerPayload { ext_id, guid, data, deleted, last_modified: 0 },
        }
    }
}

/// The rows of `local` with changes to upload, in the order of the table.
pub open spec fn dirty_rows(local: Seq<LocalRowView>) -> Seq<LocalRowView>
    decreases local.len(),
{
    if local.len() == 0 {
        local
    } else if local.last().sync_change_counter > 0 {
        dirty_rows(local.drop_last()).push(local.last())
    } else {
        dirty_rows(local.drop_last())
    }
}

/// An item is the upload of a dirty row: it carries the row's extension,
/// data and change counter, under the guid of the extension's mirror row
/// where there is one.
pub open spec fn is_upload_of(
    info: OutgoingInfoView,
    row: LocalRowView,
    mirror: Seq<MirrorRowView>,
) -> bool {
    &&& info == outgoing_info(info.payload.guid, row)
    &&& mirror_lookup_ext(mirror, row.ext_id) matches Some(m) ==> info.payload.guid == m.guid
}

/// Gets what should be uploaded: one item for every local row whose change
/// counter is above zero, in the order of `local`. An extension without a
/// mirror row gets a new guid from `guids`.
pub fn get_outgoing<S: Interruptee + ?Sized, G: GuidSource>(
    tx: &Transaction,
    _signal: &S,
    guids: &mut G,
) -> (outgoing: Vec<OutgoingInfo>)
    ensures
        outgoing.len() == dirty_rows(tx@.local).len(),
        forall|j: int|
            0 <= j < outgoing.len() ==> is_upload_of(
                (#[trigger] outgoing[j])@,
                dirty_rows(tx@.local)[j],
                tx@.mirror,
            ),
{
    let local = tx.local_rows();
    let mirror = tx.mirror_rows();
    let ghost rows = tx@.local;
    let mut outgoing: Vec<OutgoingInfo> = Vec::new();
    let mut idx: usize = 0;
    assert(rows.take(0) =~= Seq::empty());
    while idx < local.len()
        invariant
            idx <= local.len(),
            rows == tx@.local,
            local_views(local@) == rows,
            mirror_views(mirror@) == tx@.mirror,
            outgoing.len() == dirty_rows(rows.take(idx as int)).len(),
            forall|j: int|
                0 <= j < outgoing.len() ==> is_upload_of(
                    (#[trigger] outgoing[j])@,
                    dirty_rows(rows.take(idx as int))[j],
                    tx@.mirror,
                ),
        decreases local.len() - idx,
    {
        let row = &local[idx];
        proof {
            assert(row@ == rows[idx as int]);
            assert(rows.take(idx as int + 1).drop_last() =~= rows.take(idx as int));
            assert(rows.take(idx as int + 1).last() == rows[idx as int]);
        }
        if row.sync_change_counter > 0 {
            let guid = match tx.mirror_position_ext(&row.ext_id) {
                Some(m) => {
                    assert(mirror[m as int]@ == tx@.mirror[m as int]);
                    mirror[m].guid.clone()
                },
                None => guids.new_guid(),
            };
            let info = OutgoingInfo::from_row(
                guid,
                row.ext_id.clone(),
                copy_text(&row.data),
                row.sync_change_counter,
            );
            outgoing.push(info);
        }
        idx += 1;
    }
    assert(rows.take(idx as int) =~= rows);
    outgoing
}

/// `local` after the change counter of an item's extension has been lowered
/// by the counter that the item carries. Changes made while the upload was
/// under way stay counted.
pub open spec fn decrement_spec(local: Seq<LocalRowView>, item: OutgoingInfoView) -> Seq<
    LocalRowView,
> {
    match local_keys(local).index_of_first(item.state.ext_id) {
        Some(i) => local.update(
            i,
            LocalRowView {
                sync_change_counter: local[i].sync_change_counter - item.state.change_counter,
                ..local[i]
            },
        ),
        None => local,
    }
}

/// `local` after the counters have been lowered for every item in turn.
pub open spec fn decrement_all(local: Seq<LocalRowView>, items: Seq<OutgoingInfoView>) -> Seq<
    LocalRowView,
>
    decreases items.len(),
{
    if items.len() == 0 {
        local
    } else {
        decrement_spec(decrement_all(local, items.drop_last()), items.last())
    }
}

/// Lowering the counter for an item stays within the counter's type.
pub open spec fn decrement_fits(local: Seq<LocalRowView>, item: OutgoingInfoView) -> bool {
    match local_keys(local).index_of_first(item.state.ext_id) {
        Some(i) => i32::MIN <= local[i].sync_change_counter - item.state.change_counter
            <= i32::MAX,
        None => true,
    }
}

/// Lowering the counters for every item in turn stays within the counter's
/// type.
pub open spec fn decrements_fit(local: Seq<LocalRowView>, items: Seq<OutgoingInfoView>) -> bool
    decreases items.len(),
{
    items.len() == 0 || (decrements_fit(local, items.drop_last()) && decrement_fits(
        decrement_all(local, items.drop_last()),
        items.last(),
    ))
}

/// The mirror row that a staged record becomes. `staging` keeps no time
/// stamp, so the row starts with none.
pub open spec fn promoted_row(staged: StagingRowView) -> MirrorRowView {
    MirrorRowView { guid: staged.guid, ext_id: staged.ext_id, data: staged.data, server_modified: 0 }
}

/// `mirror` after every staged record has been written to it.
pub open spec fn promote_all(mirror: Seq<MirrorRowView>, staging: Seq<StagingRowView>) -> Seq<
    MirrorRowView,
>
    decreases staging.len(),
{
    if staging.len() == 0 {
        mirror
    } else {
        mirror_replace(promote_all(mirror, staging.drop_last()), promoted_row(staging.last()))
    }
}

/// The mirror row that an uploaded item becomes.
pub open spec fn uploaded_row(item: OutgoingInfoView) -> MirrorRowView {
    MirrorRowView {
        guid: item.payload.guid,
        ext_id: item.state.ext_id,
        data: item.payload.data,
        server_modified: item.payload.last_modified,
    }
}

/// `mirror` after every uploaded item has been written to it.
pub open spec fn upload_all(mirror: Seq<MirrorRowView>, items: Seq<OutgoingInfoView>) -> Seq<
    MirrorRowView,
>
    decreases items.len(),
{
    if items.len() == 0 {
        mirror
    } else {
        mirror_replace(upload_all(mirror, items.drop_last()), uploaded_row(items.last()))
    }
}

/// The tables after an upload has been recorded: the counters are lowered,
/// what was staged moves to the mirror, `staging` is emptied, the confirmed
/// tombstones leave `local`, and the uploaded items are written to the
/// mirror.
pub open spec fn uploaded_spec(tables: TablesView, items: Seq<OutgoingInfoView>) -> TablesView {
    TablesView {
        local: without_confirmed_tombstones(decrement_all(tables.local, items)),
        mirror: upload_all(promote_all(tables.mirror, tables.staging), items),
        staging: Seq::empty(),
    }
}

/// The tables that an interrupted `record_uploaded` leaves: either some of
/// the counters are lowered and nothing else has happened, or all but the
/// last step is done and some of the items are written to the mirror.
pub open spec fn interrupted_upload(
    before: TablesView,
    items: Seq<OutgoingInfoView>,
    after: TablesView,
) -> bool {
    exists|done: int|
        0 <= done < items.len() && (after == (TablesView {
            local: decrement_all(before.local, #[trigger] items.take(done)),
            ..before
        }) || after == (TablesView {
            local: without_confirmed_tombstones(decrement_all(before.local, items)),
            mirror: upload_all(promote_all(before.mirror, before.staging), items.take(done)),
            staging: Seq::empty(),
        }))
}

/// If lowering the counters fits for all items, it fits for the first few.
pub proof fn lemma_decrements_fit_prefix(
    local: Seq<LocalRowView>,
    items: Seq<OutgoingInfoView>,
    count: int,
)
    requires
        decrements_fit(local, items),
        0 <= count <= items.len(),
    ensures
        decrements_fit(local, items.take(count)),
    decreases items.len(),
{
    if count == items.len() {
        assert(items.take(count) =~= items);
    } else {
        lemma_decrements_fit_prefix(local, items.drop_last(), count);
        assert(items.drop_last().take(count) =~= items.take(count));
    }
}

/// Whether lowering the counters for every item in turn stays within the
/// counter's type.
pub fn decrements_fit_in(tx: &Transaction, items: &[OutgoingInfo]) -> (fit: bool)
    requires
        tx.wf(),
    ensures
        fit == decrements_fit(tx@.local, info_views(items@)),
{
    let ghost views = info_views(items@);
    let ghost local = tx@.local;
    let mut scratch = tx.duplicate();
    let mut idx: usize = 0;
    assert(views.take(0) =~= Seq::empty());
    while idx < items.len()
        invariant
            idx <= items.len(),
            views == info_views(items@),
            local == tx@.local,
            scratch.wf(),
            scratch@.local == decrement_all(local, views.take(idx as int)),
            decrements_fit(local, views.take(idx as int)),
        decreases items.len() - idx,
    {
        let item = &items[idx];
        let ghost lowered = scratch@.local;
        proof {
            assert(views.take(idx as int + 1).drop_last() =~= views.take(idx as int));
            assert(views.take(idx as int + 1).last() == views[idx as int]);
            local_keys(lowered).index_of_first_ensures(item@.state.ext_id);
        }
        if let Some(i) = scratch.local_position(item.state.ext_id()) {
            let counter = scratch.local_rows()[i].sync_change_counter;
            assert(counter == lowered[i as int].sync_change_counter);
            let after: i64 = counter as i64 - item.state.change_counter() as i64;
            if after < i32::MIN as i64 || after > i32::MAX as i64 {
                proof {
                    if decrements_fit(local, views) {
                        lemma_decrements_fit_prefix(local, views, idx as int + 1);
                    }
                }
                return false;
            }
        }
        decrement_counter(&mut scratch, item);
        idx += 1;
    }
    assert(views.take(idx as int) =~= views);
    true
}

/// Lowers the change counter of the item's extension by the counter that the
/// item carries.
pub fn decrement_counter(tx: &mut Transaction, item: &OutgoingInfo)
    requires
        old(tx).wf(),
        decrement_fits(old(tx)@.local, item@),
    ensures
        final(tx).wf(),
        final(tx).max_variables() == old(tx).max_variables(),
        final(tx)@ == (TablesView { local: decrement_spec(old(tx)@.local, item@), ..old(tx)@ }),
{
    let ghost local = tx@.local;
    proof {
        local_keys(local).index_of_first_ensures(item@.state.ext_id);
    }
    if let Some(i) = tx.local_position(item.state.ext_id()) {
        let row = &tx.local_rows()[i];
        assert(row@ == local[i as int]);
        let lowered = LocalRow {
            ext_id: row.ext_id.clone(),
            data: copy_text(&row.data),
            sync_change_counter: row.sync_change_counter - item.state.change_counter(),
        };
        tx.set_local(i, lowered);
    }
}

/// Writes every staged record to the mirror.
pub fn promote_staging(tx: &mut Transaction)
    requires
        old(tx).wf(),
    ensures
        final(tx).wf(),
        final(tx).max_variables() == old(tx).max_variables(),
        final(tx)@ == (TablesView {
            mirror: promote_all(old(tx)@.mirror, old(tx)@.staging),
            ..old(tx)@
        }),
{
    let ghost staging = tx@.staging;
    let count = tx.staging_rows().len();
    let mut idx: usize = 0;
    assert(staging.take(0) =~= Seq::empty());
    while idx < count
        invariant
            idx <= count,
            count == staging.len(),
            tx.wf(),
            tx.max_variables() == old(tx).max_variables(),
            tx@ == (TablesView {
                mirror: promote_all(old(tx)@.mirror, staging.take(idx as int)),
                ..old(tx)@
            }),
            staging == old(tx)@.staging,
        decreases count - idx,
    {
        let staged = &tx.staging_rows()[idx];
        assert(staged@ == staging[idx as int]);
        let row = MirrorRow {
            guid: staged.guid.clone(),
            ext_id: staged.ext_id.clone(),
            data: copy_text(&staged.data),
            server_modified: 0,
        };
        proof {
            assert(staging.take(idx as int + 1).drop_last() =~= staging.take(idx as int));
            assert(staging.take(idx as int + 1).last() == staging[idx as int]);
        }
        tx.replace_mirror(row);
        idx += 1;
    }
    assert(staging.take(idx as int) =~= staging);
}

/// Writes an uploaded item to the mirror.
pub fn upload_to_mirror(tx: &mut Transaction, item: &OutgoingInfo)
    requires
        old(tx).wf(),
    ensures
        final(tx).wf(),
        final(tx).max_variables() == old(tx).max_variables(),
        final(tx)@ == (TablesView {
            mirror: mirror_replace(old(tx)@.mirror, uploaded_row(item@)),
            ..old(tx)@
        }),
{
    let row = MirrorRow {
        guid: item.payload.guid.clone(),
        ext_id: item.state.ext_id().clone(),
        data: copy_text(&item.payload.data),
        server_modified: item.payload.last_modified,
    };
    tx.replace_mirror(row);
}

/// Records that the items were uploaded, so that the tables say what the
/// server now holds. The signal is asked before each item, in the first step
/// and in the last. When it fires, what was done so far stays in the
/// transaction; it is for the caller to give the transaction up.
pub fn record_uploaded<S: Interruptee + ?Sized>(
    tx: &mut Transaction,
    items: &[OutgoingInfo],
    signal: &S,
) -> (result: Result<(), Error>)
    requires
        old(tx).wf(),
        decrements_fit(old(tx)@.local, info_views(items@)),
    ensures
        final(tx).wf(),
        final(tx).max_variables() == old(tx).max_variables(),
        match result {
            Ok(()) => final(tx)@ == uploaded_spec(old(tx)@, info_views(items@)),
            Err(e) => e == Error::Interrupted && interrupted_upload(
                old(tx)@,
                info_views(items@),
                final(tx)@,
            ),
        },
        result is Err ==> signal.can_fire(),
{
    let ghost before = tx@;
    let ghost views = info_views(items@);
    let mut idx: usize = 0;
    assert(views.take(0) =~= Seq::empty());
    while idx < items.len()
        invariant
            idx <= items.len(),
            views == info_views(items@),
            before == old(tx)@,
            decrements_fit(before.local, views),
            tx.wf(),
            tx.max_variables() == old(tx).max_variables(),
            tx@ == (TablesView { local: decrement_all(before.local, views.take(idx as int)), ..before }),
        decreases items.len() - idx,
    {
        match err_if_interrupted(signal) {
            Err(e) => {
                return Err(e);
            },
            Ok(()) => {},
        }
        proof {
            lemma_decrements_fit_prefix(before.local, views, idx as int + 1);
            assert(views.take(idx as int + 1).drop_last() =~= views.take(idx as int));
            assert(views.take(idx as int + 1).last() == views[idx as int]);
        }
        decrement_counter(tx, &items[idx]);
        idx += 1;
    }
    assert(views.take(idx as int) =~= views);
    promote_staging(tx);
    tx.clear_staging();
    tx.delete_confirmed_tombstones();
    let ghost middle = tx@;
    let mut idx: usize = 0;
    while idx < items.len()
        invariant
            idx <= items.len(),
            views == info_views(items@),
            before == old(tx)@,
            tx.wf(),
            tx.max_variables() == old(tx).max_variables(),
            middle == (TablesView {
                local: without_confirmed_tombstones(decrement_all(before.local, views)),
                mirror: promote_all(before.mirror, before.staging),
                staging: Seq::empty(),
            }),
            tx@ == (TablesView { mirror: upload_all(middle.mirror, views.take(idx as int)), ..middle }),
        decreases items.len() - idx,
    {
        match err_if_interrupted(signal) {
            Err(e) => {
                return Err(e);
            },
            Ok(()) => {},
        }
        proof {
            assert(views.take(idx as int + 1).drop_last() =~= views.take(idx as int));
            assert(views.take(idx as int + 1).last() == views[idx as int]);
        }
        upload_to_mirror(tx, &items[idx]);
        idx += 1;
    }
    assert(views.take(idx as int) =~= views);
    Ok(())
}

} // verus!
