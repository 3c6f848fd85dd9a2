//! One sync cycle at the store: reconcile what came in, say what goes out,
//! record what was uploaded. Each step that writes runs in a transaction of
//! its own and either lasts as a whole or leaves the store as it was.
use vstd::prelude::*;
use crate::error::Error;
use crate::incoming::{
    action_views, apply_actions, apply_all, counters_fit, counters_have_room, get_incoming,
    incoming_states, lemma_stage_all_len, plan_all, planned_actions, stage_all, stage_incoming,
};
use crate::outgoing::{
    decrements_fit, decrements_fit_in, dirty_rows, get_outgoing, info_views, is_upload_of,
    record_uploaded, uploaded_spec, GuidSource, OutgoingInfo,
};
use crate::payload::{payload_views, PayloadView, ServerPayload};
use crate::signal::Interruptee;
use crate::store::Store;
use crate::tables::TablesView;

verus! {

/// The tables after a batch of incoming records has been reconciled: the
/// records are staged, every staged record is classified against the tables
/// as they stand then and an action is planned for it, the actions are
/// applied to `local`, and `staging` is emptied. `mirror` is left alone.
pub open spec fn reconcile_spec(tables: TablesView, payloads: Seq<PayloadView>) -> TablesView {
    let staged = TablesView { staging: stage_all(tables.staging, payloads), ..tables };
    TablesView {
        local: apply_all(tables.local, planned_actions(incoming_states(staged))),
        mirror: tables.mirror,
        staging: Seq::empty(),
    }
}

impl Store {
    /// Reconciles a batch of incoming records with the store, in one
    /// transaction: stage, classify and plan, apply, clear `staging`, commit.
    /// When the signal fires the transaction is given up and the store is as
    /// it was. A batch so long that a change counter could leave its range is
    /// refused before anything is done.
    pub fn reconcile_incoming<S: Interruptee + ?Sized>(
        &mut self,
        incoming_bsos: Vec<ServerPayload>,
        signal: &S,
    ) -> (result: Result<(), Error>)
        requires
            old(self).wf(),
        ensures
            final(self).wf(),
            final(self).max_variables() == old(self).max_variables(),
            match result {
                Ok(()) => final(self)@ == reconcile_spec(old(self)@, payload_views(incoming_bsos@)),
                Err(e) => final(self)@ == old(self)@ && (e == Error::Interrupted || e
                    == Error::CounterOutOfRange),
            },
            result == Err::<(), Error>(Error::CounterOutOfRange) <==> !counters_have_room(
                old(self)@.local,
                old(self)@.staging.len() + incoming_bsos.len(),
            ),
            result == Err::<(), Error>(Error::Interrupted) ==> signal.can_fire(),
    {
        let ghost payloads = payload_views(incoming_bsos@);
        let mut tx = self.begin_tx();
        let staged = tx.staging_rows().len();
        if incoming_bsos.len() > usize::MAX - staged || !counters_fit(
            &tx,
            staged + incoming_bsos.len(),
        ) {
            return Err(Error::CounterOutOfRange);
        }
        match stage_incoming(&mut tx, incoming_bsos, signal) {
            Err(e) => {
                return Err(e);
            },
            Ok(()) => {},
        }
        let actions = plan_all(get_incoming(&tx));
        proof {
            lemma_stage_all_len(self@.staging, payloads);
            assert(actions.len() == action_views(actions@).len());
        }
        match apply_actions(&mut tx, actions, signal) {
            Err(e) => {
                return Err(e);
            },
            Ok(()) => {},
        }
        tx.clear_staging();
        self.commit(tx);
        Ok(())
    }

    /// What should be uploaded: one item for every dirty local row, in the
    /// order of `local`. The store is not changed.
    pub fn get_outgoing<S: Interruptee + ?Sized, G: GuidSource>(
        &self,
        signal: &S,
        guids: &mut G,
    ) -> (outgoing: Vec<OutgoingInfo>)
        requires
            self.wf(),
        ensures
            outgoing.len() == dirty_rows(self@.local).len(),
            forall|j: int|
                0 <= j < outgoing.len() ==> is_upload_of(
                    (#[trigger] outgoing[j])@,
                    dirty_rows(self@.local)[j],
                    self@.mirror,
                ),
    {
        let tx = self.begin_tx();
        get_outgoing(&tx, signal, guids)
    }

    /// Records an upload that the server has confirmed, in one transaction.
    /// When the signal fires the transaction is given up and the store is as
    /// it was. Items that would take a change counter out of its range are
    /// refused before anything is done.
    pub fn record_uploaded<S: Interruptee + ?Sized>(
        &mut self,
        items: &[OutgoingInfo],
        signal: &S,
    ) -> (result: Result<(), Error>)
        requires
            old(self).wf(),
        ensures
            final(self).wf(),
            final(self).max_variables() == old(self).max_variables(),
            match result {
                Ok(()) => final(self)@ == uploaded_spec(old(self)@, info_views(items@)),
                Err(e) => final(self)@ == old(self)@ && (e == Error::Interrupted || e
                    == Error::CounterOutOfRange),
            },
            result == Err::<(), Error>(Error::CounterOutOfRange) <==> !decrements_fit(
                old(self)@.local,
                info_views(items@),
            ),
            result == Err::<(), Error>(Error::Interrupted) ==> signal.can_fire(),
    {
        let mut tx = self.begin_tx();
        if !decrements_fit_in(&tx, items) {
            return Err(Error::CounterOutOfRange);
        }
        match record_uploaded(&mut tx, items, signal) {
            Err(e) => {
                return Err(e);
            },
            Ok(()) => {},
        }
        self.commit(tx);
        Ok(())
    }
}

} // verus!
