//! The store: three tables held in memory, and transactions over them.
//!
//! `local` holds what the extensions see, `mirror` the last state the server
//! is known to hold, `staging` the incoming records of one reconciliation.
use vstd::prelude::*;
use crate::rows::{
    copy_local, copy_mirror, copy_staging, local_views, mirror_views, staging_views, LocalRow,
    MirrorRow, StagingRow,
};
use crate::tables::{
    empty_tables, lemma_push_keeps_distinct, lemma_removal_keeps_absent, lemma_removed_key_is_gone,
    lemma_tombstones_keep_distinct, local_keys, local_lookup, local_replace, local_write,
    mirror_ext_ids, mirror_guids, mirror_replace, option_int, remove_at, staging_guids,
    staging_replace, without_confirmed_tombstones, TablesView,
};

verus! {

/// The number of bind variables that one statement may carry unless the store
/// is told otherwise.
pub const DEFAULT_MAX_VARIABLE_NUMBER: usize = 999;

/// The tables of a store, as one transaction sees and changes them.
/// Dropping it gives the changes up; `Store::commit` makes them last.
pub struct Transaction {
    local: Vec<LocalRow>,
    mirror: Vec<MirrorRow>,
    staging: Vec<StagingRow>,
    max_variable_number: usize,
}

impl View for Transaction {
    type V = TablesView;

    closed spec fn view(&self) -> TablesView {
        TablesView {
            local: local_views(self.local@),
            mirror: mirror_views(self.mirror@),
            staging: staging_views(self.staging@),
        }
    }
}

impl Transaction {
    /// The number of bind variables that one statement may carry.
    pub closed spec fn max_variables(&self) -> nat {
        self.max_variable_number as nat
    }

    /// The tables are well formed, and a statement can carry one staged row.
    pub open spec fn wf(&self) -> bool {
        &&& self@.wf()
        &&& self.max_variables() >= 3
    }

    /// A transaction of its own on the same tables.
    pub fn duplicate(&self) -> (copy: Transaction)
        ensures
            copy@ == self@,
            copy.max_variables() == self.max_variables(),
            self.wf() ==> copy.wf(),
    {
        Transaction {
            local: copy_local(&self.local),
            mirror: copy_mirror(&self.mirror),
            staging: copy_staging(&self.staging),
            max_variable_number: self.max_variable_number,
        }
    }

    /// The number of bind variables that one statement may carry.
    pub fn max_variable_number(&self) -> (n: usize)
        ensures
            n == self.max_variables(),
    {
        self.max_variable_number
    }

    /// The rows of `local`.
    pub fn local_rows(&self) -> (rows: &Vec<LocalRow>)
        ensures
            local_views(rows@) == self@.local,
    {
        &self.local
    }

    /// The rows of `mirror`.
    pub fn mirror_rows(&self) -> (rows: &Vec<MirrorRow>)
        ensures
            mirror_views(rows@) == self@.mirror,
    {
        &self.mirror
    }

    /// The rows of `staging`.
    pub fn staging_rows(&self) -> (rows: &Vec<StagingRow>)
        ensures
            staging_views(rows@) == self@.staging,
    {
        &self.staging
    }

    /// Where `local` holds the row of an extension.
    pub fn local_position(&self, ext_id: &String) -> (at: Option<usize>)
        ensures
            at matches Some(i) ==> i < self@.local.len(),
            local_keys(self@.local).index_of_first(ext_id@) == option_int(at),
    {
        let ghost keys = local_keys(self@.local);
        let mut idx: usize = 0;
        while idx < self.local.len()
            invariant
                idx <= self.local.len(),
                keys == local_keys(self@.local),
                forall|j: int| 0 <= j < idx ==> keys[j] != ext_id@,
            decreases self.local.len() - idx,
        {
            if self.local[idx].ext_id == *ext_id {
                proof {
                    assert(keys[idx as int] == ext_id@);
                    keys.index_of_first_ensures(ext_id@);
                }
                return Some(idx);
            }
            assert(keys[idx as int] != ext_id@);
            idx += 1;
        }
        proof {
            keys.index_of_first_ensures(ext_id@);
        }
        None
    }

    /// Where `mirror` holds the row with a guid.
    pub fn mirror_position(&self, guid: &String) -> (at: Option<usize>)
        ensures
            at matches Some(i) ==> i < self@.mirror.len(),
            mirror_guids(self@.mirror).index_of_first(guid@) == option_int(at),
    {
        let ghost keys = mirror_guids(self@.mirror);
        let mut idx: usize = 0;
        while idx < self.mirror.len()
            invariant
                idx <= self.mirror.len(),
                keys == mirror_guids(self@.mirror),
                forall|j: int| 0 <= j < idx ==> keys[j] != guid@,
            decreases self.mirror.len() - idx,
        {
            if self.mirror[idx].guid == *guid {
                proof {
                    assert(keys[idx as int] == guid@);
                    keys.index_of_first_ensures(guid@);
                }
                return Some(idx);
            }
            assert(keys[idx as int] != guid@);
            idx += 1;
        }
        proof {
            keys.index_of_first_ensures(guid@);
        }
        None
    }

    /// Where `mirror` holds the row of an extension.
    pub fn mirror_position_ext(&self, ext_id: &String) -> (at: Option<usize>)
        ensures
            at matches Some(i) ==> i < self@.mirror.len(),
            mirror_ext_ids(self@.mirror).index_of_first(ext_id@) == option_int(at),
    {
        let ghost keys = mirror_ext_ids(self@.mirror);
        let mut idx: usize = 0;
        while idx < self.mirror.len()
            invariant
                idx <= self.mirror.len(),
                keys == mirror_ext_ids(self@.mirror),
                forall|j: int| 0 <= j < idx ==> keys[j] != ext_id@,
            decreases self.mirror.len() - idx,
        {
            if self.mirror[idx].ext_id == *ext_id {
                proof {
                    assert(keys[idx as int] == ext_id@);
                    keys.index_of_first_ensures(ext_id@);
                }
                return Some(idx);
            }
            assert(keys[idx as int] != ext_id@);
            idx += 1;
        }
        proof {
            keys.index_of_first_ensures(ext_id@);
        }
        None
    }

    /// Where `staging` holds the row with a guid.
    pub fn staging_position(&self, guid: &String) -> (at: Option<usize>)
        ensures
            at matches Some(i) ==> i < self@.staging.len(),
            staging_guids(self@.staging).index_of_first(guid@) == option_int(at),
    {
        let ghost keys = staging_guids(self@.staging);
        let mut idx: usize = 0;
        while idx < self.staging.len()
            invariant
                idx <= self.staging.len(),
                keys == staging_guids(self@.staging),
                forall|j: int| 0 <= j < idx ==> keys[j] != guid@,
            decreases self.staging.len() - idx,
        {
            if self.staging[idx].guid == *guid {
                proof {
                    assert(keys[idx as int] == guid@);
                    keys.index_of_first_ensures(guid@);
                }
                return Some(idx);
            }
            assert(keys[idx as int] != guid@);
            idx += 1;
        }
        proof {
            keys.index_of_first_ensures(guid@);
        }
        None
    }

    /// Insert-or-replace into `staging`, by guid.
    pub fn replace_staging(&mut self, row: StagingRow)
        requires
            old(self).wf(),
        ensures
            final(self).wf(),
            final(self).max_variables() == old(self).max_variables(),
            final(self)@ == (TablesView {
                staging: staging_replace(old(self)@.staging, row@),
                ..old(self)@
            }),
    {
        let ghost rows = self@.staging;
        let at = self.staging_position(&row.guid);
        proof {
            staging_guids(rows).index_of_first_ensures(row.guid@);
            lemma_removed_key_is_gone(staging_guids(rows), row.guid@);
            assert(staging_guids(remove_at(rows, option_int(at))) =~= remove_at(
                staging_guids(rows),
                option_int(at),
            ));
        }
        if let Some(i) = at {
            self.staging.remove(i);
            assert(staging_views(self.staging@) =~= rows.remove(i as int));
        }
        let ghost rest = self@.staging;
        let ghost row_view = row@;
        self.staging.push(row);
        proof {
            assert(staging_views(self.staging@) =~= rest.push(row_view));
            assert(staging_guids(rest.push(row_view)) =~= staging_guids(rest).push(row_view.guid));
            lemma_push_keeps_distinct(staging_guids(rest), row_view.guid);
        }
    }

    /// Deletes the row of `mirror` at a position.
    fn remove_mirror(&mut self, at: usize)
        requires
            old(self).wf(),
            at < old(self)@.mirror.len(),
        ensures
            final(self).wf(),
            final(self).max_variables() == old(self).max_variables(),
            final(self)@ == (TablesView { mirror: old(self)@.mirror.remove(at as int), ..old(self)@ }),
    {
        let ghost rows = self@.mirror;
        self.mirror.remove(at);
        proof {
            assert(mirror_views(self.mirror@) =~= rows.remove(at as int));
            assert(mirror_guids(rows.remove(at as int)) =~= mirror_guids(rows).remove(at as int));
            assert(mirror_ext_ids(rows.remove(at as int)) =~= mirror_ext_ids(rows).remove(at as int));
        }
    }

    /// Appends to `mirror` a row whose guid and extension it lacks.
    fn push_mirror(&mut self, row: MirrorRow)
        requires
            old(self).wf(),
            !mirror_guids(old(self)@.mirror).contains(row.guid@),
            !mirror_ext_ids(old(self)@.mirror).contains(row.ext_id@),
        ensures
            final(self).wf(),
            final(self).max_variables() == old(self).max_variables(),
            final(self)@ == (TablesView { mirror: old(self)@.mirror.push(row@), ..old(self)@ }),
    {
        let ghost rows = self@.mirror;
        let ghost row_view = row@;
        self.mirror.push(row);
        proof {
            assert(mirror_views(self.mirror@) =~= rows.push(row_view));
            assert(mirror_guids(rows.push(row_view)) =~= mirror_guids(rows).push(row_view.guid));
            assert(mirror_ext_ids(rows.push(row_view)) =~= mirror_ext_ids(rows).push(row_view.ext_id));
            lemma_push_keeps_distinct(mirror_guids(rows), row_view.guid);
            lemma_push_keeps_distinct(mirror_ext_ids(rows), row_view.ext_id);
        }
    }

    /// Insert-or-replace into `mirror`, by guid and by extension.
    pub fn replace_mirror(&mut self, row: MirrorRow)
        requires
            old(self).wf(),
        ensures
            final(self).wf(),
            final(self).max_variables() == old(self).max_variables(),
            final(self)@ == (TablesView {
                mirror: mirror_replace(old(self)@.mirror, row@),
                ..old(self)@
            }),
    {
        let ghost rows = self@.mirror;
        let at = self.mirror_position(&row.guid);
        if let Some(i) = at {
            self.remove_mirror(i);
        }
        let ghost middle = self@.mirror;
        proof {
            assert(middle == remove_at(rows, option_int(at)));
            lemma_removed_key_is_gone(mirror_guids(rows), row.guid@);
            assert(mirror_guids(middle) =~= remove_at(mirror_guids(rows), option_int(at)));
        }
        let at_ext = self.mirror_position_ext(&row.ext_id);
        if let Some(i) = at_ext {
            self.remove_mirror(i);
        }
        proof {
            let rest = self@.mirror;
            assert(rest == remove_at(middle, option_int(at_ext)));
            lemma_removed_key_is_gone(mirror_ext_ids(middle), row.ext_id@);
            lemma_removal_keeps_absent(mirror_guids(middle), option_int(at_ext), row.guid@);
            assert(mirror_guids(rest) =~= remove_at(mirror_guids(middle), option_int(at_ext)));
            assert(mirror_ext_ids(rest) =~= remove_at(mirror_ext_ids(middle), option_int(at_ext)));
        }
        self.push_mirror(row);
    }

    /// Deletes the row of `local` at a position.
    pub fn remove_local(&mut self, at: usize)
        requires
            old(self).wf(),
            at < old(self)@.local.len(),
        ensures
            final(self).wf(),
            final(self).max_variables() == old(self).max_variables(),
            final(self)@ == (TablesView { local: old(self)@.local.remove(at as int), ..old(self)@ }),
    {
        let ghost rows = self@.local;
        self.local.remove(at);
        proof {
            assert(local_views(self.local@) =~= rows.remove(at as int));
            assert(local_keys(rows.remove(at as int)) =~= local_keys(rows).remove(at as int));
        }
    }

    /// Overwrites the row of `local` at a position with a row of the same
    /// extension.
    pub fn set_local(&mut self, at: usize, row: LocalRow)
        requires
            old(self).wf(),
            at < old(self)@.local.len(),
            old(self)@.local[at as int].ext_id == row.ext_id@,
        ensures
            final(self).wf(),
            final(self).max_variables() == old(self).max_variables(),
            final(self)@ == (TablesView {
                local: old(self)@.local.update(at as int, row@),
                ..old(self)@
            }),
    {
        let ghost rows = self@.local;
        let ghost row_view = row@;
        self.local.set(at, row);
        proof {
            assert(local_views(self.local@) =~= rows.update(at as int, row_view));
            assert(local_keys(rows.update(at as int, row_view)) =~= local_keys(rows));
        }
    }

    /// Appends to `local` the row of an extension that has none.
    pub fn push_local(&mut self, row: LocalRow)
        requires
            old(self).wf(),
            !local_keys(old(self)@.local).contains(row.ext_id@),
        ensures
            final(self).wf(),
            final(self).max_variables() == old(self).max_variables(),
            final(self)@ == (TablesView { local: old(self)@.local.push(row@), ..old(self)@ }),
    {
        let ghost rows = self@.local;
        let ghost row_view = row@;
        self.local.push(row);
        proof {
            assert(local_views(self.local@) =~= rows.push(row_view));
            assert(local_keys(rows.push(row_view)) =~= local_keys(rows).push(row_view.ext_id));
            lemma_push_keeps_distinct(local_keys(rows), row_view.ext_id);
        }
    }

    /// Insert-or-replace into `local`, by extension.
    pub fn replace_local(&mut self, row: LocalRow)
        requires
            old(self).wf(),
        ensures
            final(self).wf(),
            final(self).max_variables() == old(self).max_variables(),
            final(self)@ == (TablesView { local: local_replace(old(self)@.local, row@), ..old(self)@ }),
    {
        let ghost rows = self@.local;
        let at = self.local_position(&row.ext_id);
        if let Some(i) = at {
            self.remove_local(i);
        }
        proof {
            let rest = self@.local;
            assert(rest == remove_at(rows, option_int(at)));
            lemma_removed_key_is_gone(local_keys(rows), row.ext_id@);
            assert(local_keys(rest) =~= remove_at(local_keys(rows), option_int(at)));
        }
        self.push_local(row);
    }

    /// Deletes from `local` every confirmed tombstone: every row without data
    /// whose change counter is zero.
    pub fn delete_confirmed_tombstones(&mut self)
        requires
            old(self).wf(),
        ensures
            final(self).wf(),
            final(self).max_variables() == old(self).max_variables(),
            final(self)@ == (TablesView {
                local: without_confirmed_tombstones(old(self)@.local),
                ..old(self)@
            }),
    {
        let ghost rows = self@.local;
        let mut kept: Vec<LocalRow> = Vec::new();
        let mut idx: usize = 0;
        assert(rows.take(0) =~= Seq::empty());
        while idx < self.local.len()
            invariant
                idx <= self.local.len(),
                *self == *old(self),
                rows == local_views(self.local@),
                local_views(kept@) == without_confirmed_tombstones(rows.take(idx as int)),
            decreases self.local.len() - idx,
        {
            let row = &self.local[idx];
            let ghost before = kept@;
            proof {
                assert(rows.take(idx as int + 1).drop_last() =~= rows.take(idx as int));
                assert(rows.take(idx as int + 1).last() == row@);
            }
            if !(row.data.is_none() && row.sync_change_counter == 0) {
                let copy = row.duplicate();
                kept.push(copy);
                assert(local_views(before.push(copy)) =~= local_views(before).push(copy@));
            }
            idx += 1;
        }
        proof {
            assert(rows.take(idx as int) =~= rows);
            lemma_tombstones_keep_distinct(rows);
        }
        self.local = kept;
    }

    /// A local write: stores `data` for the extension and counts the change.
    /// A row is made where the extension has none.
    pub fn write_local(&mut self, ext_id: String, data: Option<String>)
        requires
            old(self).wf(),
            local_lookup(old(self)@.local, ext_id@) matches Some(row) ==> row.sync_change_counter
                < i32::MAX,
        ensures
            final(self).wf(),
            final(self).max_variables() == old(self).max_variables(),
            final(self)@ == (TablesView {
                local: local_write(old(self)@.local, ext_id@, data.deep_view()),
                ..old(self)@
            }),
    {
        let ghost rows = self@.local;
        proof {
            local_keys(rows).index_of_first_ensures(ext_id@);
        }
        match self.local_position(&ext_id) {
            Some(i) => {
                let counter = self.local[i].sync_change_counter;
                assert(self.local[i as int]@ == rows[i as int]);
                self.set_local(i, LocalRow { ext_id, data, sync_change_counter: counter + 1 });
            },
            None => {
                self.push_local(LocalRow { ext_id, data, sync_change_counter: 1 });
            },
        }
    }

    /// Empties `staging`.
    pub fn clear_staging(&mut self)
        requires
            old(self).wf(),
        ensures
            final(self).wf(),
            final(self).max_variables() == old(self).max_variables(),
            final(self)@ == (TablesView { staging: Seq::empty(), ..old(self)@ }),
    {
        self.staging.clear();
        assert(staging_views(self.staging@) =~= Seq::empty());
    }
}

/// A store: the tables as the last commit left them.
pub struct Store {
    committed: Transaction,
}

impl View for Store {
    type V = TablesView;

    closed spec fn view(&self) -> TablesView {
        self.committed@
    }
}

impl Store {
    /// The number of bind variables that one statement may carry.
    pub closed spec fn max_variables(&self) -> nat {
        self.committed.max_variables()
    }

    /// The tables are well formed, and a statement can carry one staged row.
    pub open spec fn wf(&self) -> bool {
        &&& self@.wf()
        &&& self.max_variables() >= 3
    }

    /// An empty store with the default limit on bind variables.
    pub fn new() -> (store: Store)
        ensures
            store.wf(),
            store@ == empty_tables(),
            store.max_variables() == DEFAULT_MAX_VARIABLE_NUMBER,
    {
        Store::with_max_variable_number(DEFAULT_MAX_VARIABLE_NUMBER)
    }

    /// An empty store whose statements carry at most `max_variable_number`
    /// bind variables. A staged row takes three, so the limit is at least 3.
    pub fn with_max_variable_number(max_variable_number: usize) -> (store: Store)
        requires
            max_variable_number >= 3,
        ensures
            store.wf(),
            store@ == empty_tables(),
            store.max_variables() == max_variable_number,
    {
        let committed = Transaction {
            local: Vec::new(),
            mirror: Vec::new(),
            staging: Vec::new(),
            max_variable_number,
        };
        proof {
            assert(committed@.local =~= Seq::empty());
            assert(committed@.mirror =~= Seq::empty());
            assert(committed@.staging =~= Seq::empty());
        }
        Store { committed }
    }

    /// Opens a transaction on the committed tables.
    pub fn begin_tx(&self) -> (tx: Transaction)
        requires
            self.wf(),
        ensures
            tx.wf(),
            tx@ == self@,
            tx.max_variables() == self.max_variables(),
    {
        Transaction {
            local: copy_local(&self.committed.local),
            mirror: copy_mirror(&self.committed.mirror),
            staging: copy_staging(&self.committed.staging),
            max_variable_number: self.committed.max_variable_number,
        }
    }

    /// Makes the tables of a transaction the committed ones.
    pub fn commit(&mut self, tx: Transaction)
        requires
            tx.wf(),
        ensures
            final(self).wf(),
            final(self)@ == tx@,
            final(self).max_variables() == tx.max_variables(),
    {
        self.committed = tx;
    }
}

} // verus!
