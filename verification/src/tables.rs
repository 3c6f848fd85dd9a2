//! The three tables as mathematical sequences of rows, and the operations
//! on them that the statements of the store stand for. Rows keep the order in
//! which they were written; a replaced row moves to the end.
use vstd::prelude::*;
use crate::rows::{LocalRowView, MirrorRowView, StagingRowView};

verus! {

/// The three tables as contracts see them.
pub struct TablesView {
    pub local: Seq<LocalRowView>,
    pub mirror: Seq<MirrorRowView>,
    pub staging: Seq<StagingRowView>,
}

impl TablesView {
    /// No key occurs twice: `local` has one row per extension, `mirror` one
    /// row per guid and per extension, `staging` one row per guid.
    pub open spec fn wf(self) -> bool {
        &&& local_keys(self.local).no_duplicates()
        &&& mirror_guids(self.mirror).no_duplicates()
        &&& mirror_ext_ids(self.mirror).no_duplicates()
        &&& staging_guids(self.staging).no_duplicates()
    }
}

/// Three tables without rows.
pub open spec fn empty_tables() -> TablesView {
    TablesView { local: Seq::empty(), mirror: Seq::empty(), staging: Seq::empty() }
}

/// The keys of `local`, row by row.
pub open spec fn local_keys(rows: Seq<LocalRowView>) -> Seq<Seq<char>> {
    rows.map_values(|r: LocalRowView| r.ext_id)
}

/// The primary keys of `mirror`, row by row.
pub open spec fn mirror_guids(rows: Seq<MirrorRowView>) -> Seq<Seq<char>> {
    rows.map_values(|r: MirrorRowView| r.guid)
}

/// The extension ids of `mirror`, row by row.
pub open spec fn mirror_ext_ids(rows: Seq<MirrorRowView>) -> Seq<Seq<char>> {
    rows.map_values(|r: MirrorRowView| r.ext_id)
}

/// The keys of `staging`, row by row.
pub open spec fn staging_guids(rows: Seq<StagingRowView>) -> Seq<Seq<char>> {
    rows.map_values(|r: StagingRowView| r.guid)
}

/// A position as a mathematical integer.
pub open spec fn option_int(at: Option<usize>) -> Option<int> {
    match at {
        Some(i) => Some(i as int),
        None => None,
    }
}

/// `rows` without the row at `at`, if there is one.
pub open spec fn remove_at<A>(rows: Seq<A>, at: Option<int>) -> Seq<A> {
    match at {
        Some(i) => rows.remove(i),
        None => rows,
    }
}

/// The local row of an extension.
pub open spec fn local_lookup(rows: Seq<LocalRowView>, ext_id: Seq<char>) -> Option<LocalRowView> {
    match local_keys(rows).index_of_first(ext_id) {
        Some(i) => Some(rows[i]),
        None => None,
    }
}

/// The mirror row with a given guid.
pub open spec fn mirror_lookup(rows: Seq<MirrorRowView>, guid: Seq<char>) -> Option<MirrorRowView> {
    match mirror_guids(rows).index_of_first(guid) {
        Some(i) => Some(rows[i]),
        None => None,
    }
}

/// The mirror row of an extension.
pub open spec fn mirror_lookup_ext(rows: Seq<MirrorRowView>, ext_id: Seq<char>) -> Option<
    MirrorRowView,
> {
    match mirror_ext_ids(rows).index_of_first(ext_id) {
        Some(i) => Some(rows[i]),
        None => None,
    }
}

/// Insert-or-replace into `staging`: a row with the same guid leaves, the new
/// row goes to the end.
pub open spec fn staging_replace(rows: Seq<StagingRowView>, row: StagingRowView) -> Seq<
    StagingRowView,
> {
    remove_at(rows, staging_guids(rows).index_of_first(row.guid)).push(row)
}

/// Insert-or-replace into `mirror`: a row with the same guid and a row of the
/// same extension leave, the new row goes to the end.
pub open spec fn mirror_replace(rows: Seq<MirrorRowView>, row: MirrorRowView) -> Seq<MirrorRowView> {
    let without_guid = remove_at(rows, mirror_guids(rows).index_of_first(row.guid));
    let without_both = remove_at(
        without_guid,
        mirror_ext_ids(without_guid).index_of_first(row.ext_id),
    );
    without_both.push(row)
}

/// Insert-or-replace into `local`: the row of the same extension leaves, the
/// new row goes to the end.
pub open spec fn local_replace(rows: Seq<LocalRowView>, row: LocalRowView) -> Seq<LocalRowView> {
    remove_at(rows, local_keys(rows).index_of_first(row.ext_id)).push(row)
}

/// `local` after a local write: the extension's row holds the new data and
/// its change counter is one higher; a new row starts at one.
pub open spec fn local_write(rows: Seq<LocalRowView>, ext_id: Seq<char>, data: Option<Seq<char>>) -> Seq<
    LocalRowView,
> {
    match local_keys(rows).index_of_first(ext_id) {
        Some(i) => rows.update(
            i,
            LocalRowView { ext_id, data, sync_change_counter: rows[i].sync_change_counter + 1 },
        ),
        None => rows.push(LocalRowView { ext_id, data, sync_change_counter: 1 }),
    }
}

/// A deletion that the server has confirmed: no data, and nothing left to
/// upload.
pub open spec fn is_confirmed_tombstone(row: LocalRowView) -> bool {
    row.data is None && row.sync_change_counter == 0
}

/// `local` without its confirmed tombstones.
pub open spec fn without_confirmed_tombstones(rows: Seq<LocalRowView>) -> Seq<LocalRowView>
    decreases rows.len(),
{
    if rows.len() == 0 {
        rows
    } else if is_confirmed_tombstone(rows.last()) {
        without_confirmed_tombstones(rows.drop_last())
    } else {
        without_confirmed_tombstones(rows.drop_last()).push(rows.last())
    }
}

/// After the first row with a key has left a table of distinct keys, the key
/// is gone.
pub proof fn lemma_removed_key_is_gone(keys: Seq<Seq<char>>, key: Seq<char>)
    requires
        keys.no_duplicates(),
    ensures
        !remove_at(keys, keys.index_of_first(key)).contains(key),
{
    keys.index_of_first_ensures(key);
    let rest = remove_at(keys, keys.index_of_first(key));
    if rest.contains(key) {
        let j = choose|j: int| 0 <= j < rest.len() && rest[j] == key;
        match keys.index_of_first(key) {
            Some(i) => {
                if j < i {
                    assert(keys[j] == key);
                } else {
                    assert(keys[j + 1] == key);
                }
            },
            None => {
                assert(keys[j] == key);
            },
        }
    }
}

/// A key that a table lacks is still lacking after a row has left.
pub proof fn lemma_removal_keeps_absent(keys: Seq<Seq<char>>, at: Option<int>, key: Seq<char>)
    requires
        !keys.contains(key),
        at matches Some(i) ==> 0 <= i < keys.len(),
    ensures
        !remove_at(keys, at).contains(key),
{
    let rest = remove_at(keys, at);
    if rest.contains(key) {
        let j = choose|j: int| 0 <= j < rest.len() && rest[j] == key;
        match at {
            Some(i) => {
                if j < i {
                    assert(keys[j] == key);
                } else {
                    assert(keys[j + 1] == key);
                }
            },
            None => {},
        }
    }
}

/// A new key at the end keeps keys distinct.
pub proof fn lemma_push_keeps_distinct(keys: Seq<Seq<char>>, key: Seq<char>)
    requires
        keys.no_duplicates(),
        !keys.contains(key),
    ensures
        keys.push(key).no_duplicates(),
{
    let longer = keys.push(key);
    assert forall|i: int, j: int| 0 <= i < longer.len() && 0 <= j < longer.len() && i != j implies longer[i]
        != longer[j] by {
        if i < keys.len() && j < keys.len() {
        } else if i < keys.len() {
            assert(keys[i] != key);
        } else {
            assert(keys[j] != key);
        }
    }
}

/// What is left without the confirmed tombstones are rows of the table, and
/// their keys are still distinct.
pub proof fn lemma_tombstones_keep_distinct(rows: Seq<LocalRowView>)
    requires
        local_keys(rows).no_duplicates(),
    ensures
        local_keys(without_confirmed_tombstones(rows)).no_duplicates(),
        forall|key: Seq<char>|
            local_keys(without_confirmed_tombstones(rows)).contains(key) ==> local_keys(
                rows,
            ).contains(key),
    decreases rows.len(),
{
    if rows.len() > 0 {
        let shorter = rows.drop_last();
        assert(local_keys(shorter) =~= local_keys(rows).drop_last());
        lemma_tombstones_keep_distinct(shorter);
        let left = without_confirmed_tombstones(shorter);
        assert forall|key: Seq<char>| local_keys(left).contains(key) implies local_keys(
            rows,
        ).contains(key) by {
            assert(local_keys(shorter).contains(key));
            let j = choose|j: int| 0 <= j < local_keys(shorter).len() && local_keys(shorter)[j] == key;
            assert(local_keys(rows)[j] == key);
        }
        if !is_confirmed_tombstone(rows.last()) {
            let key = rows.last().ext_id;
            assert(local_keys(left.push(rows.last())) =~= local_keys(left).push(key));
            if local_keys(left).contains(key) {
                assert(local_keys(shorter).contains(key));
                let j = choose|j: int|
                    0 <= j < local_keys(shorter).len() && local_keys(shorter)[j] == key;
                assert(local_keys(rows)[j] == key);
                assert(local_keys(rows)[rows.len() - 1] == key);
            }
            lemma_push_keeps_distinct(local_keys(left), key);
            assert forall|k: Seq<char>| local_keys(left.push(rows.last())).contains(k) implies local_keys(
                rows,
            ).contains(k) by {
                let longer = local_keys(left.push(rows.last()));
                let j = choose|j: int| 0 <= j < longer.len() && longer[j] == k;
                if j < left.len() {
                    assert(local_keys(left)[j] == k);
                } else {
                    assert(local_keys(rows)[rows.len() - 1] == k);
                }
            }
        }
    }
}

} // verus!
