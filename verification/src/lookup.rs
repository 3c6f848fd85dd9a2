//! How looking a row up answers after a table has changed. The tables of a
//! well-formed store hold every key once; that is what these facts rest on.
use vstd::prelude::*;
use crate::rows::{LocalRowView, MirrorRowView};
use crate::tables::{
    is_confirmed_tombstone, lemma_push_keeps_distinct, lemma_removal_keeps_absent,
    lemma_removed_key_is_gone, local_keys, local_lookup, mirror_ext_ids, mirror_guids,
    mirror_lookup_ext, mirror_replace, remove_at, without_confirmed_tombstones,
};

verus! {

/// Among distinct keys, a key is first found where it stands.
pub proof fn lemma_first_index(keys: Seq<Seq<char>>, i: int)
    requires
        keys.no_duplicates(),
        0 <= i < keys.len(),
    ensures
        keys.index_of_first(keys[i]) == Some(i),
{
    keys.index_of_first_ensures(keys[i]);
}

/// A key that is not among the keys is found nowhere, and the other way
/// round.
pub proof fn lemma_no_index(keys: Seq<Seq<char>>, key: Seq<char>)
    ensures
        keys.index_of_first(key) is None <==> !keys.contains(key),
        keys.index_of_first(key) matches Some(i) ==> 0 <= i < keys.len() && keys[i] == key,
{
    keys.index_of_first_ensures(key);
}

/// Overwriting a row with a row of the same extension: that extension now
/// has the new row, every other extension the row it had.
pub proof fn lemma_local_lookup_update(
    rows: Seq<LocalRowView>,
    i: int,
    row: LocalRowView,
    key: Seq<char>,
)
    requires
        local_keys(rows).no_duplicates(),
        0 <= i < rows.len(),
        row.ext_id == rows[i].ext_id,
    ensures
        local_keys(rows.update(i, row)) == local_keys(rows),
        local_lookup(rows.update(i, row), key) == if key == row.ext_id {
            Some(row)
        } else {
            local_lookup(rows, key)
        },
{
    let keys = local_keys(rows);
    assert(local_keys(rows.update(i, row)) =~= keys);
    lemma_first_index(keys, i);
    lemma_no_index(keys, key);
}

/// Appending the row of an extension that had none.
pub proof fn lemma_local_lookup_push(rows: Seq<LocalRowView>, row: LocalRowView, key: Seq<char>)
    requires
        local_keys(rows).no_duplicates(),
        !local_keys(rows).contains(row.ext_id),
    ensures
        local_keys(rows.push(row)).no_duplicates(),
        local_lookup(rows.push(row), key) == if key == row.ext_id {
            Some(row)
        } else {
            local_lookup(rows, key)
        },
{
    let keys = local_keys(rows);
    let longer = local_keys(rows.push(row));
    assert(longer =~= keys.push(row.ext_id));
    lemma_push_keeps_distinct(keys, row.ext_id);
    lemma_no_index(keys, key);
    lemma_no_index(longer, key);
    if key == row.ext_id {
        lemma_first_index(longer, rows.len() as int);
    } else {
        match keys.index_of_first(key) {
            Some(i) => {
                assert(longer[i] == key);
                lemma_first_index(longer, i);
            },
            None => {
                if longer.contains(key) {
                    let j = choose|j: int| 0 <= j < longer.len() && longer[j] == key;
                    assert(keys[j] == key);
                }
            },
        }
    }
}

/// Deleting the row of an extension: that extension has no row any more,
/// every other extension the row it had.
pub proof fn lemma_local_lookup_remove(rows: Seq<LocalRowView>, gone: Seq<char>, key: Seq<char>)
    requires
        local_keys(rows).no_duplicates(),
    ensures
        local_keys(remove_at(rows, local_keys(rows).index_of_first(gone))).no_duplicates(),
        local_lookup(remove_at(rows, local_keys(rows).index_of_first(gone)), key) == if key
            == gone {
            None
        } else {
            local_lookup(rows, key)
        },
{
    let keys = local_keys(rows);
    let at = keys.index_of_first(gone);
    let rest = remove_at(rows, at);
    let rest_keys = local_keys(rest);
    lemma_no_index(keys, gone);
    assert(rest_keys =~= remove_at(keys, at));
    lemma_removed_key_is_gone(keys, gone);
    lemma_no_index(keys, key);
    lemma_no_index(rest_keys, key);
    if key != gone {
        match keys.index_of_first(key) {
            Some(i) => {
                match at {
                    Some(a) => {
                        if i < a {
                            assert(rest_keys[i] == key);
                            lemma_first_index(rest_keys, i);
                        } else {
                            assert(rest_keys[i - 1] == key);
                            lemma_first_index(rest_keys, i - 1);
                        }
                    },
                    None => {},
                }
            },
            None => {
                lemma_removal_keeps_absent(keys, at, key);
            },
        }
    }
}

/// Among rows of distinct extensions, a row is the one found for its
/// extension.
pub proof fn lemma_local_lookup_member(rows: Seq<LocalRowView>, row: LocalRowView)
    requires
        local_keys(rows).no_duplicates(),
        rows.contains(row),
    ensures
        local_lookup(rows, row.ext_id) == Some(row),
{
    let i = choose|i: int| 0 <= i < rows.len() && rows[i] == row;
    assert(local_keys(rows)[i] == row.ext_id);
    lemma_first_index(local_keys(rows), i);
}

/// The row found for an extension is a row of the table, and of that
/// extension.
pub proof fn lemma_local_lookup_found(rows: Seq<LocalRowView>, key: Seq<char>)
    ensures
        local_lookup(rows, key) matches Some(row) ==> rows.contains(row) && row.ext_id == key,
        local_lookup(rows, key) is None ==> forall|i: int|
            0 <= i < rows.len() ==> (#[trigger] rows[i]).ext_id != key,
{
    let keys = local_keys(rows);
    lemma_no_index(keys, key);
    if local_lookup(rows, key) is None {
        assert forall|i: int| 0 <= i < rows.len() implies (#[trigger] rows[i]).ext_id != key by {
            if rows[i].ext_id == key {
                assert(keys[i] == key);
            }
        }
    }
}

/// What looking an extension up finds once the confirmed tombstones are
/// gone: the row it had, unless that was one of them.
pub proof fn lemma_tombstones_lookup(rows: Seq<LocalRowView>, key: Seq<char>)
    requires
        local_keys(rows).no_duplicates(),
    ensures
        local_lookup(without_confirmed_tombstones(rows), key) == match local_lookup(rows, key) {
            Some(row) => if is_confirmed_tombstone(row) {
                None
            } else {
                Some(row)
            },
            None => None,
        },
    decreases rows.len(),
{
    if rows.len() > 0 {
        let shorter = rows.drop_last();
        let last = rows.last();
        assert(local_keys(shorter) =~= local_keys(rows).drop_last());
        assert(rows =~= shorter.push(last));
        if local_keys(shorter).contains(last.ext_id) {
            let j = choose|j: int|
                0 <= j < local_keys(shorter).len() && local_keys(shorter)[j] == last.ext_id;
            assert(local_keys(rows)[j] == last.ext_id);
            assert(local_keys(rows)[rows.len() - 1] == last.ext_id);
        }
        lemma_local_lookup_push(shorter, last, key);
        lemma_tombstones_lookup(shorter, key);
        crate::tables::lemma_tombstones_keep_distinct(shorter);
        if !is_confirmed_tombstone(last) {
            lemma_local_lookup_push(without_confirmed_tombstones(shorter), last, key);
        } else if key == last.ext_id {
            lemma_local_lookup_found(shorter, key);
            lemma_no_index(local_keys(shorter), key);
        }
    } else {
        lemma_no_index(local_keys(rows), key);
    }
}

/// Among rows of distinct extensions, a mirror row is the one found for its
/// extension.
pub proof fn lemma_mirror_lookup_member(rows: Seq<MirrorRowView>, row: MirrorRowView)
    requires
        mirror_ext_ids(rows).no_duplicates(),
        rows.contains(row),
    ensures
        mirror_lookup_ext(rows, row.ext_id) == Some(row),
{
    let i = choose|i: int| 0 <= i < rows.len() && rows[i] == row;
    assert(mirror_ext_ids(rows)[i] == row.ext_id);
    lemma_first_index(mirror_ext_ids(rows), i);
}

/// A row stays when another row leaves.
pub proof fn lemma_remove_keeps_others<A>(rows: Seq<A>, at: Option<int>, row: A)
    requires
        rows.contains(row),
        at matches Some(i) ==> 0 <= i < rows.len() && rows[i] != row,
    ensures
        remove_at(rows, at).contains(row),
{
    let j = choose|j: int| 0 <= j < rows.len() && rows[j] == row;
    match at {
        Some(i) => {
            if j < i {
                assert(rows.remove(i)[j] == row);
            } else {
                assert(rows.remove(i)[j - 1] == row);
            }
        },
        None => {},
    }
}

/// Insert-or-replace into `mirror` keeps guids and extensions distinct, puts
/// the new row in, and keeps every row that shares neither the guid nor the
/// extension with it.
pub proof fn lemma_mirror_replace(rows: Seq<MirrorRowView>, row: MirrorRowView)
    requires
        mirror_guids(rows).no_duplicates(),
        mirror_ext_ids(rows).no_duplicates(),
    ensures
        mirror_guids(mirror_replace(rows, row)).no_duplicates(),
        mirror_ext_ids(mirror_replace(rows, row)).no_duplicates(),
        mirror_replace(rows, row).contains(row),
        forall|other: MirrorRowView|
            rows.contains(other) && other.guid != row.guid && other.ext_id != row.ext_id
                ==> #[trigger] mirror_replace(rows, row).contains(other),
{
    let at = mirror_guids(rows).index_of_first(row.guid);
    let middle = remove_at(rows, at);
    lemma_no_index(mirror_guids(rows), row.guid);
    assert(mirror_guids(middle) =~= remove_at(mirror_guids(rows), at));
    assert(mirror_ext_ids(middle) =~= remove_at(mirror_ext_ids(rows), at));
    lemma_removed_key_is_gone(mirror_guids(rows), row.guid);
    let at_ext = mirror_ext_ids(middle).index_of_first(row.ext_id);
    let rest = remove_at(middle, at_ext);
    lemma_no_index(mirror_ext_ids(middle), row.ext_id);
    assert(mirror_guids(rest) =~= remove_at(mirror_guids(middle), at_ext));
    assert(mirror_ext_ids(rest) =~= remove_at(mirror_ext_ids(middle), at_ext));
    lemma_removed_key_is_gone(mirror_ext_ids(middle), row.ext_id);
    lemma_removal_keeps_absent(mirror_guids(middle), at_ext, row.guid);
    let result = rest.push(row);
    assert(mirror_guids(result) =~= mirror_guids(rest).push(row.guid));
    assert(mirror_ext_ids(result) =~= mirror_ext_ids(rest).push(row.ext_id));
    lemma_push_keeps_distinct(mirror_guids(rest), row.guid);
    lemma_push_keeps_distinct(mirror_ext_ids(rest), row.ext_id);
    assert(result[rest.len() as int] == row);
    assert forall|other: MirrorRowView|
        rows.contains(other) && other.guid != row.guid && other.ext_id != row.ext_id implies result.contains(
        other,
    ) by {
        match at {
            Some(i) => {
                assert(mirror_guids(rows)[i] == rows[i].guid);
            },
            None => {},
        }
        lemma_remove_keeps_others(rows, at, other);
        match at_ext {
            Some(i) => {
                assert(mirror_ext_ids(middle)[i] == middle[i].ext_id);
            },
            None => {},
        }
        lemma_remove_keeps_others(middle, at_ext, other);
        let j = choose|j: int| 0 <= j < rest.len() && rest[j] == other;
        assert(result[j] == other);
    }
}

} // verus!
