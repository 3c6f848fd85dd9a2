//! The rows of the three tables, and what contracts see of them.
use vstd::prelude::*;

verus! {

/// A row of `local`: the object of one extension (`None` is a tombstone) and
/// the number of local changes since the last confirmed upload.
#[derive(Debug, PartialEq, Eq)]
pub struct LocalRow {
    pub ext_id: String,
    pub data: Option<String>,
    pub sync_change_counter: i32,
}

/// A row of `mirror`: what the server holds for one object.
#[derive(Debug, PartialEq, Eq)]
pub struct MirrorRow {
    pub guid: String,
    pub ext_id: String,
    pub data: Option<String>,
    pub server_modified: i64,
}

/// A row of `staging`: one incoming record with its raw text.
#[derive(Debug, PartialEq, Eq)]
pub struct StagingRow {
    pub guid: String,
    pub ext_id: String,
    pub data: Option<String>,
}

pub struct LocalRowView {
    pub ext_id: Seq<char>,
    pub data: Option<Seq<char>>,
    pub sync_change_counter: int,
}

pub struct MirrorRowView {
    pub guid: Seq<char>,
    pub ext_id: Seq<char>,
    pub data: Option<Seq<char>>,
    pub server_modified: int,
}

pub struct StagingRowView {
    pub guid: Seq<char>,
    pub ext_id: Seq<char>,
    pub data: Option<Seq<char>>,
}

impl View for LocalRow {
    type V = LocalRowView;

    open spec fn view(&self) -> LocalRowView {
        LocalRowView {
            ext_id: self.ext_id@,
            data: self.data.deep_view(),
            sync_change_counter: self.sync_change_counter as int,
        }
    }
}

impl View for MirrorRow {
    type V = MirrorRowView;

    open spec fn view(&self) -> MirrorRowView {
        MirrorRowView {
            guid: self.guid@,
            ext_id: self.ext_id@,
            data: self.data.deep_view(),
            server_modified: self.server_modified as int,
        }
    }
}

impl View for StagingRow {
    type V = StagingRowView;

    open spec fn view(&self) -> StagingRowView {
        StagingRowView { guid: self.guid@, ext_id: self.ext_id@, data: self.data.deep_view() }
    }
}

pub open spec fn local_views(rows: Seq<LocalRow>) -> Seq<LocalRowView> {
    rows.map_values(|r: LocalRow| r@)
}

pub open spec fn mirror_views(rows: Seq<MirrorRow>) -> Seq<MirrorRowView> {
    rows.map_values(|r: MirrorRow| r@)
}

pub open spec fn staging_views(rows: Seq<StagingRow>) -> Seq<StagingRowView> {
    rows.map_values(|r: StagingRow| r@)
}

/// A copy of an optional text.
pub fn copy_text(text: &Option<String>) -> (copy: Option<String>)
    ensures
        copy.deep_view() == text.deep_view(),
{
    match text {
        Some(t) => Some(t.clone()),
        None => None,
    }
}

impl LocalRow {
    /// A copy of the row.
    pub fn duplicate(&self) -> (copy: LocalRow)
        ensures
            copy@ == self@,
    {
        LocalRow {
            ext_id: self.ext_id.clone(),
            data: copy_text(&self.data),
            sync_change_counter: self.sync_change_counter,
        }
    }
}

impl MirrorRow {
    /// A copy of the row.
    pub fn duplicate(&self) -> (copy: MirrorRow)
        ensures
            copy@ == self@,
    {
        MirrorRow {
            guid: self.guid.clone(),
            ext_id: self.ext_id.clone(),
            data: copy_text(&self.data),
            server_modified: self.server_modified,
        }
    }
}

impl StagingRow {
    /// A copy of the row.
    pub fn duplicate(&self) -> (copy: StagingRow)
        ensures
            copy@ == self@,
    {
        StagingRow {
            guid: self.guid.clone(),
            ext_id: self.ext_id.clone(),
            data: copy_text(&self.data),
        }
    }
}

/// A copy of rows of `local`.
pub(crate) fn copy_local(rows: &Vec<LocalRow>) -> (copy: Vec<LocalRow>)
    ensures
        local_views(copy@) == local_views(rows@),
{
    let mut copy: Vec<LocalRow> = Vec::new();
    let mut idx: usize = 0;
    while idx < rows.len()
        invariant
            idx <= rows.len(),
            local_views(copy@) == local_views(rows@.take(idx as int)),
        decreases rows.len() - idx,
    {
        let ghost before = copy@;
        let row = rows[idx].duplicate();
        copy.push(row);
        proof {
            assert(local_views(before.push(row)) =~= local_views(before).push(row@));
            assert(local_views(rows@.take(idx as int).push(rows@[idx as int])) =~= local_views(
                rows@.take(idx as int),
            ).push(rows@[idx as int]@));
        }
        idx += 1;
    }
    copy
}

/// A copy of rows of `mirror`.
pub(crate) fn copy_mirror(rows: &Vec<MirrorRow>) -> (copy: Vec<MirrorRow>)
    ensures
        mirror_views(copy@) == mirror_views(rows@),
{
    let mut copy: Vec<MirrorRow> = Vec::new();
    let mut idx: usize = 0;
    while idx < rows.len()
        invariant
            idx <= rows.len(),
            mirror_views(copy@) == mirror_views(rows@.take(idx as int)),
        decreases rows.len() - idx,
    {
        let ghost before = copy@;
        let row = rows[idx].duplicate();
        copy.push(row);
        proof {
            assert(mirror_views(before.push(row)) =~= mirror_views(before).push(row@));
            assert(mirror_views(rows@.take(idx as int).push(rows@[idx as int])) =~= mirror_views(
                rows@.take(idx as int),
            ).push(rows@[idx as int]@));
        }
        idx += 1;
    }
    copy
}

/// A copy of rows of `staging`.
pub(crate) fn copy_staging(rows: &Vec<StagingRow>) -> (copy: Vec<StagingRow>)
    ensures
        staging_views(copy@) == staging_views(rows@),
{
    let mut copy: Vec<StagingRow> = Vec::new();
    let mut idx: usize = 0;
    while idx < rows.len()
        invariant
            idx <= rows.len(),
            staging_views(copy@) == staging_views(rows@.take(idx as int)),
        decreases rows.len() - idx,
    {
        let ghost before = copy@;
        let row = rows[idx].duplicate();
        copy.push(row);
        proof {
            assert(staging_views(before.push(row)) =~= staging_views(before).push(row@));
            assert(staging_views(rows@.take(idx as int).push(rows@[idx as int])) =~= staging_views(
                rows@.take(idx as int),
            ).push(rows@[idx as int]@));
        }
        idx += 1;
    }
    copy
}

} // verus!
