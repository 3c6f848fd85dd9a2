//! The record that travels between this store and the server.
use vstd::prelude::*;

verus! {

/// One object as the server sends or receives it. `data` is the JSON text of
/// the object; without it the record says that the object was deleted.
/// `last_modified` is the server's time stamp in milliseconds.
#[derive(Debug, PartialEq, Eq)]
pub struct ServerPayload {
    pub ext_id: String,
    pub guid: String,
    pub data: Option<String>,
    pub deleted: bool,
    pub last_modified: i64,
}

pub struct PayloadView {
    pub ext_id: Seq<char>,
    pub guid: Seq<char>,
    pub data: Option<Seq<char>>,
    pub deleted: bool,
    pub last_modified: int,
}

impl View for ServerPayload {
    type V = PayloadView;

    open spec fn view(&self) -> PayloadView {
        PayloadView {
            ext_id: self.ext_id@,
            guid: self.guid@,
            data: self.data.deep_view(),
            deleted: self.deleted,
            last_modified: self.last_modified as int,
        }
    }
}

pub open spec fn payload_views(payloads: Seq<ServerPayload>) -> Seq<PayloadView> {
    payloads.map_values(|p: ServerPayload| p@)
}

} // verus!
