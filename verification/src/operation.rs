//! What is known of an operation before it is planned.
use crate::text::{lower, same_ignoring_case, text_of, texts};
use vstd::prelude::*;

verus! {

/// One operation of a document, as filters see it.
#[derive(Debug, Clone)]
pub struct OperationMeta {
    pub operation_id: String,
    pub method: String,
    pub path: String,
    /// Number of path parameters: one `{` each in the path.
    pub path_param_count: usize,
    pub tags: Vec<String>,
    pub summary: Option<String>,
    pub description: Option<String>,
}

/// What an operation is.
pub struct OperationMetaView {
    pub operation_id: Seq<char>,
    pub method: Seq<char>,
    pub path: Seq<char>,
    pub path_param_count: nat,
    pub tags: Seq<Seq<char>>,
    pub summary: Option<Seq<char>>,
    pub description: Option<Seq<char>>,
}

impl View for OperationMeta {
    type V = OperationMetaView;

    open spec fn view(&self) -> OperationMetaView {
        OperationMetaView {
            operation_id: self.operation_id@,
            method: self.method@,
            path: self.path@,
            path_param_count: self.path_param_count as nat,
            tags: texts(self.tags@),
            summary: text_of(self.summary),
            description: text_of(self.description),
        }
    }
}

/// What each of the operations is.
pub open spec fn operation_views(ops: Seq<OperationMeta>) -> Seq<OperationMetaView> {
    ops.map_values(|op: OperationMeta| op@)
}

impl OperationMetaView {
    /// Whether the operation reads one thing by its id: a `GET` with a path parameter.
    pub open spec fn reads_by_id(self) -> bool {
        lower(self.method) == lower("get"@) && self.path_param_count > 0
    }
}

impl OperationMeta {
    /// Whether the operation reads one thing by its id: a `GET` with a path parameter, such
    /// as `GET /pets/{petId}`.
    pub fn is_read_by_id(&self) -> (r: bool)
        ensures
            r == self@.reads_by_id(),
    {
        same_ignoring_case(self.method.as_str(), "get") && self.path_param_count > 0
    }
}

}
