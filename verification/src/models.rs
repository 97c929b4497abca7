//! Requests, responses and operations: what is sent to a supplier and what
//! comes back.

use vstd::prelude::*;
use serde_json::Value;
use crate::text::{
    ascii_lowercase, lemma_replaced_each_single, lemma_trimmed_shape, replace_chars,
    to_ascii_lowercase, trim, trimmed,
};

verus! {

/// `serde_json::Value`, a JSON document of any shape. The library carries
/// such documents from the caller to the suppliers and back and never looks
/// inside.
#[verifier::external_type_specification]
#[verifier::external_body]
pub struct ExValue(Value);

/// `<serde_json::Value as Clone>::clone`: the copy of a document equals the
/// document.
pub assume_specification[ <Value as Clone>::clone ](value: &Value) -> (copy: Value)
    ensures
        copy == *value,
;

/// The kind of work a supplier is asked to do.
#[derive(Debug, PartialEq)]
pub enum SupplierOperation {
    /// A search, such as a product search.
    Search,
    /// The details of one item.
    GetDetail,
    /// Any other operation, by name.
    Other(String),
}

impl Clone for SupplierOperation {
    /// A copy that equals the operation it was made from.
    fn clone(&self) -> (copy: Self)
        ensures
            copy == *self,
    {
        match self {
            SupplierOperation::Search => SupplierOperation::Search,
            SupplierOperation::GetDetail => SupplierOperation::GetDetail,
            SupplierOperation::Other(name) => SupplierOperation::Other(name.clone()),
        }
    }
}

/// A request to a supplier: what to do, and the parameters to do it with.
#[derive(Debug, PartialEq)]
pub struct SupplierRequest {
    /// The operation to carry out.
    pub operation: SupplierOperation,
    /// The parameters of the operation, in any shape.
    pub params: Value,
}

impl Clone for SupplierRequest {
    /// A copy that equals the request it was made from and shares nothing
    /// with it.
    fn clone(&self) -> (copy: Self)
        ensures
            copy == *self,
    {
        SupplierRequest { operation: self.operation.clone(), params: self.params.clone() }
    }
}

/// What a supplier answers when it succeeds.
#[derive(Debug, Clone, PartialEq)]
pub struct SupplierResponse {
    /// The answer, in any shape.
    pub data: Value,
}

/// What a [`SupplierOperation`] is: its kind and, for `Other`, the
/// characters of its name.
pub enum OperationView {
    Search,
    GetDetail,
    Other(Seq<char>),
}

impl View for SupplierOperation {
    type V = OperationView;

    open spec fn view(&self) -> OperationView {
        match self {
            SupplierOperation::Search => OperationView::Search,
            SupplierOperation::GetDetail => OperationView::GetDetail,
            SupplierOperation::Other(name) => OperationView::Other(name@),
        }
    }
}

/// One character of a normalized name: a space, a hyphen or a slash
/// becomes an underscore.
pub open spec fn unify_separator(c: char) -> char {
    if c == ' ' || c == '-' || c == '/' {
        '_'
    } else {
        c
    }
}

/// The canonical form of an operation name: surrounding whitespace removed,
/// ASCII letters in lower case, and spaces, hyphens and slashes unified to
/// underscores.
pub open spec fn normalized_name(name: Seq<char>) -> Seq<char> {
    ascii_lowercase(trimmed(name)).map_values(|c: char| unify_separator(c))
}

impl OperationView {
    /// The operation with an `Other` name in canonical form; `Search` and
    /// `GetDetail` are left as they are.
    pub open spec fn normalized(self) -> OperationView {
        match self {
            OperationView::Other(name) => OperationView::Other(normalized_name(name)),
            known => known,
        }
    }

    /// The text that stands for the operation.
    pub open spec fn label(self) -> Seq<char> {
        match self {
            OperationView::Search => "search"@,
            OperationView::GetDetail => "get_detail"@,
            OperationView::Other(name) => name,
        }
    }
}

/// The canonical form of a name is its own canonical form.
pub proof fn lemma_normalized_name_idempotent(name: Seq<char>)
    ensures
        normalized_name(normalized_name(name)) == normalized_name(name),
{
    lemma_trimmed_shape(name);
}

/// Normalizing an operation twice gives what normalizing it once gives, and
/// `Search` and `GetDetail` are fixed points.
pub proof fn lemma_normalize_idempotent(op: OperationView)
    ensures
        op.normalized().normalized() == op.normalized(),
        OperationView::Search.normalized() == OperationView::Search,
        OperationView::GetDetail.normalized() == OperationView::GetDetail,
{
    if let OperationView::Other(name) = op {
        lemma_normalized_name_idempotent(name);
    }
}

impl SupplierOperation {
    /// Brings the name of an `Other` operation into canonical form.
    /// `Search` and `GetDetail` are returned unchanged.
    pub fn normalize(self) -> (normal: Self)
        ensures
            normal@ == self@.normalized(),
    {
        match self {
            SupplierOperation::Other(name) => {
                let lower = to_ascii_lowercase(trim(name.as_str()));
                let unified = replace_chars(lower.as_str(), [' ', '-', '/'], "_");
                proof {
                    reveal_strlit("_");
                    let from = [' ', '-', '/']@;
                    lemma_replaced_each_single(lower@, from, "_"@);
                    assert(from.contains(' ')) by { assert(from[0] == ' '); }
                    assert(from.contains('-')) by { assert(from[1] == '-'); }
                    assert(from.contains('/')) by { assert(from[2] == '/'); }
                    assert(unified@ =~= normalized_name(name@));
                }
                SupplierOperation::Other(unified)
            },
            SupplierOperation::Search => SupplierOperation::Search,
            SupplierOperation::GetDetail => SupplierOperation::GetDetail,
        }
    }

    /// The text that stands for the operation: `"search"`, `"get_detail"`,
    /// or the name of an `Other` operation as it is.
    pub fn as_str(&self) -> (label: &str)
        ensures
            label@ == self@.label(),
    {
        match self {
            SupplierOperation::Search => "search",
            SupplierOperation::GetDetail => "get_detail",
            SupplierOperation::Other(name) => name.as_str(),
        }
    }
}

} // verus!
