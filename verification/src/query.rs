//! Similarity-search requests, built by consume-and-return chaining.
//!
//! A [`VectorQuery`] is bound to one vector field and carries exactly one
//! target — a dense vector or a sparse one — together with a result count, an
//! optional filter expression, an optional output-field allow-list and flags
//! for including vector payloads and internal ids. A
//! [`GroupByVectorQuery`] additionally names a scalar field whose distinct
//! values partition the results. Submitting either consumes it, success or
//! failure.

use vstd::prelude::*;

use crate::doc::DocView;
use crate::doc::DocList;
use crate::error::Error;
use crate::error::Result;

verus! {

/// The target a query ranks against, at the specification level.
pub enum QueryTargetV {
    Dense(Seq<i32>),
    Sparse(Seq<u32>, Seq<i32>),
}

/// The target a query ranks against.
pub enum QueryTarget {
    Dense(Vec<i32>),
    Sparse(Vec<u32>, Vec<i32>),
}

impl View for QueryTarget {
    type V = QueryTargetV;

    open spec fn view(&self) -> QueryTargetV {
        match self {
            QueryTarget::Dense(v) => QueryTargetV::Dense(v@),
            QueryTarget::Sparse(i, v) => QueryTargetV::Sparse(i@, v@),
        }
    }
}

/// The specification-level value of a vector query.
pub struct VectorQueryView {
    pub field: Seq<char>,
    pub topk: usize,
    pub filter: Option<Seq<char>>,
    pub include_vector: bool,
    pub include_doc_id: bool,
    pub output_fields: Option<Seq<Seq<char>>>,
    pub target: Option<QueryTargetV>,
}

/// A similarity search over one vector field.
pub struct VectorQuery {
    field: String,
    topk: usize,
    filter: Option<String>,
    include_vector: bool,
    include_doc_id: bool,
    output_fields: Option<Vec<String>>,
    target: Option<QueryTarget>,
}

impl View for VectorQuery {
    type V = VectorQueryView;

    closed spec fn view(&self) -> VectorQueryView {
        VectorQueryView {
            field: self.field@,
            topk: self.topk,
            filter: match self.filter {
                Some(f) => Some(f@),
                None => None,
            },
            include_vector: self.include_vector,
            include_doc_id: self.include_doc_id,
            output_fields: match self.output_fields {
                Some(fs) => Some(fs@.map_values(|s: String| s@)),
                None => None,
            },
            target: match self.target {
                Some(t) => Some(t@),
                None => None,
            },
        }
    }
}

/// Turn a slice of names into owned strings.
fn names_to_vec(names: &[&str]) -> (r: Vec<String>)
    ensures
        r@.map_values(|s: String| s@) == names@.map_values(|s: &str| s@),
{
    let mut r: Vec<String> = Vec::new();
    let n = names.len();
    for i in 0..n
        invariant
            n == names@.len(),
            r@.len() == i,
            forall|j: int| 0 <= j < i ==> r@[j]@ == names@[j]@,
    {
        let s = *vstd::slice::slice_index_get(names, i);
        r.push(String::from_str(s));
    }
    proof {
        assert(r@.map_values(|s: String| s@) =~= names@.map_values(|s: &str| s@));
    }
    r
}

impl VectorQuery {
    /// A query over the named vector field: 10 results, no filter, no
    /// projection, vectors and internal ids left out, no target yet.
    pub fn new(field_name: &str) -> (q: VectorQuery)
        ensures
            q@ == (VectorQueryView {
                field: field_name@,
                topk: 10usize,
                filter: None,
                include_vector: false,
                include_doc_id: false,
                output_fields: None,
                target: None,
            }),
    {
        VectorQuery {
            field: String::from_str(field_name),
            topk: 10,
            filter: None,
            include_vector: false,
            include_doc_id: false,
            output_fields: None,
            target: None,
        }
    }

    /// Set the number of results to return (default: 10).
    pub fn topk(self, topk: usize) -> (q: VectorQuery)
        ensures
            q@ == (VectorQueryView { topk, ..self@ }),
    {
        VectorQuery { topk, ..self }
    }

    /// Set a filter expression to narrow results.
    pub fn filter(self, filter: &str) -> (q: VectorQuery)
        ensures
            q@ == (VectorQueryView { filter: Some(filter@), ..self@ }),
    {
        VectorQuery { filter: Some(String::from_str(filter)), ..self }
    }

    /// Whether to include vector fields in results.
    pub fn include_vector(self, included: bool) -> (q: VectorQuery)
        ensures
            q@ == (VectorQueryView { include_vector: included, ..self@ }),
    {
        VectorQuery { include_vector: included, ..self }
    }

    /// Whether to include internal document ids in results.
    pub fn include_doc_id(self, included: bool) -> (q: VectorQuery)
        ensures
            q@ == (VectorQueryView { include_doc_id: included, ..self@ }),
    {
        VectorQuery { include_doc_id: included, ..self }
    }

    /// Keep only the named fields in results; an empty list keeps all fields.
    pub fn output_fields(self, fields: &[&str]) -> (q: VectorQuery)
        ensures
            q@ == (VectorQueryView {
                output_fields: Some(fields@.map_values(|s: &str| s@)),
                ..self@
            }),
    {
        VectorQuery { output_fields: Some(names_to_vec(fields)), ..self }
    }

    /// Set the dense query vector, replacing any target set before.
    pub fn vector(self, vector: &[i32]) -> (r: Result<VectorQuery>)
        ensures
            r matches Ok(q) && q@ == (VectorQueryView {
                target: Some(QueryTargetV::Dense(vector@)),
                ..self@
            }),
    {
        let owned = vstd::slice::slice_to_vec(vector);
        Ok(VectorQuery { target: Some(QueryTarget::Dense(owned)), ..self })
    }

    /// Set the sparse query vector, replacing any target set before. Fails
    /// with `InvalidArgument` when the index and value arrays differ in
    /// length; the query is consumed either way.
    pub fn sparse_vector(self, indices: &[u32], values: &[i32]) -> (r: Result<VectorQuery>)
        ensures
            indices@.len() != values@.len() ==> (r matches Err(e) && e is InvalidArgument),
            indices@.len() == values@.len() ==> (r matches Ok(q) && q@ == (VectorQueryView {
                target: Some(QueryTargetV::Sparse(indices@, values@)),
                ..self@
            })),
    {
        if indices.len() != values.len() {
            return Err(
                Error::InvalidArgument(
                    String::from_str("indices and values must have same length"),
                ),
            );
        }
        let i = vstd::slice::slice_to_vec(indices);
        let v = vstd::slice::slice_to_vec(values);
        Ok(VectorQuery { target: Some(QueryTarget::Sparse(i, v)), ..self })
    }

    pub(crate) fn take_parts(self) -> (r: (
        String,
        usize,
        Option<String>,
        bool,
        bool,
        Option<Vec<String>>,
        Option<QueryTarget>,
    ))
        ensures
            r.0@ == self@.field,
            r.1 == self@.topk,
            (match r.2 {
                Some(f) => Some(f@),
                None => None,
            }) == self@.filter,
            r.3 == self@.include_vector,
            r.4 == self@.include_doc_id,
            (match r.5 {
                Some(fs) => Some(fs@.map_values(|s: String| s@)),
                None => None,
            }) == self@.output_fields,
            (match r.6 {
                Some(t) => Some(t@),
                None => None,
            }) == self@.target,
    {
        (
            self.field,
            self.topk,
            self.filter,
            self.include_vector,
            self.include_doc_id,
            self.output_fields,
            self.target,
        )
    }
}

/// The specification-level value of a grouped vector query.
pub struct GroupByVectorQueryView {
    pub field: Seq<char>,
    pub group_by_field: Option<Seq<char>>,
    pub group_count: u32,
    pub group_topk: u32,
    pub filter: Option<Seq<char>>,
    pub output_fields: Option<Seq<Seq<char>>>,
    pub target: Option<QueryTargetV>,
}

/// A similarity search whose results are partitioned by a scalar field's
/// distinct values.
pub struct GroupByVectorQuery {
    field: String,
    group_by_field: Option<String>,
    group_count: u32,
    group_topk: u32,
    filter: Option<String>,
    output_fields: Option<Vec<String>>,
    target: Option<QueryTarget>,
}

impl View for GroupByVectorQuery {
    type V = GroupByVectorQueryView;

    closed spec fn view(&self) -> GroupByVectorQueryView {
        GroupByVectorQueryView {
            field: self.field@,
            group_by_field: match self.group_by_field {
                Some(f) => Some(f@),
                None => None,
            },
            group_count: self.group_count,
            group_topk: self.group_topk,
            filter: match self.filter {
                Some(f) => Some(f@),
                None => None,
            },
            output_fields: match self.output_fields {
                Some(fs) => Some(fs@.map_values(|s: String| s@)),
                None => None,
            },
            target: match self.target {
                Some(t) => Some(t@),
                None => None,
            },
        }
    }
}

impl GroupByVectorQuery {
    /// A grouped query over the named vector field: up to 10 groups of up to
    /// 10 results, no group-by field, filter or projection yet.
    pub fn new(field_name: &str) -> (q: GroupByVectorQuery)
        ensures
            q@ == (GroupByVectorQueryView {
                field: field_name@,
                group_by_field: None,
                group_count: 10u32,
                group_topk: 10u32,
                filter: None,
                output_fields: None,
                target: None,
            }),
    {
        GroupByVectorQuery {
            field: String::from_str(field_name),
            group_by_field: None,
            group_count: 10,
            group_topk: 10,
            filter: None,
            output_fields: None,
            target: None,
        }
    }

    /// Set the scalar field whose distinct values partition the results.
    pub fn group_by(self, field_name: &str) -> (q: GroupByVectorQuery)
        ensures
            q@ == (GroupByVectorQueryView { group_by_field: Some(field_name@), ..self@ }),
    {
        GroupByVectorQuery { group_by_field: Some(String::from_str(field_name)), ..self }
    }

    /// Cap the number of groups returned.
    pub fn group_count(self, count: u32) -> (q: GroupByVectorQuery)
        ensures
            q@ == (GroupByVectorQueryView { group_count: count, ..self@ }),
    {
        GroupByVectorQuery { group_count: count, ..self }
    }

    /// Cap the number of results inside each group.
    pub fn group_topk(self, topk: u32) -> (q: GroupByVectorQuery)
        ensures
            q@ == (GroupByVectorQueryView { group_topk: topk, ..self@ }),
    {
        GroupByVectorQuery { group_topk: topk, ..self }
    }

    /// Set a filter expression to narrow results.
    pub fn filter(self, filter: &str) -> (q: GroupByVectorQuery)
        ensures
            q@ == (GroupByVectorQueryView { filter: Some(filter@), ..self@ }),
    {
        GroupByVectorQuery { filter: Some(String::from_str(filter)), ..self }
    }

    /// Keep only the named fields in results; an empty list keeps all fields.
    pub fn output_fields(self, fields: &[&str]) -> (q: GroupByVectorQuery)
        ensures
            q@ == (GroupByVectorQueryView {
                output_fields: Some(fields@.map_values(|s: &str| s@)),
                ..self@
            }),
    {
        GroupByVectorQuery { output_fields: Some(names_to_vec(fields)), ..self }
    }

    /// Set the dense query vector, replacing any target set before.
    pub fn vector(self, vector: &[i32]) -> (r: Result<GroupByVectorQuery>)
        ensures
            r matches Ok(q) && q@ == (GroupByVectorQueryView {
                target: Some(QueryTargetV::Dense(vector@)),
                ..self@
            }),
    {
        let owned = vstd::slice::slice_to_vec(vector);
        Ok(GroupByVectorQuery { target: Some(QueryTarget::Dense(owned)), ..self })
    }

    pub(crate) fn take_parts(self) -> (r: (
        String,
        Option<String>,
        u32,
        u32,
        Option<String>,
        Option<Vec<String>>,
        Option<QueryTarget>,
    ))
        ensures
            r.0@ == self@.field,
            (match r.1 {
                Some(f) => Some(f@),
                None => None,
            }) == self@.group_by_field,
            r.2 == self@.group_count,
            r.3 == self@.group_topk,
            (match r.4 {
                Some(f) => Some(f@),
                None => None,
            }) == self@.filter,
            (match r.5 {
                Some(fs) => Some(fs@.map_values(|s: String| s@)),
                None => None,
            }) == self@.output_fields,
            (match r.6 {
                Some(t) => Some(t@),
                None => None,
            }) == self@.target,
    {
        (
            self.field,
            self.group_by_field,
            self.group_count,
            self.group_topk,
            self.filter,
            self.output_fields,
            self.target,
        )
    }
}

/// One group of a grouped query's results: the group key's string form and
/// the documents ranked inside the group.
pub struct GroupResult {
    key: String,
    docs: DocList,
}

impl GroupResult {
    pub(crate) fn assemble(key: String, docs: DocList) -> (g: GroupResult)
        ensures
            g@ == (GroupView { key: key@, docs: docs@ }),
    {
        GroupResult { key, docs }
    }
}

/// The specification-level value of one group.
pub struct GroupView {
    pub key: Seq<char>,
    pub docs: Seq<DocView>,
}

impl View for GroupResult {
    type V = GroupView;

    closed spec fn view(&self) -> GroupView {
        GroupView { key: self.key@, docs: self.docs@ }
    }
}

/// The groups a grouped query returned, best group first.
pub struct GroupResults {
    groups: Vec<GroupResult>,
}

impl View for GroupResults {
    type V = Seq<GroupView>;

    closed spec fn view(&self) -> Seq<GroupView> {
        self.groups@.map_values(|g: GroupResult| g@)
    }
}

impl GroupResults {
    pub(crate) fn from_groups(groups: Vec<GroupResult>) -> (r: GroupResults)
        ensures
            r@ == groups@.map_values(|g: GroupResult| g@),
    {
        GroupResults { groups }
    }

    /// The number of groups.
    pub fn len(&self) -> (r: usize)
        ensures
            r == self@.len(),
    {
        self.groups.len()
    }

    /// Whether no group was returned.
    pub fn is_empty(&self) -> (r: bool)
        ensures
            r == (self@.len() == 0),
    {
        self.groups.len() == 0
    }

    /// The group at the given position, best group first.
    pub fn get(&self, index: usize) -> (r: Option<GroupResultRef<'_>>)
        ensures
            match r {
                Some(g) => index < self@.len() && g.view_of() == self@[index as int],
                None => index >= self@.len(),
            },
    {
        if index < self.groups.len() {
            Some(GroupResultRef { group: &self.groups[index] })
        } else {
            None
        }
    }

    /// Walk the groups in order.
    pub fn iter(&self) -> (r: GroupResultsIter<'_>)
        ensures
            r.groups_view() == self@,
            r.position() == 0,
    {
        GroupResultsIter { results: self, index: 0 }
    }
}

/// A borrowed view of one group, valid while the results live.
pub struct GroupResultRef<'a> {
    group: &'a GroupResult,
}

impl<'a> GroupResultRef<'a> {
    /// The group this reference borrows.
    pub closed spec fn view_of(self) -> GroupView {
        self.group@
    }

    /// The string form of the group key's value.
    pub fn group_by_value(&self) -> (r: &str)
        ensures
            r@ == self.view_of().key,
    {
        self.group.key.as_str()
    }

    /// The documents ranked inside the group.
    pub fn docs(&self) -> (r: &DocList)
        ensures
            r@ == self.view_of().docs,
    {
        &self.group.docs
    }
}

/// A cursor over a [`GroupResults`].
pub struct GroupResultsIter<'a> {
    results: &'a GroupResults,
    index: usize,
}

impl<'a> GroupResultsIter<'a> {
    /// The groups being walked.
    pub closed spec fn groups_view(self) -> Seq<GroupView> {
        self.results@
    }

    /// How many groups have been handed out.
    pub closed spec fn position(self) -> int {
        self.index as int
    }

    /// The next group, or `None` past the end.
    pub fn next(&mut self) -> (r: Option<GroupResultRef<'a>>)
        ensures
            final(self).groups_view() == old(self).groups_view(),
            match r {
                Some(g) => old(self).position() < old(self).groups_view().len() && g.view_of()
                    == old(self).groups_view()[old(self).position()] && final(self).position()
                    == old(self).position() + 1,
                None => old(self).position() >= old(self).groups_view().len() && *final(self)
                    == *old(self),
            },
    {
        if self.index < self.results.groups.len() {
            let r = GroupResultRef { group: &self.results.groups[self.index] };
            self.index = self.index + 1;
            Some(r)
        } else {
            None
        }
    }
}

} // verus!
