//! The linters and the list of findings they report.
//!
//! Number as string: a number is encoded as a string; consider whether it
//! should be represented as a number.
//!
//! Enum as real: an enum (a categorical value) is encoded as a real number;
//! consider converting it to an integer and using an embedding or a one-hot vector.
//!
//! Tokenizable string: a feature has very long strings that are likely all
//! unique; consider tokenizing them and using word embeddings.

use vstd::prelude::*;

use crate::document::{ColumnValues, Document, FieldIdx, QueryType, Queryable};

pub mod enum_as_float;
pub mod number_as_string;
pub mod tokenizable_string;

verus! {

/// The findings of a linter, one message each, in the order they were found.
#[derive(Debug)]
pub struct Lints {
    lint: Vec<String>,
}

impl View for Lints {
    type V = Seq<Seq<char>>;

    closed spec fn view(&self) -> Seq<Seq<char>> {
        self.lint@.map_values(|s: String| s@)
    }
}

impl Lints {
    /// An empty list of findings.
    pub fn new() -> (r: Lints)
        ensures
            r@ == Seq::<Seq<char>>::empty(),
    {
        let r = Lints { lint: Vec::new() };
        assert(r@ =~= Seq::<Seq<char>>::empty());
        r
    }

    /// Appends a finding.
    pub fn push(&mut self, message: String)
        ensures
            final(self)@ == old(self)@.push(message@),
    {
        self.lint.push(message);
        assert(self@ =~= old(self)@.push(message@));
    }

    /// Number of findings.
    pub fn len(&self) -> (n: usize)
        ensures
            n == self@.len(),
    {
        self.lint.len()
    }

    /// Whether there is no finding.
    pub fn is_empty(&self) -> (b: bool)
        ensures
            b == (self@.len() == 0),
    {
        self.lint.len() == 0
    }

    /// The messages, in order.
    pub fn messages(&self) -> (r: &Vec<String>)
        ensures
            r@.map_values(|s: String| s@) == self@,
    {
        &self.lint
    }
}

impl Default for Lints {
    fn default() -> (r: Lints)
        ensures
            r@ == Seq::<Seq<char>>::empty(),
    {
        Lints::new()
    }
}

/// A linter that reports on each document as it comes.
pub trait StreamingLinter {
    /// The kind of columns the linter reads.
    const QUERY_TYPE: QueryType = QueryType::StringArray;

    /// What the linter needs of its state and of `doc` to lint it.
    spec fn ready_for(&self, doc: &Document) -> bool;

    /// Lints `doc`; `None` when there is nothing to report.
    fn lint(&mut self, doc: &Document) -> Option<Lints>
        requires
            old(self).ready_for(doc),
    ;

    /// The columns of `doc` that the linter reads, with their field indices.
    fn get_arrays<'a>(&self, doc: &'a Document) -> (r: Vec<(FieldIdx, &'a ColumnValues)>)
        ensures
            r@.len() == doc.spec_query(Self::QUERY_TYPE).len(),
            forall|k: int|
                0 <= k < r@.len() ==> {
                    &&& (#[trigger] r@[k]).0 == doc.spec_query(Self::QUERY_TYPE)[k]
                    &&& *r@[k].1 == doc.spec_columns()[r@[k].0 as int]
                },
    {
        doc.query(Self::QUERY_TYPE)
    }
}

/// A linter that gathers statistics over all documents, then reports once.
pub trait AggregateLinter: Sized {
    /// The kind of columns the linter reads.
    const QUERY_TYPE: QueryType = QueryType::StringArray;

    /// What the linter needs of its state and of `doc` to aggregate it.
    spec fn ready_for(&self, doc: &Document) -> bool;

    /// Gathers the statistics of `doc`.
    fn aggregate(&mut self, doc: &Document)
        requires
            old(self).ready_for(doc),
    ;

    /// Reports on all the documents aggregated; `None` when there is nothing to report.
    fn lint(self) -> Option<Lints>;

    /// The columns of `doc` that the linter reads, with their field indices.
    fn get_arrays<'a>(&self, doc: &'a Document) -> (r: Vec<(FieldIdx, &'a ColumnValues)>)
        ensures
            r@.len() == doc.spec_query(Self::QUERY_TYPE).len(),
            forall|k: int|
                0 <= k < r@.len() ==> {
                    &&& (#[trigger] r@[k]).0 == doc.spec_query(Self::QUERY_TYPE)[k]
                    &&& *r@[k].1 == doc.spec_columns()[r@[k].0 as int]
                },
    {
        doc.query(Self::QUERY_TYPE)
    }
}

impl PartialEq<Vec<String>> for Lints {
    fn eq(&self, other: &Vec<String>) -> (r: bool) {
        if self.lint.len() != other.len() {
            assert(self@.len() != other@.map_values(|s: String| s@).len());
            return false;
        }
        let n = self.lint.len();
        for i in 0..n
            invariant
                n == self.lint@.len() == other@.len(),
                forall|j: int| 0 <= j < i ==> (#[trigger] self.lint@[j])@ == other@[j]@,
        {
            if self.lint[i] != other[i] {
                assert(self@[i as int] != other@.map_values(|s: String| s@)[i as int]);
                return false;
            }
        }
        assert(self@ =~= other@.map_values(|s: String| s@));
        true
    }
}

impl vstd::std_specs::cmp::PartialEqSpecImpl<Vec<String>> for Lints {
    open spec fn obeys_eq_spec() -> bool {
        true
    }

    open spec fn eq_spec(&self, other: &Vec<String>) -> bool {
        self@ == other@.map_values(|s: String| s@)
    }
}

/// `None` for no finding, else the findings.
pub open spec fn lints_result(r: Option<Lints>, found: Seq<Seq<char>>) -> bool {
    match r {
        None => found.len() == 0,
        Some(l) => found.len() > 0 && l@ == found,
    }
}

/// Wraps findings: `None` when there is none.
pub fn into_result(lints: Lints) -> (r: Option<Lints>)
    ensures
        lints_result(r, lints@),
{
    if lints.is_empty() {
        None
    } else {
        Some(lints)
    }
}

} // verus!
