//! Detection of floating-point columns that take few distinct values, likely
//! categorical values encoded as real numbers.

use vstd::prelude::*;

use crate::document::{float_entries, is_float_type, ColumnValues, DataType, Document, Field, QueryType, Queryable};
use crate::lints::{into_result, lints_result, AggregateLinter, Lints};

verus! {

/// The hasher builder of `ahash`, with which the sets of distinct values are built.
#[verifier::external_type_specification]
#[verifier::external_body]
pub struct ExAHashRandomState(ahash::RandomState);

/// Creates an empty `ahash::HashSet` through `ahash::HashSetExt::with_capacity`
/// (a `std` set with a freshly seeded `ahash::RandomState`). The contract claims
/// that the set is empty.
#[verifier::external_body]
fn bit_set_with_capacity(capacity: usize) -> (s: ahash::HashSet<u64>)
    ensures
        s@ == Set::<u64>::empty(),
{
    <ahash::HashSet<u64> as ahash::HashSetExt>::with_capacity(capacity)
}

/// Adds `value` with `std::collections::HashSet::insert` to a set hashed by
/// `ahash::RandomState`. The contract claims that the set then holds exactly its
/// former elements and `value`: `ahash` documents that hashers built from the same
/// `RandomState` hash the same input alike, and `u64` equality is the identity.
#[verifier::external_body]
fn bit_set_insert(set: &mut ahash::HashSet<u64>, value: u64)
    ensures
        final(set)@ == old(set)@.insert(value),
{
    set.insert(value);
}

/// The number of elements of a set hashed by `ahash::RandomState`, from
/// `std::collections::HashSet::len`. The contract claims that it is the size of
/// the set of elements.
#[verifier::external_body]
fn bit_set_len(set: &ahash::HashSet<u64>) -> (n: usize)
    ensures
        n == set@.len(),
{
    set.len()
}

/// The distinct values seen in one column, each by the bit pattern of its `f64` value.
#[derive(Debug)]
struct FloatCounter {
    map: ahash::HashSet<u64>,
    name: String,
}

impl FloatCounter {
    fn new(col_name: String) -> (c: FloatCounter)
        ensures
            c.map@ == Set::<u64>::empty(),
            c.name@ == col_name@,
    {
        FloatCounter { map: bit_set_with_capacity(10), name: col_name }
    }

    fn len(&self) -> (n: usize)
        ensures
            n == self.map@.len(),
    {
        bit_set_len(&self.map)
    }

    fn insert(&mut self, float_bits: u64)
        ensures
            final(self).map@ == old(self).map@.insert(float_bits),
            final(self).name == old(self).name,
    {
        bit_set_insert(&mut self.map, float_bits);
    }
}

/// The position of the first of the first `n` names equal to `name`.
pub open spec fn first_match(names: Seq<Seq<char>>, name: Seq<char>, n: nat) -> Option<nat>
    decreases n,
{
    if n == 0 {
        None
    } else {
        match first_match(names, name, (n - 1) as nat) {
            Some(i) => Some(i),
            None => if names[n - 1] == name {
                Some((n - 1) as nat)
            } else {
                None
            },
        }
    }
}

/// Once a name is found among the first `n` names, looking further finds the same position.
pub proof fn lemma_first_match_stable(names: Seq<Seq<char>>, name: Seq<char>, n: nat, m: nat)
    requires
        n <= m,
        first_match(names, name, n) is Some,
    ensures
        first_match(names, name, m) == first_match(names, name, n),
        first_match(names, name, n)->0 < n,
        names[first_match(names, name, n)->0 as int] == name,
    decreases m,
{
    if n < m {
        lemma_first_match_stable(names, name, n, (m - 1) as nat);
    } else if n > 0 && first_match(names, name, (n - 1) as nat) is Some {
        lemma_first_match_stable(names, name, (n - 1) as nat, (n - 1) as nat);
    }
}

/// The position of the first name equal to `name`.
pub open spec fn name_position(names: Seq<Seq<char>>, name: Seq<char>) -> Option<nat> {
    first_match(names, name, names.len())
}

/// The values (as bit patterns) present among the first `n` entries.
pub open spec fn entry_bits(entries: Seq<Option<u64>>, n: nat) -> Set<u64> {
    Set::new(|b: u64| exists|i: int| 0 <= i < n && entries[i] == Some(b))
}

/// The values that the first `k` floating-point columns of `doc` add to the
/// counter at position `j`: those of the columns whose name is first found at
/// `j`, unless that counter is completed.
pub open spec fn doc_bits_for_counter(
    names: Seq<Seq<char>>,
    completed: Seq<bool>,
    doc: Document,
    j: nat,
    k: nat,
) -> Set<u64> {
    Set::new(|b: u64| exists|c: int| 0 <= c < k && #[trigger] column_adds(names, completed, doc, j, c, b))
}

/// Whether the `c`-th floating-point column of `doc` adds the value `b` to the
/// counter at position `j`.
pub open spec fn column_adds(
    names: Seq<Seq<char>>,
    completed: Seq<bool>,
    doc: Document,
    j: nat,
    c: int,
    b: u64,
) -> bool {
    let f = doc.spec_query(QueryType::FloatArray)[c];
    &&& name_position(names, doc.spec_fields()[f as int].name@) == Some(j)
    &&& !completed[j as int]
    &&& float_entries(doc.spec_columns()[f as int]).contains(Some(b))
}

/// The counters' values after aggregating `doc`: each counter gains the values
/// that the document's columns add to it.
pub open spec fn aggregated_sets(
    sets: Seq<Set<u64>>,
    names: Seq<Seq<char>>,
    completed: Seq<bool>,
    doc: Document,
) -> Seq<Set<u64>> {
    Seq::new(
        sets.len(),
        |j: int|
            sets[j].union(
                doc_bits_for_counter(
                    names,
                    completed,
                    doc,
                    j as nat,
                    doc.spec_query(QueryType::FloatArray).len(),
                ),
            ),
    )
}

/// The distinct values a linter gathers do not depend on the order in which
/// documents are aggregated, and aggregating a document twice gathers nothing more
/// than once.
pub proof fn law_aggregation_order_independent(
    sets: Seq<Set<u64>>,
    names: Seq<Seq<char>>,
    completed: Seq<bool>,
    d1: Document,
    d2: Document,
)
    ensures
        aggregated_sets(aggregated_sets(sets, names, completed, d1), names, completed, d2)
            == aggregated_sets(aggregated_sets(sets, names, completed, d2), names, completed, d1),
        aggregated_sets(aggregated_sets(sets, names, completed, d1), names, completed, d1)
            == aggregated_sets(sets, names, completed, d1),
{
    let a1 = aggregated_sets(sets, names, completed, d1);
    let a2 = aggregated_sets(sets, names, completed, d2);
    assert forall|j: int| 0 <= j < sets.len() implies #[trigger] aggregated_sets(a1, names, completed, d2)[j]
        == aggregated_sets(a2, names, completed, d1)[j] by {
        let b1 = doc_bits_for_counter(names, completed, d1, j as nat, d1.spec_query(QueryType::FloatArray).len());
        let b2 = doc_bits_for_counter(names, completed, d2, j as nat, d2.spec_query(QueryType::FloatArray).len());
        assert(sets[j].union(b1).union(b2) =~= sets[j].union(b2).union(b1));
    }
    assert(aggregated_sets(a1, names, completed, d2) =~= aggregated_sets(a2, names, completed, d1));
    assert forall|j: int| 0 <= j < sets.len() implies #[trigger] aggregated_sets(a1, names, completed, d1)[j]
        == a1[j] by {
        let b1 = doc_bits_for_counter(names, completed, d1, j as nat, d1.spec_query(QueryType::FloatArray).len());
        assert(sets[j].union(b1).union(b1) =~= sets[j].union(b1));
    }
    assert(aggregated_sets(a1, names, completed, d1) =~= a1);
}

/// The counters' values after a linter whose counters hold `sets` aggregates
/// `doc`: a counter holding more than `threshold` distinct values is left as it
/// is, any other gains the values that the document's columns add to it.
pub open spec fn aggregate_step(
    sets: Seq<Set<u64>>,
    names: Seq<Seq<char>>,
    threshold: nat,
    doc: Document,
) -> Seq<Set<u64>> {
    let open_flags = Seq::new(sets.len(), |i: int| false);
    Seq::new(
        sets.len(),
        |j: int|
            if sets[j].len() > threshold {
                sets[j]
            } else {
                sets[j].union(
                    doc_bits_for_counter(
                        names,
                        open_flags,
                        doc,
                        j as nat,
                        doc.spec_query(QueryType::FloatArray).len(),
                    ),
                )
            },
    )
}

/// Aggregating the same document a second time gathers nothing more.
pub proof fn law_aggregate_step_idempotent(
    sets: Seq<Set<u64>>,
    names: Seq<Seq<char>>,
    threshold: nat,
    doc: Document,
)
    ensures
        aggregate_step(aggregate_step(sets, names, threshold, doc), names, threshold, doc)
            == aggregate_step(sets, names, threshold, doc),
{
    let once = aggregate_step(sets, names, threshold, doc);
    let twice = aggregate_step(once, names, threshold, doc);
    let open_flags = Seq::new(sets.len(), |i: int| false);
    assert forall|j: int| 0 <= j < sets.len() implies #[trigger] twice[j] == once[j] by {
        let b = doc_bits_for_counter(names, open_flags, doc, j as nat, doc.spec_query(QueryType::FloatArray).len());
        assert(sets[j].union(b).union(b) =~= sets[j].union(b));
    }
    assert(twice =~= once);
}

/// A counter that is not above the threshold gains every value of every
/// floating-point column of the document (of whichever floating-point type)
/// whose name is first found at that counter.
pub proof fn law_aggregate_step_gathers_column_values(
    sets: Seq<Set<u64>>,
    names: Seq<Seq<char>>,
    threshold: nat,
    doc: Document,
    j: int,
    c: int,
    b: u64,
)
    requires
        0 <= j < sets.len(),
        sets[j].len() <= threshold,
        0 <= c < doc.spec_query(QueryType::FloatArray).len(),
        name_position(names, doc.spec_fields()[doc.spec_query(QueryType::FloatArray)[c] as int].name@)
            == Some(j as nat),
        float_entries(doc.spec_columns()[doc.spec_query(QueryType::FloatArray)[c] as int]).contains(Some(b)),
    ensures
        aggregate_step(sets, names, threshold, doc)[j].contains(b),
{
    let open_flags = Seq::new(sets.len(), |i: int| false);
    assert(column_adds(names, open_flags, doc, j as nat, c, b));
}

/// A counter keeps the values it held, is left as it was when it is above the
/// threshold, and otherwise gains only values of floating-point columns of the
/// document whose name is first found at that counter.
pub proof fn law_aggregate_step_adds_only_column_values(
    sets: Seq<Set<u64>>,
    names: Seq<Seq<char>>,
    threshold: nat,
    doc: Document,
    j: int,
    b: u64,
)
    requires
        0 <= j < sets.len(),
    ensures
        sets[j].contains(b) ==> aggregate_step(sets, names, threshold, doc)[j].contains(b),
        sets[j].len() > threshold ==> aggregate_step(sets, names, threshold, doc)[j] == sets[j],
        aggregate_step(sets, names, threshold, doc)[j].contains(b) && !sets[j].contains(b) ==> exists|c: int|
            0 <= c < doc.spec_query(QueryType::FloatArray).len() && name_position(
                names,
                doc.spec_fields()[#[trigger] doc.spec_query(QueryType::FloatArray)[c] as int].name@,
            ) == Some(j as nat) && float_entries(
                doc.spec_columns()[doc.spec_query(QueryType::FloatArray)[c] as int],
            ).contains(Some(b)),
{
    let open_flags = Seq::new(sets.len(), |i: int| false);
    if aggregate_step(sets, names, threshold, doc)[j].contains(b) && !sets[j].contains(b) {
        let q = doc.spec_query(QueryType::FloatArray).len();
        let c = choose|c: int| 0 <= c < q && #[trigger] column_adds(names, open_flags, doc, j as nat, c, b);
        assert(name_position(names, doc.spec_fields()[doc.spec_query(QueryType::FloatArray)[c] as int].name@)
            == Some(j as nat));
    }
}

/// The values present among the first `n` entries are finitely many.
proof fn lemma_entry_bits_finite(entries: Seq<Option<u64>>, n: nat)
    ensures
        entry_bits(entries, n).finite(),
    decreases n,
{
    if n == 0 {
        assert(entry_bits(entries, 0) =~= Set::<u64>::empty());
    } else {
        lemma_entry_bits_finite(entries, (n - 1) as nat);
        let prev = entry_bits(entries, (n - 1) as nat);
        match entries[n - 1] {
            Some(b) => {
                assert(entry_bits(entries, n) =~= prev.insert(b));
            },
            None => {
                assert(entry_bits(entries, n) =~= prev);
            },
        }
    }
}

/// The values that the first `k` floating-point columns of a document add to a
/// counter are finitely many.
proof fn lemma_doc_bits_finite(
    names: Seq<Seq<char>>,
    completed: Seq<bool>,
    doc: Document,
    j: nat,
    k: nat,
)
    ensures
        doc_bits_for_counter(names, completed, doc, j, k).finite(),
    decreases k,
{
    if k == 0 {
        assert(doc_bits_for_counter(names, completed, doc, j, 0) =~= Set::<u64>::empty());
    } else {
        lemma_doc_bits_finite(names, completed, doc, j, (k - 1) as nat);
        let prev = doc_bits_for_counter(names, completed, doc, j, (k - 1) as nat);
        let entries = float_entries(doc.spec_columns()[doc.spec_query(QueryType::FloatArray)[k - 1] as int]);
        let column = entry_bits(entries, entries.len());
        lemma_entry_bits_finite(entries, entries.len());
        assert forall|b: u64| doc_bits_for_counter(names, completed, doc, j, k).contains(b)
            implies #[trigger] prev.union(column).contains(b) by {
            let c = choose|c: int| 0 <= c < k && #[trigger] column_adds(names, completed, doc, j, c, b);
            if c == k - 1 {
                assert(entries.contains(Some(b)));
                let i = choose|i: int| 0 <= i < entries.len() && entries[i] == Some(b);
                assert(column.contains(b));
            } else {
                assert(prev.contains(b));
            }
        }
        vstd::set_lib::lemma_len_subset(doc_bits_for_counter(names, completed, doc, j, k), prev.union(column));
    }
}

/// Where the completion flags are up to date, aggregating a document as
/// `aggregated_sets` describes it is `aggregate_step`.
proof fn lemma_aggregated_is_step(
    sets: Seq<Set<u64>>,
    names: Seq<Seq<char>>,
    completed: Seq<bool>,
    threshold: nat,
    doc: Document,
)
    requires
        completed.len() == sets.len(),
        forall|j: int| 0 <= j < sets.len() ==> #[trigger] completed[j] == (sets[j].len() > threshold),
    ensures
        aggregated_sets(sets, names, completed, doc) == aggregate_step(sets, names, threshold, doc),
{
    let open_flags = Seq::new(sets.len(), |i: int| false);
    let q = doc.spec_query(QueryType::FloatArray).len();
    assert forall|j: int| 0 <= j < sets.len() implies #[trigger] aggregated_sets(sets, names, completed, doc)[j]
        == aggregate_step(sets, names, threshold, doc)[j] by {
        let with_flags = doc_bits_for_counter(names, completed, doc, j as nat, q);
        if completed[j] {
            assert(with_flags =~= Set::<u64>::empty());
            assert(sets[j].union(with_flags) =~= sets[j]);
        } else {
            let without = doc_bits_for_counter(names, open_flags, doc, j as nat, q);
            assert forall|b: u64| with_flags.contains(b) implies #[trigger] without.contains(b) by {
                let c = choose|c: int| 0 <= c < q && #[trigger] column_adds(names, completed, doc, j as nat, c, b);
                assert(column_adds(names, open_flags, doc, j as nat, c, b));
            }
            assert forall|b: u64| without.contains(b) implies #[trigger] with_flags.contains(b) by {
                let c = choose|c: int| 0 <= c < q && #[trigger] column_adds(names, open_flags, doc, j as nat, c, b);
                assert(column_adds(names, completed, doc, j as nat, c, b));
            }
            assert(with_flags =~= without);
        }
    }
    assert(aggregated_sets(sets, names, completed, doc) =~= aggregate_step(sets, names, threshold, doc));
}

/// Two aggregation steps on one counter: it ends with fewer values than the
/// threshold exactly when it was not above the threshold and all the values
/// together are fewer than the threshold.
proof fn lemma_two_steps(s: Set<u64>, b1: Set<u64>, b2: Set<u64>, threshold: nat)
    requires
        s.finite(),
        b1.finite(),
        b2.finite(),
    ensures
        ({
            let a = if s.len() > threshold { s } else { s.union(b1) };
            let r = if a.len() > threshold { a } else { a.union(b2) };
            (r.len() < threshold) == (s.len() <= threshold && s.union(b1).union(b2).len() < threshold)
        }),
{
    let all = s.union(b1).union(b2);
    vstd::set_lib::lemma_len_subset(s, all);
    vstd::set_lib::lemma_len_subset(s.union(b1), all);
}

/// Whether a column holds fewer distinct values than the threshold, and so is
/// reported, does not depend on the order in which two documents are aggregated.
pub proof fn law_enum_status_order_independent(
    sets: Seq<Set<u64>>,
    names: Seq<Seq<char>>,
    threshold: nat,
    d1: Document,
    d2: Document,
    j: int,
)
    requires
        0 <= j < sets.len(),
        forall|i: int| 0 <= i < sets.len() ==> (#[trigger] sets[i]).finite(),
    ensures
        (aggregate_step(aggregate_step(sets, names, threshold, d1), names, threshold, d2)[j].len() < threshold)
            == (aggregate_step(aggregate_step(sets, names, threshold, d2), names, threshold, d1)[j].len()
            < threshold),
{
    let open_flags = Seq::new(sets.len(), |i: int| false);
    let b1 = doc_bits_for_counter(names, open_flags, d1, j as nat, d1.spec_query(QueryType::FloatArray).len());
    let b2 = doc_bits_for_counter(names, open_flags, d2, j as nat, d2.spec_query(QueryType::FloatArray).len());
    lemma_doc_bits_finite(names, open_flags, d1, j as nat, d1.spec_query(QueryType::FloatArray).len());
    lemma_doc_bits_finite(names, open_flags, d2, j as nat, d2.spec_query(QueryType::FloatArray).len());
    let s = sets[j];
    let a1 = aggregate_step(sets, names, threshold, d1);
    let a2 = aggregate_step(sets, names, threshold, d2);
    assert(a1.len() == sets.len() && a2.len() == sets.len());
    assert(a1[j] == if s.len() > threshold { s } else { s.union(b1) });
    assert(a2[j] == if s.len() > threshold { s } else { s.union(b2) });
    assert(aggregate_step(a1, names, threshold, d2)[j] == if a1[j].len() > threshold { a1[j] } else { a1[j].union(b2) });
    assert(aggregate_step(a2, names, threshold, d1)[j] == if a2[j].len() > threshold { a2[j] } else { a2[j].union(b1) });
    lemma_two_steps(s, b1, b2, threshold);
    lemma_two_steps(s, b2, b1, threshold);
    assert(s.union(b1).union(b2) =~= s.union(b2).union(b1));
}

/// The message for a column that looks like an enum.
pub open spec fn enum_lint_text(column: Seq<char>) -> Seq<char> {
    "Enum represented as floating point number at column '"@ + column + "'"@
}

/// Builds the message for a column that looks like an enum.
pub fn enum_lint_message(column: &str) -> (m: String)
    ensures
        m@ == enum_lint_text(column@),
{
    let mut m = String::new();
    m.append("Enum represented as floating point number at column '");
    m.append(column);
    m.append("'");
    m
}

/// The findings for the first `n` counters: one message for each counter that
/// holds fewer than `threshold` distinct values, as long as fewer than `max`
/// messages were collected.
pub open spec fn enum_lints(
    names: Seq<Seq<char>>,
    sets: Seq<Set<u64>>,
    threshold: nat,
    max: nat,
    n: nat,
) -> Seq<Seq<char>>
    decreases n,
{
    if n == 0 {
        Seq::empty()
    } else {
        let prev = enum_lints(names, sets, threshold, max, (n - 1) as nat);
        if sets[n - 1].len() < threshold && prev.len() < max {
            prev.push(enum_lint_text(names[n - 1]))
        } else {
            prev
        }
    }
}

/// At most `max` messages are collected.
pub proof fn law_enum_lints_capped(
    names: Seq<Seq<char>>,
    sets: Seq<Set<u64>>,
    threshold: nat,
    max: nat,
    n: nat,
)
    ensures
        enum_lints(names, sets, threshold, max, n).len() <= max,
    decreases n,
{
    if n > 0 {
        law_enum_lints_capped(names, sets, threshold, max, (n - 1) as nat);
    }
}

/// Looking at more counters only adds messages after those already collected.
proof fn lemma_enum_lints_prefix(
    names: Seq<Seq<char>>,
    sets: Seq<Set<u64>>,
    threshold: nat,
    max: nat,
    m: nat,
    n: nat,
)
    requires
        m <= n,
    ensures
        enum_lints(names, sets, threshold, max, m).len() <= enum_lints(names, sets, threshold, max, n).len(),
        enum_lints(names, sets, threshold, max, m) == enum_lints(names, sets, threshold, max, n).subrange(
            0,
            enum_lints(names, sets, threshold, max, m).len() as int,
        ),
    decreases n,
{
    if m < n {
        lemma_enum_lints_prefix(names, sets, threshold, max, m, (n - 1) as nat);
        let prev = enum_lints(names, sets, threshold, max, (n - 1) as nat);
        let small = enum_lints(names, sets, threshold, max, m);
        assert(small =~= enum_lints(names, sets, threshold, max, n).subrange(0, small.len() as int));
    } else {
        let all = enum_lints(names, sets, threshold, max, n);
        assert(all =~= all.subrange(0, all.len() as int));
    }
}

/// Every counter with fewer distinct values than the threshold is reported,
/// right after the findings of the counters before it, whatever its position,
/// as long as fewer than `max` findings came from those counters.
pub proof fn law_enum_lints_complete(
    names: Seq<Seq<char>>,
    sets: Seq<Set<u64>>,
    threshold: nat,
    max: nat,
    n: nat,
    j: int,
)
    requires
        0 <= j < n,
        sets[j].len() < threshold,
        enum_lints(names, sets, threshold, max, j as nat).len() < max,
    ensures
        enum_lints(names, sets, threshold, max, j as nat).len() < enum_lints(names, sets, threshold, max, n).len(),
        enum_lints(names, sets, threshold, max, n)[enum_lints(names, sets, threshold, max, j as nat).len() as int]
            == enum_lint_text(names[j]),
{
    lemma_enum_lints_prefix(names, sets, threshold, max, (j + 1) as nat, n);
    let before = enum_lints(names, sets, threshold, max, j as nat);
    let upto = enum_lints(names, sets, threshold, max, (j + 1) as nat);
    assert(upto == before.push(enum_lint_text(names[j])));
    assert(upto[before.len() as int] == enum_lint_text(names[j]));
    assert(enum_lints(names, sets, threshold, max, n).subrange(0, upto.len() as int)[before.len() as int]
        == enum_lint_text(names[j]));
}

/// Every finding reports a counter, among the first `n`, that holds fewer
/// distinct values than the threshold.
pub proof fn law_enum_lints_sound(
    names: Seq<Seq<char>>,
    sets: Seq<Set<u64>>,
    threshold: nat,
    max: nat,
    n: nat,
    p: int,
)
    requires
        0 <= p < enum_lints(names, sets, threshold, max, n).len(),
    ensures
        exists|j: int|
            0 <= j < n && sets[j].len() < threshold && #[trigger] enum_lint_text(names[j])
                == enum_lints(names, sets, threshold, max, n)[p],
    decreases n,
{
    let prev = enum_lints(names, sets, threshold, max, (n - 1) as nat);
    if p < prev.len() {
        law_enum_lints_sound(names, sets, threshold, max, (n - 1) as nat, p);
        let j = choose|j: int|
            0 <= j < n - 1 && sets[j].len() < threshold && #[trigger] enum_lint_text(names[j]) == prev[p];
        assert(enum_lint_text(names[j]) == enum_lints(names, sets, threshold, max, n)[p]);
    } else {
        let j = n - 1;
        assert(enum_lint_text(names[j]) == enum_lints(names, sets, threshold, max, n)[p]);
    }
}

/// The names of the floating-point fields among the first `n` fields, in order.
pub open spec fn float_field_names(fields: Seq<Field>, n: nat) -> Seq<Seq<char>>
    decreases n,
{
    if n == 0 {
        Seq::empty()
    } else {
        let prev = float_field_names(fields, (n - 1) as nat);
        if is_float_type(fields[n - 1].data_type) {
            prev.push(fields[n - 1].name@)
        } else {
            prev
        }
    }
}

/// Linter that reports floating-point columns with fewer distinct values than a threshold.
pub struct EnumAsFloatLinter {
    /// How many examples we've seen.
    nbr_exemples_seen: usize,
    /// How many positive examples must we collect, at most.
    max_number_of_positives: usize,
    /// How many different floats must be seen before treating them as if they were not enum.
    enum_categories_threshold: u16,
    /// One counter per floating-point field of the schema the linter was made for,
    /// with the field's name.
    counters: Vec<FloatCounter>,
    /// `true` means more than `enum_categories_threshold` distinct values were
    /// found for the counter at the same position, so its column can be skipped.
    completed: Vec<bool>,
    /// `true` means every column has more distinct values than the threshold:
    /// aggregating can be skipped altogether.
    all_completed: bool,
}

impl EnumAsFloatLinter {
    /// The names of the counters, one per floating-point field of the schema, in order.
    pub closed spec fn spec_names(self) -> Seq<Seq<char>> {
        self.counters@.map_values(|c: FloatCounter| c.name@)
    }

    /// The distinct values seen so far, per counter.
    pub closed spec fn spec_sets(self) -> Seq<Set<u64>> {
        self.counters@.map_values(|c: FloatCounter| c.map@)
    }

    /// Which counters are completed.
    pub closed spec fn spec_completed(self) -> Seq<bool> {
        self.completed@
    }

    /// Whether aggregating is skipped altogether.
    pub closed spec fn spec_all_completed(self) -> bool {
        self.all_completed
    }

    /// The number of distinct values from which a column is not reported.
    pub closed spec fn spec_threshold(self) -> nat {
        self.enum_categories_threshold as nat
    }

    /// How many examples the linter has seen.
    pub closed spec fn spec_seen(self) -> nat {
        self.nbr_exemples_seen as nat
    }

    /// How many findings the linter reports, at most.
    pub closed spec fn spec_max(self) -> nat {
        self.max_number_of_positives as nat
    }

    /// One completion flag per counter, and finite sets of values.
    pub open spec fn wf_shape(self) -> bool {
        &&& self.spec_completed().len() == self.spec_sets().len()
        &&& forall|j: int| 0 <= j < self.spec_sets().len() ==> (#[trigger] self.spec_sets()[j]).finite()
    }

    /// The flags are up to date: a counter is completed exactly when it holds
    /// more distinct values than the threshold, and aggregating is skipped only
    /// when every counter is completed.
    pub open spec fn wf(self) -> bool {
        &&& self.wf_shape()
        &&& forall|j: int|
            0 <= j < self.spec_sets().len() ==> #[trigger] self.spec_completed()[j] == (
            self.spec_sets()[j].len() > self.spec_threshold())
        &&& self.spec_all_completed() ==> forall|j: int|
            0 <= j < self.spec_sets().len() ==> #[trigger] self.spec_completed()[j]
    }

    /// A linter with one empty counter per floating-point field of `schema`,
    /// none completed, no example seen, reporting at most 10 columns with fewer
    /// than 10 distinct values.
    pub fn new(schema: &Vec<Field>) -> (r: Self)
        ensures
            r.wf(),
            r.spec_names() == float_field_names(schema@, schema@.len()),
            r.spec_sets() == Seq::new(r.spec_names().len(), |j: int| Set::<u64>::empty()),
            r.spec_completed() == Seq::new(r.spec_names().len(), |j: int| false),
            !r.spec_all_completed(),
            r.spec_threshold() == 10,
            r.spec_seen() == 0,
            r.spec_max() == 10,
    {
        let mut counters: Vec<FloatCounter> = Vec::new();
        let mut completed: Vec<bool> = Vec::new();
        let n = schema.len();
        for i in 0..n
            invariant
                n == schema@.len(),
                counters@.len() == completed@.len(),
                counters@.map_values(|c: FloatCounter| c.name@) == float_field_names(schema@, i as nat),
                forall|j: int| 0 <= j < counters@.len() ==> (#[trigger] counters@[j]).map@ == Set::<u64>::empty(),
                forall|j: int| 0 <= j < completed@.len() ==> !(#[trigger] completed@[j]),
        {
            let is_float = match schema[i].data_type {
                DataType::Float16 | DataType::Float32 | DataType::Float64
                | DataType::Decimal128(_, _) | DataType::Decimal256(_, _) => true,
                _ => false,
            };
            let ghost before = counters@;
            if is_float {
                let name = schema[i].name.clone();
                counters.push(FloatCounter::new(name));
                completed.push(false);
                assert(counters@.map_values(|c: FloatCounter| c.name@) =~= before.map_values(
                    |c: FloatCounter| c.name@,
                ).push(schema@[i as int].name@));
            }
        }
        let r = EnumAsFloatLinter {
            nbr_exemples_seen: 0,
            max_number_of_positives: 10,
            enum_categories_threshold: 10,
            counters,
            completed,
            all_completed: false,
        };
        assert(r.spec_sets() =~= Seq::new(r.spec_names().len(), |j: int| Set::<u64>::empty()));
        assert(r.spec_completed() =~= Seq::new(r.spec_names().len(), |j: int| false));
        r
    }

    /// The completion flag of each counter, in order.
    pub fn completed_flags(&self) -> (r: &Vec<bool>)
        ensures
            r@ == self.spec_completed(),
    {
        &self.completed
    }

    /// How many examples the linter has seen.
    pub fn nbr_exemples_seen(&self) -> (r: usize)
        ensures
            r == self.spec_seen(),
    {
        self.nbr_exemples_seen
    }

    /// Whether aggregating is skipped altogether.
    pub fn all_completed(&self) -> (r: bool)
        ensures
            r == self.spec_all_completed(),
    {
        self.all_completed
    }

    /// The position of the first counter named `field_name`.
    fn find_counter(&self, field_name: &str) -> (r: Option<usize>)
        ensures
            r matches Some(i) ==> name_position(self.spec_names(), field_name@) == Some(i as nat),
            r is None ==> name_position(self.spec_names(), field_name@) is None,
    {
        let key = String::from_str(field_name);
        let n = self.counters.len();
        for i in 0..n
            invariant
                n == self.counters@.len() == self.spec_names().len(),
                key@ == field_name@,
                first_match(self.spec_names(), field_name@, i as nat) is None,
        {
            if self.counters[i].name == key {
                assert(self.spec_names()[i as int] == field_name@);
                proof {
                    lemma_first_match_stable(self.spec_names(), field_name@, (i + 1) as nat, n as nat);
                }
                return Some(i);
            }
        }
        None
    }

    /// Whether the first counter named `field_name` is completed.
    fn column_is_completed(&self, field_name: &str) -> (r: bool)
        requires
            self.wf_shape(),
            name_position(self.spec_names(), field_name@) is Some,
        ensures
            r == self.spec_completed()[name_position(self.spec_names(), field_name@)->0 as int],
    {
        let idx = self.find_counter(field_name).unwrap();
        proof {
            lemma_first_match_stable(self.spec_names(), field_name@, self.spec_names().len(), self.spec_names().len());
        }
        self.completed[idx]
    }

    /// Records the value `float_bits` in the first counter named `field_name`.
    fn insert(&mut self, field_name: &str, float_bits: u64)
        requires
            old(self).wf_shape(),
            name_position(old(self).spec_names(), field_name@) is Some,
        ensures
            final(self).wf_shape(),
            final(self).spec_names() == old(self).spec_names(),
            final(self).spec_completed() == old(self).spec_completed(),
            final(self).spec_all_completed() == old(self).spec_all_completed(),
            final(self).spec_threshold() == old(self).spec_threshold(),
            final(self).spec_seen() == old(self).spec_seen(),
            final(self).spec_max() == old(self).spec_max(),
            ({
                let p = name_position(old(self).spec_names(), field_name@)->0 as int;
                final(self).spec_sets() == old(self).spec_sets().update(
                    p,
                    old(self).spec_sets()[p].insert(float_bits),
                )
            }),
    {
        let idx = self.find_counter(field_name).unwrap();
        proof {
            lemma_first_match_stable(self.spec_names(), field_name@, self.spec_names().len(), self.spec_names().len());
        }
        self.counters[idx].insert(float_bits);
        assert(self.spec_names() =~= old(self).spec_names());
        assert(self.spec_sets() =~= old(self).spec_sets().update(
            idx as int,
            old(self).spec_sets()[idx as int].insert(float_bits),
        ));
    }

    /// Records the values present in `entries` in the first counter named
    /// `field_name`; a column without any value needs no counter.
    fn insert_array_values(&mut self, entries: &Vec<Option<u64>>, field_name: &str)
        requires
            old(self).wf_shape(),
            (exists|i: int| 0 <= i < entries@.len() && (#[trigger] entries@[i]) is Some)
                ==> name_position(old(self).spec_names(), field_name@) is Some,
        ensures
            final(self).wf_shape(),
            final(self).spec_names() == old(self).spec_names(),
            final(self).spec_completed() == old(self).spec_completed(),
            final(self).spec_all_completed() == old(self).spec_all_completed(),
            final(self).spec_threshold() == old(self).spec_threshold(),
            final(self).spec_seen() == old(self).spec_seen(),
            final(self).spec_max() == old(self).spec_max(),
            final(self).spec_sets() == match name_position(old(self).spec_names(), field_name@) {
                Some(p) => old(self).spec_sets().update(
                    p as int,
                    old(self).spec_sets()[p as int].union(entry_bits(entries@, entries@.len())),
                ),
                None => old(self).spec_sets(),
            },
    {
        let ghost found = name_position(old(self).spec_names(), field_name@) is Some;
        let ghost p: int = if found { name_position(old(self).spec_names(), field_name@)->0 as int } else { 0 };
        proof {
            if found {
                lemma_first_match_stable(self.spec_names(), field_name@, self.spec_names().len(), self.spec_names().len());
            }
        }
        let n = entries.len();
        proof {
            if found {
                assert(old(self).spec_sets()[p].union(entry_bits(entries@, 0)) =~= old(self).spec_sets()[p]);
                assert(old(self).spec_sets().update(p, old(self).spec_sets()[p]) =~= old(self).spec_sets());
            }
        }
        for i in 0..n
            invariant
                n == entries@.len(),
                self.wf_shape(),
                found == (name_position(old(self).spec_names(), field_name@) is Some),
                found ==> 0 <= p < self.spec_sets().len(),
                found ==> name_position(self.spec_names(), field_name@) == Some(p as nat),
                (exists|i: int| 0 <= i < entries@.len() && (#[trigger] entries@[i]) is Some) ==> found,
                self.spec_names() == old(self).spec_names(),
                self.spec_completed() == old(self).spec_completed(),
                self.spec_all_completed() == old(self).spec_all_completed(),
                self.spec_threshold() == old(self).spec_threshold(),
                self.spec_seen() == old(self).spec_seen(),
                self.spec_max() == old(self).spec_max(),
                found ==> self.spec_sets() == old(self).spec_sets().update(
                    p,
                    old(self).spec_sets()[p].union(entry_bits(entries@, i as nat)),
                ),
                !found ==> self.spec_sets() == old(self).spec_sets(),
        {
            match entries[i] {
                Some(float_bits) => {
                    assert(entries@[i as int] is Some);
                    self.insert(field_name, float_bits);
                    assert(entry_bits(entries@, (i + 1) as nat) =~= entry_bits(entries@, i as nat).insert(float_bits));
                    assert(old(self).spec_sets()[p].union(entry_bits(entries@, (i + 1) as nat))
                        =~= old(self).spec_sets()[p].union(entry_bits(entries@, i as nat)).insert(float_bits));
                },
                None => {
                    assert(entry_bits(entries@, (i + 1) as nat) =~= entry_bits(entries@, i as nat));
                },
            }
            proof {
                if found {
                    assert(self.spec_sets() =~= old(self).spec_sets().update(
                        p,
                        old(self).spec_sets()[p].union(entry_bits(entries@, (i + 1) as nat)),
                    ));
                }
            }
        }
    }
}

impl AggregateLinter for EnumAsFloatLinter {
    const QUERY_TYPE: QueryType = QueryType::FloatArray;

    /// The linter is well formed and, unless aggregating is skipped, can count the
    /// examples of `doc` and has a counter for each floating-point column of `doc`.
    open spec fn ready_for(&self, doc: &Document) -> bool {
        &&& self.wf()
        &&& !self.spec_all_completed() ==> self.spec_seen() + doc.spec_query(QueryType::FloatArray).len()
            * doc.spec_batch().spec_num_rows() <= usize::MAX
        &&& !self.spec_all_completed() ==> forall|c: int|
            0 <= c < doc.spec_query(QueryType::FloatArray).len() ==> name_position(
                self.spec_names(),
                doc.spec_fields()[#[trigger] doc.spec_query(QueryType::FloatArray)[c] as int].name@,
            ) is Some
    }

    /// Records, for each floating-point column of `doc` whose counter (the first
    /// named like the column) is not completed, its values in that counter, and
    /// counts the entries of every floating-point column as examples seen.
    /// Nothing is recorded or counted when every column is completed.
    fn aggregate(&mut self, doc: &Document)
        ensures
            final(self).wf(),
            final(self).spec_names() == old(self).spec_names(),
            final(self).spec_threshold() == old(self).spec_threshold(),
            final(self).spec_seen() == if old(self).spec_all_completed() {
                old(self).spec_seen()
            } else {
                old(self).spec_seen() + doc.spec_query(QueryType::FloatArray).len()
                    * doc.spec_batch().spec_num_rows()
            },
            final(self).spec_max() == old(self).spec_max(),
            final(self).spec_sets() == aggregate_step(
                old(self).spec_sets(),
                old(self).spec_names(),
                old(self).spec_threshold(),
                *doc,
            ),
            final(self).spec_sets() == if old(self).spec_all_completed() {
                old(self).spec_sets()
            } else {
                aggregated_sets(old(self).spec_sets(), old(self).spec_names(), old(self).spec_completed(), *doc)
            },
            final(self).spec_completed() == Seq::new(
                final(self).spec_sets().len(),
                |j: int| final(self).spec_sets()[j].len() > final(self).spec_threshold(),
            ),
            final(self).spec_all_completed() == forall|j: int|
                0 <= j < final(self).spec_sets().len() ==> #[trigger] final(self).spec_completed()[j],
    {
        if self.all_completed {
            assert(self.spec_completed() =~= Seq::new(
                self.spec_sets().len(),
                |j: int| self.spec_sets()[j].len() > self.spec_threshold(),
            ));
            assert forall|j: int| 0 <= j < self.spec_sets().len() implies #[trigger] aggregate_step(
                self.spec_sets(),
                self.spec_names(),
                self.spec_threshold(),
                *doc,
            )[j] == self.spec_sets()[j] by {
                assert(self.spec_completed()[j]);
            }
            assert(self.spec_sets() =~= aggregate_step(
                self.spec_sets(),
                self.spec_names(),
                self.spec_threshold(),
                *doc,
            ));
            return;
        }
        let arrays = doc.query(QueryType::FloatArray);
        let ghost names = self.spec_names();
        let ghost completed = self.spec_completed();
        let ghost sets0 = self.spec_sets();
        let ghost queried = doc.spec_query(QueryType::FloatArray);
        let ghost seen0 = self.spec_seen();
        let ghost rows = doc.spec_batch().spec_num_rows();
        proof {
            lemma_aggregated_is_step(sets0, names, completed, self.spec_threshold(), *doc);
            assert forall|j: int| 0 <= j < sets0.len() implies #[trigger] sets0[j] == sets0[j].union(
                doc_bits_for_counter(names, completed, *doc, j as nat, 0),
            ) by {
                assert(sets0[j].union(doc_bits_for_counter(names, completed, *doc, j as nat, 0)) =~= sets0[j]);
            }
        }
        let n = arrays.len();
        for k in 0..n
            invariant
                n == arrays@.len() == queried.len(),
                queried == doc.spec_query(QueryType::FloatArray),
                self.wf_shape(),
                self.spec_names() == names,
                self.spec_completed() == completed,
                !self.spec_all_completed(),
                !old(self).spec_all_completed(),
                self.spec_threshold() == old(self).spec_threshold(),
                seen0 == old(self).spec_seen(),
                seen0 + n * rows <= usize::MAX,
                self.spec_seen() == seen0 + k * rows,
                self.spec_max() == old(self).spec_max(),
                names == old(self).spec_names(),
                completed == old(self).spec_completed(),
                sets0 == old(self).spec_sets(),
                self.spec_sets().len() == sets0.len() == names.len(),
                forall|c: int|
                    0 <= c < queried.len() ==> name_position(
                        names,
                        doc.spec_fields()[#[trigger] queried[c] as int].name@,
                    ) is Some,
                forall|j: int|
                    0 <= j < arrays@.len() ==> {
                        &&& (#[trigger] arrays@[j]).0 == queried[j]
                        &&& arrays@[j].0 < doc.spec_fields().len()
                        &&& *arrays@[j].1 == doc.spec_columns()[arrays@[j].0 as int]
                        &&& crate::document::is_float_type(doc.spec_fields()[arrays@[j].0 as int].data_type)
                        &&& crate::document::values_match_type(*arrays@[j].1, doc.spec_fields()[arrays@[j].0 as int].data_type)
                        &&& arrays@[j].1.spec_len() == rows
                    },
                forall|j: int|
                    0 <= j < sets0.len() ==> #[trigger] self.spec_sets()[j] == sets0[j].union(
                        doc_bits_for_counter(names, completed, *doc, j as nat, k as nat),
                    ),
        {
            let (idx_field, arr) = arrays[k];
            let field_name = doc.field_name_by_idx(idx_field);
            proof {
                assert(seen0 + (k + 1) * rows <= seen0 + n * rows) by (nonlinear_arith)
                    requires
                        k + 1 <= n;
                assert(seen0 + (k + 1) * rows == seen0 + k * rows + rows) by (nonlinear_arith);
            }
            self.nbr_exemples_seen = self.nbr_exemples_seen + arr.len();
            let ghost pos = name_position(names, field_name@)->0 as int;
            proof {
                assert(name_position(names, doc.spec_fields()[queried[k as int] as int].name@) is Some);
                lemma_first_match_stable(names, field_name@, names.len(), names.len());
            }
            let ghost before = self.spec_sets();
            if self.column_is_completed(field_name) {
                proof {
                    assert forall|j: int| 0 <= j < sets0.len() implies #[trigger] self.spec_sets()[j]
                        == sets0[j].union(doc_bits_for_counter(names, completed, *doc, j as nat, (k + 1) as nat)) by {
                        assert(doc_bits_for_counter(names, completed, *doc, j as nat, (k + 1) as nat)
                            =~= doc_bits_for_counter(names, completed, *doc, j as nat, k as nat));
                    }
                }
            } else {
                match arr {
                    ColumnValues::Floats(entries) => {
                        self.insert_array_values(entries, field_name);
                        proof {
                            assert forall|j: int| 0 <= j < sets0.len() implies #[trigger] self.spec_sets()[j]
                                == sets0[j].union(doc_bits_for_counter(names, completed, *doc, j as nat, (k + 1) as nat)) by {
                                if j == pos {
                                    assert(float_entries(doc.spec_columns()[queried[k as int] as int]) == entries@);
                                    assert forall|b: u64| #[trigger] entry_bits(entries@, entries@.len()).contains(b)
                                        implies column_adds(names, completed, *doc, j as nat, k as int, b) by {
                                        let i = choose|i: int| 0 <= i < entries@.len() && entries@[i] == Some(b);
                                        assert(entries@.contains(Some(b)));
                                    }
                                    assert forall|b: u64| column_adds(names, completed, *doc, j as nat, k as int, b)
                                        implies #[trigger] entry_bits(entries@, entries@.len()).contains(b) by {
                                        let i = choose|i: int| 0 <= i < entries@.len() && entries@[i] == Some(b);
                                    }
                                    assert(doc_bits_for_counter(names, completed, *doc, j as nat, (k + 1) as nat)
                                        =~= doc_bits_for_counter(names, completed, *doc, j as nat, k as nat).union(
                                            entry_bits(entries@, entries@.len())));
                                    assert(self.spec_sets()[j] =~= sets0[j].union(doc_bits_for_counter(names, completed, *doc, j as nat, (k + 1) as nat)));
                                } else {
                                    assert(doc_bits_for_counter(names, completed, *doc, j as nat, (k + 1) as nat)
                                        =~= doc_bits_for_counter(names, completed, *doc, j as nat, k as nat));
                                }
                            }
                        }
                    },
                    _ => {
                        assert(false);
                    },
                }
            }
        }
        assert(self.spec_sets() =~= aggregated_sets(sets0, names, completed, *doc));
        let ghost sets1 = self.spec_sets();
        let threshold = self.enum_categories_threshold as usize;
        let m = self.counters.len();
        let mut all = true;
        for j in 0..m
            invariant
                m == self.counters@.len() == self.spec_sets().len(),
                self.spec_sets() == sets1,
                self.wf_shape(),
                self.spec_names() == names,
                names.len() == m,
                !self.spec_all_completed(),
                threshold == self.spec_threshold(),
                self.spec_threshold() == old(self).spec_threshold(),
                self.spec_seen() == seen0 + n * rows,
                self.spec_max() == old(self).spec_max(),
                forall|i: int| 0 <= i < j ==> #[trigger] self.spec_completed()[i] == (sets1[i].len() > threshold),
                all == forall|i: int| 0 <= i < j ==> #[trigger] self.spec_completed()[i],
        {
            let done = self.counters[j].len() > threshold;
            let ghost before = self.spec_completed();
            self.completed.set(j, done);
            proof {
                assert(self.spec_completed() == before.update(j as int, done));
                if all && done {
                    assert forall|i: int| 0 <= i < j + 1 implies #[trigger] self.spec_completed()[i] by {
                        if i < j {
                            assert(before[i]);
                        }
                    }
                } else if !done {
                    assert(!self.spec_completed()[j as int]);
                } else {
                    let w = choose|i: int| 0 <= i < j && !#[trigger] before[i];
                    assert(!self.spec_completed()[w]);
                }
            }
            all = all && done;
        }
        self.all_completed = all;
        assert(self.spec_completed() =~= Seq::new(
            self.spec_sets().len(),
            |j: int| self.spec_sets()[j].len() > self.spec_threshold(),
        ));
    }

    /// Lints: each counter, in schema order, with fewer distinct values than the
    /// threshold is reported, up to `max_number_of_positives` reports. `None` when
    /// no counter is.
    fn lint(self) -> (r: Option<Lints>)
        ensures
            lints_result(
                r,
                enum_lints(
                    self.spec_names(),
                    self.spec_sets(),
                    self.spec_threshold(),
                    self.spec_max(),
                    self.spec_names().len(),
                ),
            ),
    {
        let mut lints = Lints::new();
        let threshold = self.enum_categories_threshold as usize;
        let n = self.counters.len();
        for i in 0..n
            invariant
                n == self.counters@.len(),
                threshold == self.spec_threshold(),
                lints@ == enum_lints(
                    self.spec_names(),
                    self.spec_sets(),
                    self.spec_threshold(),
                    self.spec_max(),
                    i as nat,
                ),
        {
            let counter = &self.counters[i];
            if counter.len() < threshold && lints.len() < self.max_number_of_positives {
                let lint = enum_lint_message(counter.name.as_str());
                lints.push(lint);
            }
        }
        into_result(lints)
    }

}

} // verus!
