//! Detection of numbers encoded as strings.

use vstd::prelude::*;

use crate::document::{string_entries, ColumnValues, Document, QueryType, Queryable};
use crate::lints::{into_result, lints_result, Lints, StreamingLinter};
use crate::text::{decimal, push_decimal};

verus! {

/// The pattern of a string that holds a number: digits, dots and commas only.
pub const NUMBER_PATTERN: &'static str = "^[0-9\\.\\,]+$";

/// Whether a character may appear in a number written as a string: an ASCII
/// digit, a dot or a comma.
pub open spec fn is_number_char(c: char) -> bool {
    ('0' <= c && c <= '9') || c == '.' || c == ','
}

/// Whether a string matches `NUMBER_PATTERN`: it is not empty and all its
/// characters are digits, dots or commas.
pub open spec fn is_number_text(s: Seq<char>) -> bool {
    &&& s.len() > 0
    &&& forall|i: int| 0 <= i < s.len() ==> is_number_char(#[trigger] s[i])
}

/// The regular-expression type of the `regex` crate.
#[verifier::external_type_specification]
#[verifier::external_body]
pub struct ExRegex(regex::Regex);

/// A compiled regular expression, with the text it was compiled from. Only
/// `compile_pattern` makes one.
#[derive(Debug)]
pub struct CompiledPattern {
    source: String,
    regex: regex::Regex,
}

impl CompiledPattern {
    /// The text the expression was compiled from.
    pub closed spec fn spec_source(self) -> Seq<char> {
        self.source@
    }
}

/// Compiles `pattern` with `regex::Regex::new` and keeps it with its text.
/// The contract claims that the text kept is `pattern`, and that compiling
/// `NUMBER_PATTERN` succeeds: it is a valid expression, far below the size limit,
/// and `Regex::new` fails only on invalid or oversized expressions.
#[verifier::external_body]
fn compile_pattern(pattern: &str) -> (r: Option<CompiledPattern>)
    ensures
        r matches Some(c) ==> c.spec_source() == pattern@,
        pattern@ == NUMBER_PATTERN@ ==> r is Some,
{
    match regex::Regex::new(pattern) {
        Ok(regex) => Some(CompiledPattern { source: pattern.to_string(), regex }),
        Err(_) => None,
    }
}

/// Tests `haystack` with `regex::Regex::is_match` against an expression compiled
/// from `NUMBER_PATTERN`. The contract claims what the `regex` documentation
/// gives for that expression: `^` and `$` anchor it at the start and the end of
/// the text, `[0-9\.\,]` is one ASCII digit, dot or comma, and `+` asks for at
/// least one, so the text matches exactly when it is non-empty and made of these
/// characters only.
#[verifier::external_body]
fn number_pattern_is_match(compiled: &CompiledPattern, haystack: &str) -> (r: bool)
    requires
        compiled.spec_source() == NUMBER_PATTERN@,
    ensures
        r == is_number_text(haystack@),
{
    compiled.regex.is_match(haystack)
}

/// The message for a number found as a string.
pub open spec fn number_lint_text(value: Seq<char>, example_index: nat, column: Seq<char>) -> Seq<char> {
    "Number represented as string ("@ + value + ") at example index "@ + decimal(example_index)
        + " and at column '"@ + column + "'"@
}

/// Builds the message for a number found as a string.
pub fn number_lint_message(value: &str, example_index: usize, column: &str) -> (m: String)
    ensures
        m@ == number_lint_text(value@, example_index as nat, column@),
{
    let mut m = String::new();
    m.append("Number represented as string (");
    m.append(value);
    m.append(") at example index ");
    push_decimal(&mut m, example_index);
    m.append(" and at column '");
    m.append(column);
    m.append("'");
    assert(m@ =~= number_lint_text(value@, example_index as nat, column@));
    m
}

/// The finding for an entry holding `value`, at `example_index` in `column`,
/// given whether it matched the pattern: a message when it did.
pub fn number_finding(
    matched: bool,
    value: &str,
    example_index: usize,
    column: &str,
) -> (r: Option<String>)
    ensures
        match r {
            Some(m) => matched && m@ == number_lint_text(value@, example_index as nat, column@),
            None => !matched,
        },
{
    if matched {
        Some(number_lint_message(value, example_index, column))
    } else {
        None
    }
}

/// Whether an entry of a string column holds a number: it is present and its
/// text is a number.
pub open spec fn entry_is_number(entry: Option<String>) -> bool {
    entry is Some && is_number_text(entry->0@)
}

/// The messages for the first `n` entries of a string column named `column`,
/// whose first entry has the example index `base`: one for each entry that holds
/// a number, as long as fewer than `limit` messages were made.
pub open spec fn column_number_lints(
    entries: Seq<Option<String>>,
    n: nat,
    base: nat,
    column: Seq<char>,
    limit: nat,
) -> Seq<Seq<char>>
    decreases n,
{
    if n == 0 {
        Seq::empty()
    } else {
        let prev = column_number_lints(entries, (n - 1) as nat, base, column, limit);
        if entry_is_number(entries[n - 1]) && prev.len() < limit {
            prev.push(number_lint_text(entries[n - 1]->0@, (base + n - 1) as nat, column))
        } else {
            prev
        }
    }
}

/// The findings and the count of examples seen after the linter has gone through
/// the first `k` string columns of `doc`, starting with no finding and `seen`
/// examples seen. A column is only gone through while fewer than `max` findings
/// were collected, and within a column no finding is added once there are `max`.
pub open spec fn number_lints_after(max: nat, seen: nat, doc: Document, k: nat) -> (
    Seq<Seq<char>>,
    nat,
)
    decreases k,
{
    if k == 0 {
        (Seq::empty(), seen)
    } else {
        let (found, seen_before) = number_lints_after(max, seen, doc, (k - 1) as nat);
        if found.len() >= max {
            (found, seen_before)
        } else {
            let f = doc.spec_query(QueryType::StringArray)[k - 1];
            let col = doc.spec_columns()[f as int];
            let entries = string_entries(col);
            (
                found + column_number_lints(
                    entries,
                    entries.len(),
                    seen_before,
                    doc.spec_fields()[f as int].name@,
                    (max - found.len()) as nat,
                ),
                seen_before + col.spec_len(),
            )
        }
    }
}

/// Once `max` findings were collected, going through further columns changes nothing.
pub proof fn lemma_number_lints_stable(max: nat, seen: nat, doc: Document, k: nat, k2: nat)
    requires
        k <= k2,
        k < k2 ==> number_lints_after(max, seen, doc, k).0.len() >= max,
    ensures
        number_lints_after(max, seen, doc, k2) == number_lints_after(max, seen, doc, k),
    decreases k2 - k,
{
    if k < k2 {
        lemma_number_lints_stable(max, seen, doc, k, (k2 - 1) as nat);
    }
}

/// A column yields at most `limit` messages.
pub proof fn lemma_column_number_lints_len(
    entries: Seq<Option<String>>,
    n: nat,
    base: nat,
    column: Seq<char>,
    limit: nat,
)
    ensures
        column_number_lints(entries, n, base, column, limit).len() <= limit,
    decreases n,
{
    if n > 0 {
        lemma_column_number_lints_len(entries, (n - 1) as nat, base, column, limit);
    }
}

/// Going through more entries only adds messages after those already made.
proof fn lemma_column_number_lints_prefix(
    entries: Seq<Option<String>>,
    m: nat,
    n: nat,
    base: nat,
    column: Seq<char>,
    limit: nat,
)
    requires
        m <= n,
    ensures
        column_number_lints(entries, m, base, column, limit).len() <= column_number_lints(
            entries,
            n,
            base,
            column,
            limit,
        ).len(),
        column_number_lints(entries, m, base, column, limit) == column_number_lints(
            entries,
            n,
            base,
            column,
            limit,
        ).subrange(0, column_number_lints(entries, m, base, column, limit).len() as int),
    decreases n,
{
    let small = column_number_lints(entries, m, base, column, limit);
    if m < n {
        lemma_column_number_lints_prefix(entries, m, (n - 1) as nat, base, column, limit);
        assert(small =~= column_number_lints(entries, n, base, column, limit).subrange(0, small.len() as int));
    } else {
        assert(small =~= small.subrange(0, small.len() as int));
    }
}

/// Every present entry that is a number (not empty, only ASCII digits, dots
/// and commas) gets its message, with its example index, right after the
/// messages of the entries before it, as long as fewer than `limit` messages
/// came from those entries.
pub proof fn law_column_number_lints_complete(
    entries: Seq<Option<String>>,
    n: nat,
    base: nat,
    column: Seq<char>,
    limit: nat,
    i: int,
)
    requires
        0 <= i < n,
        entries[i] is Some,
        is_number_text(entries[i]->0@),
        column_number_lints(entries, i as nat, base, column, limit).len() < limit,
    ensures
        column_number_lints(entries, i as nat, base, column, limit).len() < column_number_lints(
            entries,
            n,
            base,
            column,
            limit,
        ).len(),
        column_number_lints(entries, n, base, column, limit)[column_number_lints(
            entries,
            i as nat,
            base,
            column,
            limit,
        ).len() as int] == number_lint_text(entries[i]->0@, (base + i) as nat, column),
{
    lemma_column_number_lints_prefix(entries, (i + 1) as nat, n, base, column, limit);
    let before = column_number_lints(entries, i as nat, base, column, limit);
    let upto = column_number_lints(entries, (i + 1) as nat, base, column, limit);
    let text = number_lint_text(entries[i]->0@, (base + i) as nat, column);
    assert(upto == before.push(text));
    assert(upto[before.len() as int] == text);
    assert(column_number_lints(entries, n, base, column, limit).subrange(0, upto.len() as int)[before.len() as int]
        == text);
}

/// Every message reports a present entry, among the first `n`, that is a
/// number, with its example index.
pub proof fn law_column_number_lints_sound(
    entries: Seq<Option<String>>,
    n: nat,
    base: nat,
    column: Seq<char>,
    limit: nat,
    p: int,
)
    requires
        0 <= p < column_number_lints(entries, n, base, column, limit).len(),
    ensures
        exists|i: int|
            0 <= i < n && entries[i] is Some && is_number_text(entries[i]->0@) && #[trigger] number_lint_text(
                entries[i]->0@,
                (base + i) as nat,
                column,
            ) == column_number_lints(entries, n, base, column, limit)[p],
    decreases n,
{
    let prev = column_number_lints(entries, (n - 1) as nat, base, column, limit);
    if p < prev.len() {
        law_column_number_lints_sound(entries, (n - 1) as nat, base, column, limit, p);
        let i = choose|i: int|
            0 <= i < n - 1 && entries[i] is Some && is_number_text(entries[i]->0@) && #[trigger] number_lint_text(
                entries[i]->0@,
                (base + i) as nat,
                column,
            ) == prev[p];
        assert(number_lint_text(entries[i]->0@, (base + i) as nat, column)
            == column_number_lints(entries, n, base, column, limit)[p]);
    } else {
        let i = n - 1;
        assert(number_lint_text(entries[i]->0@, (base + i) as nat, column)
            == column_number_lints(entries, n, base, column, limit)[p]);
    }
}

/// The linter collects at most `max` findings.
pub proof fn law_number_lints_capped(max: nat, seen: nat, doc: Document, k: nat)
    ensures
        number_lints_after(max, seen, doc, k).0.len() <= max,
    decreases k,
{
    if k > 0 {
        law_number_lints_capped(max, seen, doc, (k - 1) as nat);
        let (found, seen_before) = number_lints_after(max, seen, doc, (k - 1) as nat);
        if found.len() < max {
            let f = doc.spec_query(QueryType::StringArray)[k - 1];
            let entries = string_entries(doc.spec_columns()[f as int]);
            lemma_column_number_lints_len(
                entries,
                entries.len(),
                seen_before,
                doc.spec_fields()[f as int].name@,
                (max - found.len()) as nat,
            );
        }
    }
}

/// Linter that reports strings that hold numbers.
pub struct NumberAsStringLinter {
    /// How many examples we've seen.
    nbr_exemples_seen: usize,
    /// The compiled pattern that an entry holding a number matches.
    regex: CompiledPattern,
    /// How many positive matches must we collect, at most.
    max_number_of_positives: usize,
}

impl Default for NumberAsStringLinter {
    fn default() -> (r: Self)
        ensures
            r.spec_seen() == 0,
            r.spec_max() == 10,
    {
        NumberAsStringLinter {
            nbr_exemples_seen: 0,
            regex: compile_pattern(NUMBER_PATTERN).unwrap(),
            max_number_of_positives: 10,
        }
    }
}

impl NumberAsStringLinter {
    #[verifier::type_invariant]
    spec fn inv(self) -> bool {
        self.regex.spec_source() == NUMBER_PATTERN@
    }

    /// How many examples the linter has seen.
    pub closed spec fn spec_seen(self) -> nat {
        self.nbr_exemples_seen as nat
    }

    /// How many findings the linter collects, at most.
    pub closed spec fn spec_max(self) -> nat {
        self.max_number_of_positives as nat
    }

    /// Appends to `lints` a message for each entry of a string column that holds
    /// a number, as long as `lints` holds fewer than `max_number_of_positives`;
    /// the column's first entry has the example index `nbr_exemples_seen`.
    fn compute_matches_and_add_to_lints(
        &self,
        entries: &Vec<Option<String>>,
        lints: &mut Lints,
        field_name: &str,
    )
        requires
            self.spec_seen() + entries@.len() <= usize::MAX,
            old(lints)@.len() <= self.spec_max(),
        ensures
            final(lints)@ == old(lints)@ + column_number_lints(
                entries@,
                entries@.len(),
                self.spec_seen(),
                field_name@,
                (self.spec_max() - old(lints)@.len()) as nat,
            ),
    {
        proof {
            use_type_invariant(self);
        }
        let ghost limit = (self.spec_max() - old(lints)@.len()) as nat;
        let n = entries.len();
        for value_idx in 0..n
            invariant
                n == entries@.len(),
                self.spec_seen() + n <= usize::MAX,
                self.regex.spec_source() == NUMBER_PATTERN@,
                old(lints)@.len() <= self.spec_max(),
                limit == self.spec_max() - old(lints)@.len(),
                lints@ == old(lints)@ + column_number_lints(
                    entries@,
                    value_idx as nat,
                    self.spec_seen(),
                    field_name@,
                    limit,
                ),
        {
            if lints.len() < self.max_number_of_positives {
                match &entries[value_idx] {
                    Some(value) => {
                        let matched = number_pattern_is_match(&self.regex, value.as_str());
                        match number_finding(
                            matched,
                            value.as_str(),
                            value_idx + self.nbr_exemples_seen,
                            field_name,
                        ) {
                            Some(lint_exemple) => lints.push(lint_exemple),
                            None => {},
                        }
                    },
                    None => {},
                }
            }
            assert(lints@ =~= old(lints)@ + column_number_lints(
                entries@,
                (value_idx + 1) as nat,
                self.spec_seen(),
                field_name@,
                limit,
            ));
        }
    }

    /// Goes through the string columns of `doc` in schema order and reports each
    /// entry that holds a number, until `max_number_of_positives` findings were
    /// collected. `None` when nothing was found.
    fn lint_inner(&mut self, doc: &Document) -> (r: Option<Lints>)
        requires
            old(self).spec_seen() + doc.spec_query(QueryType::StringArray).len()
                * doc.spec_batch().spec_num_rows() <= usize::MAX,
        ensures
            ({
                let (found, seen) = number_lints_after(
                    old(self).spec_max(),
                    old(self).spec_seen(),
                    *doc,
                    doc.spec_query(QueryType::StringArray).len(),
                );
                &&& lints_result(r, found)
                &&& final(self).spec_seen() == seen
            }),
            final(self).spec_max() == old(self).spec_max(),
    {
        proof {
            use_type_invariant(&*self);
        }
        let arrays = doc.query(QueryType::StringArray);
        let mut lints = Lints::new();
        let ghost max = self.spec_max();
        let ghost seen0 = self.spec_seen();
        let ghost rows = doc.spec_batch().spec_num_rows();
        let ghost ncols = doc.spec_query(QueryType::StringArray).len();
        let mut k: usize = 0;
        while k < arrays.len() && lints.len() < self.max_number_of_positives
            invariant
                k <= arrays@.len() == ncols,
                self.spec_max() == max,
                self.regex.spec_source() == NUMBER_PATTERN@,
                seen0 + ncols * rows <= usize::MAX,
                self.spec_seen() <= seen0 + k * rows,
                forall|j: int|
                    0 <= j < arrays@.len() ==> {
                        &&& (#[trigger] arrays@[j]).0 == doc.spec_query(QueryType::StringArray)[j]
                        &&& arrays@[j].0 < doc.spec_fields().len()
                        &&& *arrays@[j].1 == doc.spec_columns()[arrays@[j].0 as int]
                        &&& crate::document::is_string_type(doc.spec_fields()[arrays@[j].0 as int].data_type)
                        &&& crate::document::values_match_type(*arrays@[j].1, doc.spec_fields()[arrays@[j].0 as int].data_type)
                        &&& arrays@[j].1.spec_len() == rows
                    },
                (lints@, self.spec_seen()) == number_lints_after(max, seen0, *doc, k as nat),
            decreases arrays@.len() - k,
        {
            let (field_idx, arr) = arrays[k];
            let field_name = doc.field_name_by_idx(field_idx);
            let array_len = arr.len();
            proof {
                assert(seen0 + (k + 1) * rows <= seen0 + ncols * rows) by (nonlinear_arith)
                    requires
                        k + 1 <= ncols;
                assert(seen0 + (k + 1) * rows == seen0 + k * rows + rows) by (nonlinear_arith);
            }
            match arr {
                ColumnValues::Strings(entries) => {
                    self.compute_matches_and_add_to_lints(entries, &mut lints, field_name);
                },
                _ => {
                    assert(false);
                },
            }
            self.nbr_exemples_seen = self.nbr_exemples_seen + array_len;
            k = k + 1;
        }
        proof {
            lemma_number_lints_stable(max, seen0, *doc, k as nat, ncols);
        }
        into_result(lints)
    }

    /// How many positive matches the linter collects, at most.
    pub fn max_number_of_positives(&self) -> (r: usize)
        ensures
            r == self.spec_max(),
    {
        self.max_number_of_positives
    }

    /// How many examples the linter has seen.
    pub fn nbr_exemples_seen(&self) -> (r: usize)
        ensures
            r == self.spec_seen(),
    {
        self.nbr_exemples_seen
    }
}

impl StreamingLinter for NumberAsStringLinter {
    /// The examples seen so far and in `doc` can be counted.
    open spec fn ready_for(&self, doc: &Document) -> bool {
        self.spec_seen() + doc.spec_query(QueryType::StringArray).len()
            * doc.spec_batch().spec_num_rows() <= usize::MAX
    }

    /// Reports the entries of the string columns of `doc` that hold numbers
    /// (see `lint_inner`).
    fn lint(&mut self, doc: &Document) -> (r: Option<Lints>)
        ensures
            ({
                let (found, seen) = number_lints_after(
                    old(self).spec_max(),
                    old(self).spec_seen(),
                    *doc,
                    doc.spec_query(QueryType::StringArray).len(),
                );
                &&& lints_result(r, found)
                &&& final(self).spec_seen() == seen
            }),
            final(self).spec_max() == old(self).spec_max(),
    {
        self.lint_inner(doc)
    }
}

} // verus!
