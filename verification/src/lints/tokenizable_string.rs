//! Detection of columns with many long strings, likely free text to tokenize.

use vstd::prelude::*;

use crate::document::{string_entries, ColumnValues, Document, FieldIdx, QueryType, Queryable};
use crate::lints::{into_result, lints_result, Lints, StreamingLinter};
use crate::text::{decimal, push_decimal};

verus! {

/// The length in bytes of the UTF-8 encoding of a string, as `str::len` reports it.
pub open spec fn byte_len(s: Seq<char>) -> nat {
    (vstd::utf8::encode_utf8(s).len() as usize) as nat
}

/// Whether the pairs name each field at most once.
pub open spec fn fields_distinct(counts: Seq<(FieldIdx, usize)>) -> bool {
    forall|i: int, j: int|
        0 <= i < j < counts.len() ==> (#[trigger] counts[i]).0 != (#[trigger] counts[j]).0
}

/// Whether some pair names `field`.
pub open spec fn has_field(counts: Seq<(FieldIdx, usize)>, field: FieldIdx) -> bool {
    exists|i: int| 0 <= i < counts.len() && (#[trigger] counts[i]).0 == field
}

/// The position of the pair that names `field` (meaningful when there is one).
pub open spec fn field_position(counts: Seq<(FieldIdx, usize)>, field: FieldIdx) -> int {
    choose|i: int| 0 <= i < counts.len() && (#[trigger] counts[i]).0 == field
}

/// The count recorded for `field`: zero when no pair names it.
pub open spec fn count_of(counts: Seq<(FieldIdx, usize)>, field: FieldIdx) -> nat {
    if has_field(counts, field) {
        counts[field_position(counts, field)].1 as nat
    } else {
        0
    }
}

/// The pairs after one more example of `field`: its count goes up by one, or a
/// pair `(field, 1)` is appended when there was none.
pub open spec fn incremented(counts: Seq<(FieldIdx, usize)>, field: FieldIdx) -> Seq<(FieldIdx, usize)> {
    if has_field(counts, field) {
        let i = field_position(counts, field);
        counts.update(i, (field, (counts[i].1 + 1) as usize))
    } else {
        counts.push((field, 1usize))
    }
}

/// The pairs after going through the first `n` entries of the string column
/// `field`, counting each entry of at least `min_len` bytes.
pub open spec fn counted_entries(
    counts: Seq<(FieldIdx, usize)>,
    entries: Seq<Option<String>>,
    n: nat,
    field: FieldIdx,
    min_len: nat,
) -> Seq<(FieldIdx, usize)>
    decreases n,
{
    if n == 0 {
        counts
    } else {
        let prev = counted_entries(counts, entries, (n - 1) as nat, field, min_len);
        if entries[n - 1] is Some && byte_len(entries[n - 1]->0@) >= min_len {
            incremented(prev, field)
        } else {
            prev
        }
    }
}

/// The number of the first `n` entries that are present and at least `min_len` bytes long.
pub open spec fn long_entries(entries: Seq<Option<String>>, n: nat, min_len: nat) -> nat
    decreases n,
{
    if n == 0 {
        0
    } else {
        long_entries(entries, (n - 1) as nat, min_len) + if entries[n - 1] is Some && byte_len(
            entries[n - 1]->0@,
        ) >= min_len {
            1nat
        } else {
            0nat
        }
    }
}

/// The pairs after going through the first `k` string columns of `doc`.
pub open spec fn counted_columns(
    counts: Seq<(FieldIdx, usize)>,
    doc: Document,
    k: nat,
    min_len: nat,
) -> Seq<(FieldIdx, usize)>
    decreases k,
{
    if k == 0 {
        counts
    } else {
        let prev = counted_columns(counts, doc, (k - 1) as nat, min_len);
        let f = doc.spec_query(QueryType::StringArray)[k - 1];
        let entries = string_entries(doc.spec_columns()[f as int]);
        counted_entries(prev, entries, entries.len(), f, min_len)
    }
}

/// The message for a column with many long strings.
pub open spec fn tokenizable_lint_text(column: Seq<char>, min_count: nat, min_len: nat) -> Seq<char> {
    "A feature (column "@ + column + ") has very long strings ("@ + decimal(min_count)
        + " strings over "@ + decimal(min_len) + " byte) that are likely all unique."@
}

/// Builds the message for a column with many long strings.
pub fn tokenizable_lint_message(column: &str, min_count: usize, min_len: usize) -> (m: String)
    ensures
        m@ == tokenizable_lint_text(column@, min_count as nat, min_len as nat),
{
    let mut m = String::new();
    m.append("A feature (column ");
    m.append(column);
    m.append(") has very long strings (");
    push_decimal(&mut m, min_count);
    m.append(" strings over ");
    push_decimal(&mut m, min_len);
    m.append(" byte) that are likely all unique.");
    assert(m@ =~= tokenizable_lint_text(column@, min_count as nat, min_len as nat));
    m
}

/// The findings for the first `k` string columns of `doc`: one message for each
/// column whose count has reached `min_count`.
pub open spec fn tokenizable_lints(
    counts: Seq<(FieldIdx, usize)>,
    doc: Document,
    k: nat,
    min_count: nat,
    min_len: nat,
) -> Seq<Seq<char>>
    decreases k,
{
    if k == 0 {
        Seq::empty()
    } else {
        let prev = tokenizable_lints(counts, doc, (k - 1) as nat, min_count, min_len);
        let f = doc.spec_query(QueryType::StringArray)[k - 1];
        if count_of(counts, f) >= min_count {
            prev.push(tokenizable_lint_text(doc.spec_fields()[f as int].name@, min_count, min_len))
        } else {
            prev
        }
    }
}

/// Looking at more columns only adds messages after those already made.
proof fn lemma_tokenizable_lints_prefix(
    counts: Seq<(FieldIdx, usize)>,
    doc: Document,
    m: nat,
    k: nat,
    min_count: nat,
    min_len: nat,
)
    requires
        m <= k,
    ensures
        tokenizable_lints(counts, doc, m, min_count, min_len).len() <= tokenizable_lints(
            counts,
            doc,
            k,
            min_count,
            min_len,
        ).len(),
        tokenizable_lints(counts, doc, m, min_count, min_len) == tokenizable_lints(
            counts,
            doc,
            k,
            min_count,
            min_len,
        ).subrange(0, tokenizable_lints(counts, doc, m, min_count, min_len).len() as int),
    decreases k,
{
    let small = tokenizable_lints(counts, doc, m, min_count, min_len);
    if m < k {
        lemma_tokenizable_lints_prefix(counts, doc, m, (k - 1) as nat, min_count, min_len);
        assert(small =~= tokenizable_lints(counts, doc, k, min_count, min_len).subrange(0, small.len() as int));
    } else {
        assert(small =~= small.subrange(0, small.len() as int));
    }
}

/// Each of the first `k` string columns whose count, kept under the column's
/// own field index, has reached `min_count` is reported under its name.
pub proof fn law_tokenizable_lints_complete(
    counts: Seq<(FieldIdx, usize)>,
    doc: Document,
    k: nat,
    min_count: nat,
    min_len: nat,
    c: int,
)
    requires
        0 <= c < k,
        count_of(counts, doc.spec_query(QueryType::StringArray)[c]) >= min_count,
    ensures
        tokenizable_lints(counts, doc, k, min_count, min_len).contains(
            tokenizable_lint_text(
                doc.spec_fields()[doc.spec_query(QueryType::StringArray)[c] as int].name@,
                min_count,
                min_len,
            ),
        ),
{
    lemma_tokenizable_lints_prefix(counts, doc, (c + 1) as nat, k, min_count, min_len);
    let before = tokenizable_lints(counts, doc, c as nat, min_count, min_len);
    let upto = tokenizable_lints(counts, doc, (c + 1) as nat, min_count, min_len);
    let text = tokenizable_lint_text(
        doc.spec_fields()[doc.spec_query(QueryType::StringArray)[c] as int].name@,
        min_count,
        min_len,
    );
    assert(upto == before.push(text));
    assert(tokenizable_lints(counts, doc, k, min_count, min_len)[before.len() as int] == upto[before.len() as int]);
}

/// Every message reports, under its name, one of the first `k` string columns
/// whose count, kept under the column's own field index, has reached `min_count`.
pub proof fn law_tokenizable_lints_sound(
    counts: Seq<(FieldIdx, usize)>,
    doc: Document,
    k: nat,
    min_count: nat,
    min_len: nat,
    p: int,
)
    requires
        0 <= p < tokenizable_lints(counts, doc, k, min_count, min_len).len(),
    ensures
        exists|c: int|
            0 <= c < k && count_of(counts, doc.spec_query(QueryType::StringArray)[c]) >= min_count
                && #[trigger] tokenizable_lint_text(
                doc.spec_fields()[doc.spec_query(QueryType::StringArray)[c] as int].name@,
                min_count,
                min_len,
            ) == tokenizable_lints(counts, doc, k, min_count, min_len)[p],
    decreases k,
{
    let prev = tokenizable_lints(counts, doc, (k - 1) as nat, min_count, min_len);
    let q = doc.spec_query(QueryType::StringArray);
    if p < prev.len() {
        law_tokenizable_lints_sound(counts, doc, (k - 1) as nat, min_count, min_len, p);
        let c = choose|c: int|
            0 <= c < k - 1 && count_of(counts, q[c]) >= min_count && #[trigger] tokenizable_lint_text(
                doc.spec_fields()[q[c] as int].name@,
                min_count,
                min_len,
            ) == prev[p];
        assert(tokenizable_lint_text(doc.spec_fields()[q[c] as int].name@, min_count, min_len)
            == tokenizable_lints(counts, doc, k, min_count, min_len)[p]);
    } else {
        let c = k - 1;
        assert(tokenizable_lint_text(doc.spec_fields()[q[c] as int].name@, min_count, min_len)
            == tokenizable_lints(counts, doc, k, min_count, min_len)[p]);
    }
}

/// Counting one more example of `field` adds one to its count and leaves the
/// count of every other field as it was; the fields stay distinct.
pub proof fn lemma_incremented_counts(counts: Seq<(FieldIdx, usize)>, field: FieldIdx, other: FieldIdx)
    requires
        fields_distinct(counts),
        count_of(counts, field) < usize::MAX,
    ensures
        fields_distinct(incremented(counts, field)),
        count_of(incremented(counts, field), other) == count_of(counts, other) + if other == field {
            1nat
        } else {
            0nat
        },
{
    let next = incremented(counts, field);
    if has_field(counts, field) {
        let p = field_position(counts, field);
        assert(next[p].0 == field);
        if other == field {
            assert(has_field(next, other));
            let q = field_position(next, other);
            assert(q == p);
        } else {
            if has_field(counts, other) {
                let q = field_position(counts, other);
                assert(next[q].0 == other);
                assert(has_field(next, other));
                assert(field_position(next, other) == q);
            } else {
                assert forall|i: int| 0 <= i < next.len() implies (#[trigger] next[i]).0 != other by {
                    if i != p {
                        assert(next[i] == counts[i]);
                    }
                }
            }
        }
    } else {
        assert(next[counts.len() as int].0 == field);
        if other == field {
            assert(has_field(next, other));
            assert(field_position(next, other) == counts.len());
        } else if has_field(counts, other) {
            let q = field_position(counts, other);
            assert(next[q].0 == other);
            assert(field_position(next, other) == q);
        } else {
            assert forall|i: int| 0 <= i < next.len() implies (#[trigger] next[i]).0 != other by {
                if i < counts.len() {
                    assert(next[i] == counts[i]);
                }
            }
        }
    }
}

/// The sum of the counts.
pub open spec fn sum_counts(counts: Seq<(FieldIdx, usize)>) -> nat
    decreases counts.len(),
{
    if counts.len() == 0 {
        0
    } else {
        sum_counts(counts.drop_last()) + counts.last().1 as nat
    }
}

/// Whether every pair records at least one long string.
pub open spec fn counts_positive(counts: Seq<(FieldIdx, usize)>) -> bool {
    forall|i: int| 0 <= i < counts.len() ==> (#[trigger] counts[i]).1 >= 1
}

/// Replacing one pair changes the sum by the difference of their counts.
pub proof fn lemma_sum_counts_update(counts: Seq<(FieldIdx, usize)>, i: int, v: (FieldIdx, usize))
    requires
        0 <= i < counts.len(),
    ensures
        sum_counts(counts.update(i, v)) + counts[i].1 == sum_counts(counts) + v.1,
    decreases counts.len(),
{
    let u = counts.update(i, v);
    if i == counts.len() - 1 {
        assert(u.drop_last() =~= counts.drop_last());
    } else {
        assert(u.drop_last() =~= counts.drop_last().update(i, v));
        lemma_sum_counts_update(counts.drop_last(), i, v);
    }
}

/// Counting one more long string in a field keeps the fields distinct and every
/// count positive, and adds exactly one to the sum of the counts.
pub proof fn law_increment_adds_one(counts: Seq<(FieldIdx, usize)>, field: FieldIdx)
    requires
        fields_distinct(counts),
        counts_positive(counts),
        count_of(counts, field) < usize::MAX,
    ensures
        fields_distinct(incremented(counts, field)),
        counts_positive(incremented(counts, field)),
        sum_counts(incremented(counts, field)) == sum_counts(counts) + 1,
{
    lemma_incremented_counts(counts, field, field);
    let next = incremented(counts, field);
    if has_field(counts, field) {
        let i = field_position(counts, field);
        lemma_sum_counts_update(counts, i, (field, (counts[i].1 + 1) as usize));
    } else {
        assert(next.drop_last() =~= counts);
    }
}

/// Counting a long string in `a` then one in `b` gives every field the same
/// count as counting them in the other order.
pub proof fn law_increments_commute(counts: Seq<(FieldIdx, usize)>, a: FieldIdx, b: FieldIdx, g: FieldIdx)
    requires
        fields_distinct(counts),
        count_of(counts, a) < usize::MAX,
        count_of(counts, b) < usize::MAX,
        a == b ==> count_of(counts, a) + 1 < usize::MAX,
    ensures
        count_of(incremented(incremented(counts, a), b), g) == count_of(
            incremented(incremented(counts, b), a),
            g,
        ),
{
    let sa = incremented(counts, a);
    let sb = incremented(counts, b);
    lemma_incremented_counts(counts, a, b);
    lemma_incremented_counts(counts, a, g);
    lemma_incremented_counts(counts, b, a);
    lemma_incremented_counts(counts, b, g);
    lemma_incremented_counts(sa, b, g);
    lemma_incremented_counts(sb, a, g);
}

/// Going through the entries of the column `field` adds the number of its long
/// entries to the count of `field` and leaves the other counts as they were.
pub proof fn lemma_counted_entries(
    counts: Seq<(FieldIdx, usize)>,
    entries: Seq<Option<String>>,
    n: nat,
    field: FieldIdx,
    min_len: nat,
    other: FieldIdx,
)
    requires
        fields_distinct(counts),
        n <= entries.len(),
        count_of(counts, field) + n <= usize::MAX,
    ensures
        fields_distinct(counted_entries(counts, entries, n, field, min_len)),
        count_of(counted_entries(counts, entries, n, field, min_len), other) == count_of(counts, other)
            + if other == field {
            long_entries(entries, n, min_len)
        } else {
            0nat
        },
        long_entries(entries, n, min_len) <= n,
    decreases n,
{
    if n > 0 {
        lemma_counted_entries(counts, entries, (n - 1) as nat, field, min_len, other);
        lemma_counted_entries(counts, entries, (n - 1) as nat, field, min_len, field);
        let prev = counted_entries(counts, entries, (n - 1) as nat, field, min_len);
        if entries[n - 1] is Some && byte_len(entries[n - 1]->0@) >= min_len {
            lemma_incremented_counts(prev, field, other);
        }
    }
}

/// The number of long strings in the column at `f` of `doc`.
pub open spec fn long_strings_in(doc: Document, f: FieldIdx, min_len: nat) -> nat {
    let entries = string_entries(doc.spec_columns()[f as int]);
    long_entries(entries, entries.len(), min_len)
}

/// Whether `f` is among the first `k` string columns of `doc`.
pub open spec fn among_first_string_columns(doc: Document, f: FieldIdx, k: nat) -> bool {
    exists|j: int| 0 <= j < k && doc.spec_query(QueryType::StringArray)[j] == f
}

/// Going through the first `k` string columns of `doc` adds to the count of each
/// of these columns the number of its long strings, and changes no other count.
pub proof fn law_counted_columns(
    counts: Seq<(FieldIdx, usize)>,
    doc: Document,
    k: nat,
    min_len: nat,
    g: FieldIdx,
)
    requires
        fields_distinct(counts),
        crate::document::batch_wf(doc.spec_fields(), doc.spec_columns(), doc.spec_batch().spec_num_rows()),
        doc.spec_fields().len() <= usize::MAX,
        k <= doc.spec_query(QueryType::StringArray).len(),
        forall|f: FieldIdx| count_of(counts, f) + doc.spec_batch().spec_num_rows() <= usize::MAX,
    ensures
        fields_distinct(counted_columns(counts, doc, k, min_len)),
        count_of(counted_columns(counts, doc, k, min_len), g) == count_of(counts, g) + if among_first_string_columns(doc, g, k) {
            long_strings_in(doc, g, min_len)
        } else {
            0nat
        },
    decreases k,
{
    if k > 0 {
        crate::document::lemma_query_increasing(doc, QueryType::StringArray);
        let q = doc.spec_query(QueryType::StringArray);
        let prev = counted_columns(counts, doc, (k - 1) as nat, min_len);
        let f = q[k - 1];
        let entries = string_entries(doc.spec_columns()[f as int]);
        law_counted_columns(counts, doc, (k - 1) as nat, min_len, g);
        law_counted_columns(counts, doc, (k - 1) as nat, min_len, f);
        assert(!among_first_string_columns(doc, f, (k - 1) as nat)) by {
            if among_first_string_columns(doc, f, (k - 1) as nat) {
                let j = choose|j: int| 0 <= j < k - 1 && q[j] == f;
                assert(q[j] < q[k - 1]);
            }
        }
        assert(entries.len() <= doc.spec_columns()[f as int].spec_len());
        lemma_counted_entries(prev, entries, entries.len(), f, min_len, g);
        if g == f {
            assert(among_first_string_columns(doc, g, k));
        } else {
            assert(among_first_string_columns(doc, g, k) == among_first_string_columns(doc, g, (k - 1) as nat));
        }
    }
}

/// Linter that reports string columns holding many long strings.
pub struct TokenizableStringLinter {
    /// For each string field seen, the number of its entries of at least
    /// `min_byte_len_for_lint` bytes, over all the documents linted so far.
    number_of_example_over_min_byte_len: Vec<(FieldIdx, usize)>,
    /// The length in bytes from which a string counts as long.
    min_byte_len_for_lint: usize,
    /// The number of long strings from which a column is reported.
    min_count_before_lint: usize,
}

impl Default for TokenizableStringLinter {
    fn default() -> (r: Self)
        ensures
            r.spec_counts() == Seq::<(FieldIdx, usize)>::empty(),
            r.spec_min_byte_len() == 30,
            r.spec_min_count() == 3,
    {
        TokenizableStringLinter {
            number_of_example_over_min_byte_len: Vec::new(),
            min_byte_len_for_lint: 30,
            min_count_before_lint: 3,
        }
    }
}

impl TokenizableStringLinter {
    #[verifier::type_invariant]
    spec fn inv(self) -> bool {
        fields_distinct(self.number_of_example_over_min_byte_len@)
    }

    /// The counts of long strings per field, in the order the fields were first seen.
    pub closed spec fn spec_counts(self) -> Seq<(FieldIdx, usize)> {
        self.number_of_example_over_min_byte_len@
    }

    /// The length in bytes from which a string counts as long.
    pub closed spec fn spec_min_byte_len(self) -> nat {
        self.min_byte_len_for_lint as nat
    }

    /// The number of long strings from which a column is reported.
    pub closed spec fn spec_min_count(self) -> nat {
        self.min_count_before_lint as nat
    }

    /// Counts one more long string in `field`.
    pub fn increment_count_based_on_field(&mut self, field: FieldIdx)
        requires
            count_of(old(self).spec_counts(), field) < usize::MAX,
        ensures
            final(self).spec_counts() == incremented(old(self).spec_counts(), field),
            final(self).spec_min_byte_len() == old(self).spec_min_byte_len(),
            final(self).spec_min_count() == old(self).spec_min_count(),
    {
        proof {
            use_type_invariant(&*self);
        }
        let ghost old_counts = self.number_of_example_over_min_byte_len@;
        let mut counts: Vec<(FieldIdx, usize)> = Vec::new();
        std::mem::swap(&mut counts, &mut self.number_of_example_over_min_byte_len);
        let n = counts.len();
        let mut found = false;
        for index in 0..n
            invariant
                n == old_counts.len(),
                fields_distinct(old_counts),
                count_of(old_counts, field) < usize::MAX,
                !found ==> counts@ == old_counts,
                !found ==> forall|j: int| 0 <= j < index ==> (#[trigger] old_counts[j]).0 != field,
                found ==> counts@ == incremented(old_counts, field),
                fields_distinct(counts@),
        {
            if !found {
                let (field_idx_current_value, current_count) = counts[index];
                if field_idx_current_value == field {
                    proof {
                        assert(has_field(old_counts, field));
                        let p = field_position(old_counts, field);
                        assert(p == index);
                    }
                    counts.set(index, (field, current_count + 1));
                    found = true;
                    proof {
                        assert forall|i: int, j: int|
                            0 <= i < j < counts@.len() implies (#[trigger] counts@[i]).0
                            != (#[trigger] counts@[j]).0 by {
                            assert(old_counts[i].0 != old_counts[j].0);
                        }
                    }
                }
            }
        }
        if !found {
            assert(!has_field(old_counts, field));
            counts.push((field, 1));
        }
        self.number_of_example_over_min_byte_len = counts;
    }

    /// Counts the entries of the string column `field_idx` that are at least
    /// `min_byte_len_for_lint` bytes long.
    fn compute_number_of_example_over_min_byte_len(
        &mut self,
        entries: &Vec<Option<String>>,
        field_idx: FieldIdx,
    )
        requires
            count_of(old(self).spec_counts(), field_idx) + entries@.len() <= usize::MAX,
        ensures
            final(self).spec_counts() == counted_entries(
                old(self).spec_counts(),
                entries@,
                entries@.len(),
                field_idx,
                old(self).spec_min_byte_len(),
            ),
            final(self).spec_min_byte_len() == old(self).spec_min_byte_len(),
            final(self).spec_min_count() == old(self).spec_min_count(),
    {
        let ghost old_counts = self.spec_counts();
        let ghost min_len = self.spec_min_byte_len();
        proof {
            use_type_invariant(&*self);
        }
        let n = entries.len();
        for index in 0..n
            invariant
                n == entries@.len(),
                self.spec_min_byte_len() == min_len,
                self.spec_min_count() == old(self).spec_min_count(),
                fields_distinct(old_counts),
                count_of(old_counts, field_idx) + n <= usize::MAX,
                self.spec_counts() == counted_entries(old_counts, entries@, index as nat, field_idx, min_len),
        {
            proof {
                lemma_counted_entries(old_counts, entries@, index as nat, field_idx, min_len, field_idx);
            }
            match &entries[index] {
                Some(value) => {
                    let elem_length = value.as_str().len();
                    if elem_length >= self.min_byte_len_for_lint {
                        self.increment_count_based_on_field(field_idx);
                    }
                },
                None => {},
            }
        }
    }

    /// The number of long strings counted so far for `field`.
    pub fn count_for(&self, field: FieldIdx) -> (c: usize)
        ensures
            c == count_of(self.spec_counts(), field),
    {
        proof {
            use_type_invariant(self);
        }
        let n = self.number_of_example_over_min_byte_len.len();
        for index in 0..n
            invariant
                n == self.spec_counts().len(),
                fields_distinct(self.spec_counts()),
                forall|j: int| 0 <= j < index ==> (#[trigger] self.spec_counts()[j]).0 != field,
        {
            let (f, c) = self.number_of_example_over_min_byte_len[index];
            if f == field {
                proof {
                    assert(has_field(self.spec_counts(), field));
                    assert(field_position(self.spec_counts(), field) == index);
                }
                return c;
            }
        }
        0
    }

    /// The counts never name a field twice.
    pub fn check_wf(&self)
        ensures
            fields_distinct(self.spec_counts()),
    {
        proof {
            use_type_invariant(self);
        }
    }
}

impl StreamingLinter for TokenizableStringLinter {
    const QUERY_TYPE: QueryType = QueryType::StringArray;

    /// No count can overflow while the document is gone through.
    open spec fn ready_for(&self, doc: &Document) -> bool {
        forall|f: FieldIdx| count_of(self.spec_counts(), f) + doc.spec_batch().spec_num_rows() <= usize::MAX
    }

    /// Counts the long strings of every string column of `doc`, then reports each
    /// string column of `doc` whose count, over all documents linted so far, has
    /// reached `min_count_before_lint`. `None` when no column is reported.
    fn lint(&mut self, doc: &Document) -> (r: Option<Lints>)
        ensures
            final(self).spec_counts() == counted_columns(
                old(self).spec_counts(),
                *doc,
                doc.spec_query(QueryType::StringArray).len(),
                old(self).spec_min_byte_len(),
            ),
            lints_result(
                r,
                tokenizable_lints(
                    final(self).spec_counts(),
                    *doc,
                    doc.spec_query(QueryType::StringArray).len(),
                    old(self).spec_min_count(),
                    old(self).spec_min_byte_len(),
                ),
            ),
            final(self).spec_min_byte_len() == old(self).spec_min_byte_len(),
            final(self).spec_min_count() == old(self).spec_min_count(),
    {
        let arrays = doc.query(QueryType::StringArray);
        let ghost old_counts = self.spec_counts();
        let ghost min_len = self.spec_min_byte_len();
        let ghost rows = doc.spec_batch().spec_num_rows();
        let ghost queried = doc.spec_query(QueryType::StringArray);
        proof {
            use_type_invariant(&*self);
            crate::document::lemma_query_increasing(*doc, QueryType::StringArray);
        }
        let n = arrays.len();
        for k in 0..n
            invariant
                n == arrays@.len() == queried.len(),
                queried == doc.spec_query(QueryType::StringArray),
                self.spec_min_byte_len() == min_len,
                self.spec_min_count() == old(self).spec_min_count(),
                fields_distinct(old_counts),
                forall|f: FieldIdx| count_of(old_counts, f) + rows <= usize::MAX,
                forall|i: int, j: int| 0 <= i < j < queried.len() ==> queried[i] != queried[j],
                forall|j: int|
                    0 <= j < arrays@.len() ==> {
                        &&& (#[trigger] arrays@[j]).0 == queried[j]
                        &&& arrays@[j].0 < doc.spec_fields().len()
                        &&& *arrays@[j].1 == doc.spec_columns()[arrays@[j].0 as int]
                        &&& crate::document::is_string_type(doc.spec_fields()[arrays@[j].0 as int].data_type)
                        &&& crate::document::values_match_type(*arrays@[j].1, doc.spec_fields()[arrays@[j].0 as int].data_type)
                        &&& arrays@[j].1.spec_len() == rows
                    },
                self.spec_counts() == counted_columns(old_counts, *doc, k as nat, min_len),
                forall|f: FieldIdx|
                    (forall|j: int| 0 <= j < k ==> queried[j] != f) ==> count_of(
                        #[trigger] self.spec_counts(),
                        f,
                    ) == count_of(old_counts, f),
        {
            proof {
                use_type_invariant(&*self);
            }
            let (field_idx, arr) = arrays[k];
            let ghost before = self.spec_counts();
            match arr {
                ColumnValues::Strings(entries) => {
                    proof {
                        assert(forall|j: int| 0 <= j < k ==> queried[j] != field_idx);
                        assert(count_of(before, field_idx) == count_of(old_counts, field_idx));
                    }
                    self.compute_number_of_example_over_min_byte_len(entries, field_idx);
                    proof {
                        assert forall|f: FieldIdx|
                            (forall|j: int| 0 <= j < k + 1 ==> queried[j] != f) implies count_of(
                                #[trigger] self.spec_counts(),
                                f,
                            ) == count_of(old_counts, f) by {
                            assert(queried[k as int] != f);
                            lemma_counted_entries(before, entries@, entries@.len(), field_idx, min_len, f);
                        }
                    }
                },
                _ => {
                    assert(false);
                },
            }
        }
        let mut lints = Lints::new();
        let ghost counts = self.spec_counts();
        for k in 0..n
            invariant
                n == arrays@.len() == queried.len(),
                queried == doc.spec_query(QueryType::StringArray),
                self.spec_counts() == counts,
                forall|j: int|
                    0 <= j < arrays@.len() ==> {
                        &&& (#[trigger] arrays@[j]).0 == queried[j]
                        &&& arrays@[j].0 < doc.spec_fields().len()
                    },
                lints@ == tokenizable_lints(
                    counts,
                    *doc,
                    k as nat,
                    self.spec_min_count(),
                    self.spec_min_byte_len(),
                ),
        {
            let (field_idx, _) = arrays[k];
            let count = self.count_for(field_idx);
            if count >= self.min_count_before_lint {
                let field_name = doc.field_name_by_idx(field_idx);
                lints.push(
                    tokenizable_lint_message(
                        field_name,
                        self.min_count_before_lint,
                        self.min_byte_len_for_lint,
                    ),
                );
            }
        }
        into_result(lints)
    }

}

} // verus!
