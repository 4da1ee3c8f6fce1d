//! The in-memory model of one batch of a dataset, and the `Document` view that
//! the linters query.

use vstd::prelude::*;

verus! {

/// Index of a field (column) in the schema of a batch.
pub type FieldIdx = usize;

/// The logical type of a column, as far as the linters distinguish it.
#[derive(Clone, Copy, Debug, PartialEq, Eq, Structural)]
pub enum DataType {
    Utf8,
    LargeUtf8,
    Utf8View,
    Float16,
    Float32,
    Float64,
    /// Decimal with precision and scale.
    Decimal128(u8, i8),
    /// Decimal with precision and scale.
    Decimal256(u8, i8),
    /// Any type that no linter handles (integers, booleans, dates, lists, ...).
    Unsupported,
}

/// Types whose values are strings.
pub open spec fn is_string_type(t: DataType) -> bool {
    t is Utf8 || t is LargeUtf8 || t is Utf8View
}

/// Types whose values are read as floating-point numbers.
pub open spec fn is_float_type(t: DataType) -> bool {
    t is Float16 || t is Float32 || t is Float64 || t is Decimal128 || t is Decimal256
}

/// Types that a `Document` can be built from.
pub open spec fn is_supported_type(t: DataType) -> bool {
    is_string_type(t) || is_float_type(t)
}

/// One field of a schema: a column name and its type.
#[derive(Debug)]
pub struct Field {
    pub name: String,
    pub data_type: DataType,
}

/// The values of one column.
///
/// String columns hold their entries (`None` for a null entry). Floating-point
/// columns hold, for each entry, the bit pattern of its value as an `f64`
/// (`None` for a null entry). Other columns only record their length.
#[derive(Debug)]
pub enum ColumnValues {
    Strings(Vec<Option<String>>),
    Floats(Vec<Option<u64>>),
    Other(usize),
}

impl ColumnValues {
    /// Number of entries of the column.
    pub open spec fn spec_len(self) -> nat {
        match self {
            ColumnValues::Strings(v) => v@.len(),
            ColumnValues::Floats(v) => v@.len(),
            ColumnValues::Other(n) => n as nat,
        }
    }

    /// Number of entries of the column.
    pub fn len(&self) -> (n: usize)
        ensures
            n == self.spec_len(),
    {
        match self {
            ColumnValues::Strings(v) => v.len(),
            ColumnValues::Floats(v) => v.len(),
            ColumnValues::Other(n) => *n,
        }
    }
}

/// The entries of a string column (none for another kind of column).
pub open spec fn string_entries(c: ColumnValues) -> Seq<Option<String>> {
    match c {
        ColumnValues::Strings(v) => v@,
        _ => Seq::empty(),
    }
}

/// The entries of a floating-point column (none for another kind of column).
pub open spec fn float_entries(c: ColumnValues) -> Seq<Option<u64>> {
    match c {
        ColumnValues::Floats(v) => v@,
        _ => Seq::empty(),
    }
}

/// The kind of values that a column of type `t` must hold.
pub open spec fn values_match_type(c: ColumnValues, t: DataType) -> bool {
    if is_string_type(t) {
        c is Strings
    } else if is_float_type(t) {
        c is Floats
    } else {
        c is Other
    }
}

/// Why a batch could not be assembled.
#[derive(Clone, Copy, Debug, PartialEq, Eq, Structural)]
pub enum BatchError {
    /// The schema and the column list differ in length.
    ColumnCountMismatch,
    /// The column at this index holds values of another kind than its field's type.
    TypeMismatch(usize),
    /// The column at this index differs in length from the first column.
    LengthMismatch(usize),
}

/// A batch of rows with a flat (normalized) schema: one field per column, all
/// columns of the same length, each column's values of its field's type.
pub struct NormalizedRecordBatch {
    fields: Vec<Field>,
    columns: Vec<ColumnValues>,
    num_rows: usize,
}

/// The well-formedness of a batch, over its parts.
pub open spec fn batch_wf(fields: Seq<Field>, columns: Seq<ColumnValues>, num_rows: nat) -> bool {
    &&& fields.len() == columns.len()
    &&& forall|i: int|
        0 <= i < columns.len() ==> values_match_type(#[trigger] columns[i], fields[i].data_type)
    &&& forall|i: int| 0 <= i < columns.len() ==> (#[trigger] columns[i]).spec_len() == num_rows
}

impl NormalizedRecordBatch {
    #[verifier::type_invariant]
    spec fn inv(self) -> bool {
        batch_wf(self.fields@, self.columns@, self.num_rows as nat)
    }

    /// The schema of the batch.
    pub closed spec fn spec_fields(self) -> Seq<Field> {
        self.fields@
    }

    /// The columns of the batch, in schema order.
    pub closed spec fn spec_columns(self) -> Seq<ColumnValues> {
        self.columns@
    }

    /// The number of rows of the batch.
    pub closed spec fn spec_num_rows(self) -> nat {
        self.num_rows as nat
    }

    /// Assembles a batch; fails when the parts do not fit together.
    ///
    /// With no column, the batch has no row.
    pub fn try_new(fields: Vec<Field>, columns: Vec<ColumnValues>) -> (r: Result<
        NormalizedRecordBatch,
        BatchError,
    >)
        ensures
            match r {
                Ok(b) => {
                    &&& b.spec_fields() == fields@
                    &&& b.spec_columns() == columns@
                    &&& batch_wf(fields@, columns@, b.spec_num_rows())
                    &&& columns@.len() == 0 ==> b.spec_num_rows() == 0
                },
                Err(e) => !(exists|n: nat| batch_wf(fields@, columns@, n)) && (match e {
                    BatchError::ColumnCountMismatch => fields@.len() != columns@.len(),
                    BatchError::TypeMismatch(i) => {
                        &&& fields@.len() == columns@.len()
                        &&& i < columns@.len()
                        &&& !values_match_type(columns@[i as int], fields@[i as int].data_type)
                    },
                    BatchError::LengthMismatch(i) => {
                        &&& fields@.len() == columns@.len()
                        &&& 0 < i < columns@.len()
                        &&& columns@[i as int].spec_len() != columns@[0].spec_len()
                    },
                }),
            },
    {
        if fields.len() != columns.len() {
            return Err(BatchError::ColumnCountMismatch);
        }
        let num_rows: usize = if columns.len() == 0 { 0 } else { columns[0].len() };
        let mut i: usize = 0;
        while i < columns.len()
            invariant
                fields.len() == columns.len(),
                i <= columns.len(),
                columns.len() > 0 ==> num_rows == columns@[0].spec_len(),
                forall|j: int|
                    0 <= j < i ==> values_match_type(#[trigger] columns@[j], fields@[j].data_type),
                forall|j: int| 0 <= j < i ==> (#[trigger] columns@[j]).spec_len() == num_rows,
            decreases columns.len() - i,
        {
            let t = fields[i].data_type;
            let ok = match &columns[i] {
                ColumnValues::Strings(_) => t == DataType::Utf8 || t == DataType::LargeUtf8
                    || t == DataType::Utf8View,
                ColumnValues::Floats(_) => match t {
                    DataType::Float16 | DataType::Float32 | DataType::Float64
                    | DataType::Decimal128(_, _) | DataType::Decimal256(_, _) => true,
                    _ => false,
                },
                ColumnValues::Other(_) => match t {
                    DataType::Unsupported => true,
                    _ => false,
                },
            };
            if !ok {
                return Err(BatchError::TypeMismatch(i));
            }
            if columns[i].len() != num_rows {
                return Err(BatchError::LengthMismatch(i));
            }
            i = i + 1;
        }
        Ok(NormalizedRecordBatch { fields, columns, num_rows })
    }

    /// The schema of the batch.
    pub fn schema(&self) -> (r: &Vec<Field>)
        ensures
            r@ == self.spec_fields(),
    {
        &self.fields
    }

    /// The number of rows of the batch.
    pub fn num_rows(&self) -> (r: usize)
        ensures
            r == self.spec_num_rows(),
    {
        self.num_rows
    }
}

/// Which kind of column a linter asks a document for.
#[derive(Clone, Copy, Debug, PartialEq, Eq, Structural)]
pub enum QueryType {
    StringArray,
    FloatArray,
}

/// Whether a column of type `t` answers a query of kind `q`.
pub open spec fn query_matches(q: QueryType, t: DataType) -> bool {
    match q {
        QueryType::StringArray => is_string_type(t),
        QueryType::FloatArray => is_float_type(t),
    }
}

/// The types of the fields of a schema, in order.
pub open spec fn field_types(fields: Seq<Field>) -> Seq<DataType> {
    fields.map_values(|f: Field| f.data_type)
}

/// The indices, in increasing order, of the first `n` types that answer `q`.
pub open spec fn matching_indices(types: Seq<DataType>, q: QueryType, n: nat) -> Seq<FieldIdx>
    decreases n,
{
    if n == 0 {
        Seq::empty()
    } else {
        let prev = matching_indices(types, q, (n - 1) as nat);
        if query_matches(q, types[n - 1]) {
            prev.push((n - 1) as FieldIdx)
        } else {
            prev
        }
    }
}

/// The indices, in increasing order, of all the types that answer `q`.
pub open spec fn columns_of_kind(types: Seq<DataType>, q: QueryType) -> Seq<FieldIdx> {
    matching_indices(types, q, types.len())
}

/// The indices that `matching_indices` lists are in range, strictly increasing,
/// and are exactly those of the matching types.
pub proof fn lemma_matching_indices(types: Seq<DataType>, q: QueryType, n: nat)
    requires
        n <= types.len(),
        types.len() <= usize::MAX,
    ensures
        forall|k: int|
            0 <= k < matching_indices(types, q, n).len() ==> #[trigger] matching_indices(
                types,
                q,
                n,
            )[k] < n,
        forall|k: int, l: int|
            0 <= k < l < matching_indices(types, q, n).len() ==> #[trigger] matching_indices(
                types,
                q,
                n,
            )[k] < #[trigger] matching_indices(types, q, n)[l],
        forall|i: int|
            0 <= i < n ==> (query_matches(q, #[trigger] types[i]) <==> matching_indices(
                types,
                q,
                n,
            ).contains(i as FieldIdx)),
    decreases n,
{
    if n > 0 {
        lemma_matching_indices(types, q, (n - 1) as nat);
        let prev = matching_indices(types, q, (n - 1) as nat);
        assert forall|i: int|
            0 <= i < n implies (query_matches(q, #[trigger] types[i]) <==> matching_indices(
                types,
                q,
                n,
            ).contains(i as FieldIdx)) by {
            broadcast use vstd::seq_lib::group_seq_properties;

            if i == n - 1 && !query_matches(q, types[n - 1]) && prev.contains(i as FieldIdx) {
                let k = choose|k: int| 0 <= k < prev.len() && #[trigger] prev[k] == i as FieldIdx;
                assert(prev[k] < n - 1);
            }
        }
    }
}

/// The columns that answer a query are in range and listed in strictly increasing order.
pub proof fn lemma_query_increasing(doc: Document, q: QueryType)
    requires
        doc.spec_fields().len() <= usize::MAX,
    ensures
        forall|k: int|
            0 <= k < doc.spec_query(q).len() ==> #[trigger] doc.spec_query(q)[k]
                < doc.spec_fields().len(),
        forall|k: int, l: int|
            0 <= k < l < doc.spec_query(q).len() ==> #[trigger] doc.spec_query(q)[k]
                < #[trigger] doc.spec_query(q)[l],
{
    let types = field_types(doc.spec_fields());
    lemma_matching_indices(types, q, types.len());
}

/// Every column of a document whose columns all hold strings or floating-point
/// numbers is found by exactly one of the two queries: by the string query
/// exactly when it holds strings.
pub proof fn law_queries_partition_columns(doc: Document, i: int)
    requires
        doc.spec_fields().len() <= usize::MAX,
        0 <= i < doc.spec_fields().len(),
        is_supported_type(doc.spec_fields()[i].data_type),
    ensures
        doc.spec_query(QueryType::StringArray).contains(i as FieldIdx) <==> is_string_type(
            doc.spec_fields()[i].data_type,
        ),
        doc.spec_query(QueryType::FloatArray).contains(i as FieldIdx) <==> is_float_type(
            doc.spec_fields()[i].data_type,
        ),
        doc.spec_query(QueryType::StringArray).contains(i as FieldIdx) != doc.spec_query(
            QueryType::FloatArray,
        ).contains(i as FieldIdx),
{
    let types = field_types(doc.spec_fields());
    lemma_matching_indices(types, QueryType::StringArray, types.len());
    lemma_matching_indices(types, QueryType::FloatArray, types.len());
    assert(types[i] == doc.spec_fields()[i].data_type);
}

/// A batch prepared for the linters: the indices of its string columns and of
/// its floating-point columns.
pub struct Document {
    array: NormalizedRecordBatch,
    string_type_columns: Vec<FieldIdx>,
    float_type_columns: Vec<FieldIdx>,
}

impl Document {
    #[verifier::type_invariant]
    spec fn inv(self) -> bool {
        &&& self.string_type_columns@ == columns_of_kind(
            field_types(self.array.spec_fields()),
            QueryType::StringArray,
        )
        &&& self.float_type_columns@ == columns_of_kind(
            field_types(self.array.spec_fields()),
            QueryType::FloatArray,
        )
    }

    /// The batch the document was built from.
    pub closed spec fn spec_batch(self) -> NormalizedRecordBatch {
        self.array
    }

    /// The schema of the document.
    pub open spec fn spec_fields(self) -> Seq<Field> {
        self.spec_batch().spec_fields()
    }

    /// The columns of the document.
    pub open spec fn spec_columns(self) -> Seq<ColumnValues> {
        self.spec_batch().spec_columns()
    }

    /// The indices of the columns that answer `q`, in schema order.
    pub open spec fn spec_query(self, q: QueryType) -> Seq<FieldIdx> {
        columns_of_kind(field_types(self.spec_fields()), q)
    }

    /// Builds a document from a batch whose columns all hold strings or
    /// floating-point numbers.
    pub fn from(value: NormalizedRecordBatch) -> (doc: Document)
        requires
            forall|i: int|
                0 <= i < value.spec_fields().len() ==> is_supported_type(
                    #[trigger] value.spec_fields()[i].data_type,
                ),
        ensures
            doc.spec_batch() == value,
    {
        proof {
            use_type_invariant(&value);
        }
        let mut string_type_columns: Vec<FieldIdx> = Vec::with_capacity(10);
        let mut float_type_columns: Vec<FieldIdx> = Vec::with_capacity(10);
        let ghost types = field_types(value.spec_fields());
        let n = value.fields.len();
        for idx in 0..n
            invariant
                n == value.fields@.len(),
                types == field_types(value.spec_fields()),
                forall|i: int| 0 <= i < n ==> is_supported_type(#[trigger] types[i]),
                string_type_columns@ == matching_indices(types, QueryType::StringArray, idx as nat),
                float_type_columns@ == matching_indices(types, QueryType::FloatArray, idx as nat),
        {
            match value.fields[idx].data_type {
                DataType::Utf8 => string_type_columns.push(idx),
                DataType::LargeUtf8 => string_type_columns.push(idx),
                DataType::Utf8View => string_type_columns.push(idx),
                DataType::Float16 => float_type_columns.push(idx),
                DataType::Float32 => float_type_columns.push(idx),
                DataType::Float64 => float_type_columns.push(idx),
                DataType::Decimal128(_, _) => float_type_columns.push(idx),
                DataType::Decimal256(_, _) => float_type_columns.push(idx),
                DataType::Unsupported => {
                    assert(is_supported_type(types[idx as int]));
                },
            }
        }
        Document { array: value, string_type_columns, float_type_columns }
    }

    /// The name of the field at `idx`.
    pub fn field_name_by_idx(&self, idx: usize) -> (name: &str)
        requires
            idx < self.spec_fields().len(),
        ensures
            name@ == self.spec_fields()[idx as int].name@,
    {
        self.array.fields[idx].name.as_str()
    }

    /// The schema of the document.
    pub fn normalized_schema(&self) -> (schema: &Vec<Field>)
        ensures
            schema@ == self.spec_fields(),
    {
        &self.array.fields
    }

    /// Every document rests on a well-formed batch and indexes its columns by kind.
    pub fn check_wf(&self)
        ensures
            batch_wf(self.spec_fields(), self.spec_columns(), self.spec_batch().spec_num_rows()),
    {
        proof {
            use_type_invariant(&self.array);
        }
    }
}

/// Access to the columns of a document by kind.
pub trait Queryable {
    /// The columns that answer `query_type`, each with its field index.
    fn query(&self, query_type: QueryType) -> Vec<(FieldIdx, &ColumnValues)>;
}

impl Queryable for Document {
    /// The columns that answer `query_type`, with their field indices, in schema order.
    fn query(&self, query_type: QueryType) -> (r: Vec<(FieldIdx, &ColumnValues)>)
        ensures
            r@.len() == self.spec_query(query_type).len(),
            self.spec_fields().len() <= usize::MAX,
            forall|k: int|
                0 <= k < r@.len() ==> {
                    &&& (#[trigger] r@[k]).0 == self.spec_query(query_type)[k]
                    &&& r@[k].0 < self.spec_fields().len()
                    &&& *r@[k].1 == self.spec_columns()[r@[k].0 as int]
                    &&& query_matches(query_type, self.spec_fields()[r@[k].0 as int].data_type)
                    &&& values_match_type(*r@[k].1, self.spec_fields()[r@[k].0 as int].data_type)
                    &&& r@[k].1.spec_len() == self.spec_batch().spec_num_rows()
                },
    {
        let nf = self.array.fields.len();
        proof {
            use_type_invariant(self);
            use_type_invariant(&self.array);
            lemma_matching_indices(
                field_types(self.array.spec_fields()),
                query_type,
                nf as nat,
            );
        }
        let indices = match query_type {
            QueryType::StringArray => &self.string_type_columns,
            QueryType::FloatArray => &self.float_type_columns,
        };
        let ghost types = field_types(self.array.spec_fields());
        let mut out: Vec<(FieldIdx, &ColumnValues)> = Vec::new();
        for k in 0..indices.len()
            invariant
                indices@ == self.spec_query(query_type),
                types == field_types(self.array.spec_fields()),
                self.array.fields@.len() == self.array.columns@.len(),
                forall|j: int| 0 <= j < indices@.len() ==> #[trigger] indices@[j] < types.len(),
                forall|i: int|
                    0 <= i < types.len() ==> (query_matches(query_type, #[trigger] types[i]) <==> indices@.contains(i as FieldIdx)),
                out@.len() == k,
                forall|j: int|
                    0 <= j < k ==> {
                        &&& (#[trigger] out@[j]).0 == indices@[j]
                        &&& *out@[j].1 == self.array.columns@[indices@[j] as int]
                    },
        {
            let f = indices[k];
            out.push((f, &self.array.columns[f]));
        }
        proof {
            assert forall|k: int| 0 <= k < out@.len() implies query_matches(
                query_type,
                self.spec_fields()[out@[k].0 as int].data_type,
            ) by {
                let i = out@[k].0 as int;
                assert(indices@.contains(i as FieldIdx));
                assert(types[i] == self.spec_fields()[i].data_type);
            }
        }
        out
    }
}

} // verus!
