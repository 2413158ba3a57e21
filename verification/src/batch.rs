//! Batches: the unit of data flow between operators. A batch is an
//! ordered set of named, equal-length columns under one schema whose last
//! field is always the boolean retraction flag — `false` asserts a row,
//! `true` retracts a previously asserted identical row.

use vstd::prelude::*;

use crate::column::{all_false_column, count_trues, filter_seq, Column, ColumnView};
use crate::error::Error;
use crate::scalar::{DataType, GroupByScalarView};
use crate::schema::{fields_view, Field, FieldView, Schema};

verus! {

/// The fixed upper bound on rows per batch, bounding the memory in
/// flight at every pipeline stage.
pub const BATCH_SIZE: usize = 8192;

/// The reserved name of the trailing retraction field.
pub fn retractions_field() -> (r: &'static str)
    ensures
        r@ == retractions_field_name(),
{
    "retraction"
}

/// The character sequence of the reserved retraction field name.
pub open spec fn retractions_field_name() -> Seq<char> {
    "retraction"@
}

/// The retraction field itself: boolean and non-nullable.
pub open spec fn retraction_field_view() -> FieldView {
    FieldView { name: retractions_field_name(), data_type: DataType::Boolean, nullable: false }
}

/// The mathematical value of a batch.
#[verifier::ext_equal]
pub struct BatchView {
    pub schema: Seq<FieldView>,
    pub cols: Seq<ColumnView>,
}

impl BatchView {
    /// The row count: the common length of the columns.
    pub open spec fn num_rows(&self) -> nat {
        if self.cols.len() == 0 {
            0
        } else {
            self.cols[0].vals.len()
        }
    }

    /// Well-formedness: one column per schema field with the declared
    /// type, all columns of one length bounded by `BATCH_SIZE`, and the
    /// schema ending in the retraction field.
    pub open spec fn wf(&self) -> bool {
        &&& self.cols.len() == self.schema.len()
        &&& forall|i: int| 0 <= i < self.cols.len() ==> (#[trigger] self.cols[i]).dt
            == self.schema[i].data_type
        &&& forall|i: int| 0 <= i < self.cols.len() ==> (#[trigger] self.cols[i]).vals.len()
            == self.num_rows()
        &&& self.num_rows() <= BATCH_SIZE
        &&& self.schema.len() >= 1
        &&& self.schema.last() == retraction_field_view()
    }

    /// The retraction column: the last one.
    pub open spec fn retractions(&self) -> Seq<GroupByScalarView> {
        self.cols.last().vals
    }
}

/// A batch of columnar rows sharing one schema.
#[derive(Debug, Clone, PartialEq)]
pub struct Batch {
    pub schema: Schema,
    pub columns: Vec<Column>,
}

impl View for Batch {
    type V = BatchView;

    open spec fn view(&self) -> BatchView {
        BatchView { schema: self.schema@, cols: self.columns@.map_values(|c: Column| c@) }
    }
}

impl Batch {
    /// Build a batch after checking the well-formedness conditions;
    /// malformed input is rejected, never silently repaired.
    pub fn new(schema: Schema, columns: Vec<Column>) -> (r: Result<Batch, Error>)
        ensures
            match r {
                Ok(b) => b@ == (BatchView {
                    schema: schema@,
                    cols: columns@.map_values(|c: Column| c@),
                }) && b@.wf(),
                Err(e) => !(BatchView {
                    schema: schema@,
                    cols: columns@.map_values(|c: Column| c@),
                }).wf() && e is BadInput,
            },
    {
        let ghost gv = BatchView { schema: schema@, cols: columns@.map_values(|c: Column| c@) };
        if columns.len() != schema.fields.len() {
            return Err(Error::BadInput(String::from_str("column count does not match schema")));
        }
        if schema.fields.len() == 0 {
            return Err(Error::BadInput(String::from_str("schema has no fields")));
        }
        let rows = columns[0].len();
        if rows > BATCH_SIZE {
            return Err(Error::BadInput(String::from_str("batch larger than the row bound")));
        }
        let mut i: usize = 0;
        while i < columns.len()
            invariant
                i <= columns@.len(),
                columns@.len() == schema.fields@.len(),
                columns@.len() >= 1,
                gv == (BatchView { schema: schema@, cols: columns@.map_values(|c: Column| c@) }),
                rows == gv.num_rows(),
                forall|j: int| 0 <= j < i ==> (#[trigger] gv.cols[j]).dt == gv.schema[j].data_type,
                forall|j: int| 0 <= j < i ==> (#[trigger] gv.cols[j]).vals.len() == gv.num_rows(),
            decreases columns@.len() - i,
        {
            if columns[i].data_type() != schema.fields[i].data_type {
                proof {
                    assert(gv.cols[i as int] == columns@[i as int]@);
                    assert(!gv.wf());
                }
                return Err(Error::BadInput(String::from_str("column type does not match schema")));
            }
            if columns[i].len() != rows {
                proof {
                    assert(gv.cols[i as int] == columns@[i as int]@);
                    assert(!gv.wf());
                }
                return Err(Error::BadInput(String::from_str("columns differ in length")));
            }
            i += 1;
        }
        let last = schema.fields.len() - 1;
        let sought = String::from_str(retractions_field());
        if !schema.fields[last].name.eq(&sought) {
            return Err(Error::BadInput(String::from_str("schema lacks the retraction field")));
        }
        if schema.fields[last].data_type != DataType::Boolean {
            return Err(Error::BadInput(String::from_str("retraction field is not boolean")));
        }
        if schema.fields[last].nullable {
            return Err(Error::BadInput(String::from_str("retraction field is nullable")));
        }
        proof {
            assert(gv.schema.last() =~= retraction_field_view());
        }
        Ok(Batch { schema, columns })
    }

    /// The row count.
    pub fn num_rows(&self) -> (r: usize)
        ensures
            r == self@.num_rows(),
    {
        if self.columns.len() == 0 {
            0
        } else {
            self.columns[0].len()
        }
    }
}

/// The boolean reading of a predicate column's rows.
pub open spec fn mask_of(vals: Seq<GroupByScalarView>) -> Seq<bool> {
    vals.map_values(
        |v: GroupByScalarView|
            match v {
                GroupByScalarView::Boolean(b) => b,
                _ => false,
            },
    )
}

/// What selection by the predicate column at `index` produces: every
/// column — the retraction column like any other — filtered by the same
/// mask, under the unchanged schema; or nothing, when `index` does not
/// name a boolean column.
pub open spec fn spec_filter_batch(b: BatchView, index: int) -> Option<BatchView> {
    if 0 <= index < b.cols.len() && b.cols[index].dt == DataType::Boolean {
        let mask = mask_of(b.cols[index].vals);
        Some(
            BatchView {
                schema: b.schema,
                cols: b.cols.map_values(
                    |c: ColumnView| ColumnView { dt: c.dt, vals: filter_seq(c.vals, mask) },
                ),
            },
        )
    } else {
        None
    }
}

/// Select the rows at which the boolean column at `index` is true. The
/// output schema is the input schema, every column passes through the
/// same predicate, and the output row count is the number of true rows
/// in the predicate column.
pub fn filter_batch(b: &Batch, index: usize) -> (r: Result<Batch, Error>)
    requires
        b@.wf(),
    ensures
        match r {
            Ok(out) => {
                &&& spec_filter_batch(b@, index as int) == Some(out@)
                &&& out@.wf()
                &&& out@.schema == b@.schema
                &&& out@.num_rows() == count_trues(mask_of(b@.cols[index as int].vals))
            },
            Err(e) => spec_filter_batch(b@, index as int) is None && e is BadInput,
        },
{
    if index >= b.columns.len() {
        return Err(Error::BadInput(String::from_str("predicate column is out of range")));
    }
    let mask: &Vec<bool> = match &b.columns[index] {
        Column::Boolean(m) => m,
        _ => {
            return Err(Error::BadInput(String::from_str("predicate column is not boolean")));
        },
    };
    proof {
        assert(mask_of(b@.cols[index as int].vals) =~= mask@);
    }
    let mut new_columns: Vec<Column> = Vec::new();
    let mut i: usize = 0;
    while i < b.columns.len()
        invariant
            i <= b.columns@.len(),
            b@.wf(),
            index < b.columns@.len(),
            b@.cols[index as int].dt == DataType::Boolean,
            mask@ == mask_of(b@.cols[index as int].vals),
            mask@.len() == b@.num_rows(),
            new_columns@.len() == i,
            forall|j: int|
                0 <= j < i ==> (#[trigger] new_columns@[j]@) == (ColumnView {
                    dt: b@.cols[j].dt,
                    vals: filter_seq(b@.cols[j].vals, mask@),
                }),
        decreases b.columns@.len() - i,
    {
        proof {
            assert(b@.cols[i as int] == b.columns@[i as int]@);
            assert(b@.cols[i as int].vals.len() == b@.num_rows());
        }
        let filtered = b.columns[i].filter(mask);
        new_columns.push(filtered);
        i += 1;
    }
    let out_schema = clone_schema(&b.schema);
    let ghost mv = mask_of(b@.cols[index as int].vals);
    let ghost expected = spec_filter_batch(b@, index as int).unwrap();
    let out = Batch { schema: out_schema, columns: new_columns };
    proof {
        assert(out@.cols =~= expected.cols);
        assert(out@ =~= expected);
        crate::column::lemma_count_trues_bound(mv);
        crate::column::lemma_filter_seq_len(b@.cols[0].vals, mv);
        assert forall|j: int| 0 <= j < out@.cols.len() implies (#[trigger] out@.cols[j]).vals.len()
            == count_trues(mv) by {
            crate::column::lemma_filter_seq_len(b@.cols[j].vals, mv);
        }
    }
    Ok(out)
}

/// A value-faithful copy of a field.
pub fn clone_field(f: &Field) -> (r: Field)
    ensures
        r == *f,
{
    Field { name: f.name.clone(), data_type: f.data_type, nullable: f.nullable }
}

/// A value-faithful copy of a schema.
pub fn clone_schema(s: &Schema) -> (r: Schema)
    ensures
        r@ == s@,
{
    let mut fields: Vec<Field> = Vec::new();
    let mut i: usize = 0;
    while i < s.fields.len()
        invariant
            i <= s.fields@.len(),
            fields@.len() == i,
            forall|j: int| 0 <= j < i ==> fields@[j] == s.fields@[j],
        decreases s.fields@.len() - i,
    {
        fields.push(clone_field(&s.fields[i]));
        i += 1;
    }
    proof {
        assert(fields_view(fields@) =~= fields_view(s.fields@));
    }
    Schema { fields }
}

/// The schema a source presents: its inferred data fields followed by
/// the retraction field.
pub fn source_schema(fields: &Vec<Field>) -> (r: Schema)
    ensures
        r@ == fields_view(fields@).push(retraction_field_view()),
{
    let mut out: Vec<Field> = Vec::new();
    let mut i: usize = 0;
    while i < fields.len()
        invariant
            i <= fields@.len(),
            out@.len() == i,
            forall|j: int| 0 <= j < i ==> out@[j] == fields@[j],
        decreases fields@.len() - i,
    {
        out.push(clone_field(&fields[i]));
        i += 1;
    }
    let mut name = String::new();
    name.append(retractions_field());
    out.push(Field { name, data_type: DataType::Boolean, nullable: false });
    proof {
        assert(fields_view(out@) =~= fields_view(fields@).push(retraction_field_view()));
    }
    Schema { fields: out }
}

/// The shape a source's data columns must have to form one batch: one
/// column per declared field, of the declared type, all of one length,
/// at least one column, and no more rows than the batch bound.
pub open spec fn source_columns_wf(fields: Seq<FieldView>, cols: Seq<ColumnView>) -> bool {
    &&& cols.len() == fields.len()
    &&& cols.len() >= 1
    &&& forall|i: int| 0 <= i < cols.len() ==> (#[trigger] cols[i]).dt == fields[i].data_type
    &&& forall|i: int| 0 <= i < cols.len() ==> (#[trigger] cols[i]).vals.len()
        == cols[0].vals.len()
    &&& cols[0].vals.len() <= BATCH_SIZE
}

/// Assemble a source batch: the data columns under the source schema,
/// with an all-false retraction column attached, since a source reads
/// pure append-only data. Fails exactly when the data columns do not
/// have the source-batch shape: a column count differing from the
/// fields, no columns, a column of the wrong type, columns of unequal
/// length, or more rows than the batch bound.
pub fn make_source_batch(fields: &Vec<Field>, columns: Vec<Column>) -> (r: Result<Batch, Error>)
    ensures
        match r {
            Ok(b) => {
                &&& source_columns_wf(fields_view(fields@), columns@.map_values(|c: Column| c@))
                &&& b@.wf()
                &&& b@.schema == fields_view(fields@).push(retraction_field_view())
                &&& b@.cols.len() == columns@.len() + 1
                &&& forall|i: int| 0 <= i < columns@.len() ==> b@.cols[i] == #[trigger] columns@[i]@
                &&& forall|i: int|
                    0 <= i < b@.num_rows() ==> b@.retractions()[i] == GroupByScalarView::Boolean(
                        false,
                    )
            },
            Err(e) => !source_columns_wf(fields_view(fields@), columns@.map_values(|c: Column| c@))
                && e is BadInput,
        },
{
    let ghost fv = fields_view(fields@);
    let ghost cv = columns@.map_values(|c: Column| c@);
    let schema = source_schema(fields);
    if columns.len() != fields.len() {
        return Err(Error::BadInput(String::from_str("column count does not match the fields")));
    }
    if columns.len() == 0 {
        return Err(Error::BadInput(String::from_str("a source batch needs at least one column")));
    }
    let rows = columns[0].len();
    let retraction = all_false_column(rows);
    let mut columns = columns;
    columns.push(retraction);
    let ghost full_cv = columns@.map_values(|c: Column| c@);
    proof {
        assert(full_cv.drop_last() =~= cv);
        assert(cv[0] == full_cv[0]);
    }
    match Batch::new(schema, columns) {
        Ok(b) => {
            proof {
                assert(b@.retractions() == b@.cols.last().vals);
                assert forall|i: int| 0 <= i < cv.len() implies (#[trigger] cv[i]).dt
                    == fv[i].data_type by {
                    assert(cv[i] == full_cv[i]);
                    assert(b@.cols[i] == full_cv[i]);
                }
                assert forall|i: int| 0 <= i < cv.len() implies (#[trigger] cv[i]).vals.len()
                    == cv[0].vals.len() by {
                    assert(cv[i] == full_cv[i]);
                    assert(b@.cols[i] == full_cv[i]);
                }
            }
            Ok(b)
        },
        Err(_) => {
            proof {
                // were the data columns well-shaped, the assembled batch
                // would be well-formed, which the constructor refuted
                let candidate = BatchView {
                    schema: schema@,
                    cols: full_cv,
                };
                if source_columns_wf(fv, cv) {
                    assert forall|i: int| 0 <= i < candidate.cols.len() implies (
                    #[trigger] candidate.cols[i]).dt == candidate.schema[i].data_type by {
                        if i < cv.len() {
                            assert(candidate.cols[i] == cv[i]);
                        }
                    }
                    assert(candidate.num_rows() == rows as nat);
                    assert forall|i: int| 0 <= i < candidate.cols.len() implies (
                    #[trigger] candidate.cols[i]).vals.len() == candidate.num_rows() by {
                        if i < cv.len() {
                            assert(candidate.cols[i] == cv[i]);
                        }
                    }
                    assert(candidate.schema.last() == retraction_field_view());
                    assert(candidate.wf());
                    assert(false);
                }
            }
            Err(
                Error::BadInput(String::from_str("source columns do not form a well-formed batch")),
            )
        },
    }
}

} // verus!
