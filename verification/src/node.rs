//! The operator protocol: push-driven batch streaming. A `Node` computes
//! its output schema against an enclosing scope and, when run, drives its
//! upstream sources to completion, handing every batch it emits to its
//! downstream consumer synchronously, inline, before continuing — no
//! whole stream is ever buffered. A composed operator wraps the consumer
//! it is given: the wrapping stage transforms each batch and forwards it,
//! so failure anywhere aborts the whole chain immediately.

use vstd::prelude::*;

use crate::batch::{
    filter_batch, retraction_field_view, spec_filter_batch, Batch, BatchView, source_schema,
    BATCH_SIZE,
};
use crate::column::{all_false_column, Column, ColumnView};
use crate::error::Error;
use crate::scalar::{DataType, GroupByScalarView, Identifier};
use crate::schema::{
    field_index, fields_view, share_variables, ExecutionContext, Field, FieldView, Schema,
    SchemaContext,
};
use vstd::pervasive::unreached;

verus! {

/// The context handed to a consumer with each produced batch.
pub struct ProduceContext {}

/// Out-of-band lifecycle signals of a stream.
pub enum MetadataMessage {
    EndOfStream,
}

/// A metadata consumer that accepts and discards every signal.
pub fn noop_meta_send(_ctx: &ProduceContext, _msg: MetadataMessage) -> (r: Result<(), Error>)
    ensures
        r is Ok,
{
    Ok(())
}

/// A downstream consumer of batches: either a plain collector, or a
/// filtering stage wrapped around an inner consumer — the closed-variant
/// form of an operator wrapping the callback it was given.
pub enum Sink {
    Collect(Vec<Batch>),
    Filtered { index: usize, inner: Box<Sink> },
}

/// What a stage chain does to one batch on its way in: each filtering
/// stage selects by its predicate column, outermost stage first; a stage
/// that cannot apply (no boolean column at its index) fails the batch.
pub open spec fn push_through(stages: Seq<int>, b: BatchView) -> Option<BatchView>
    decreases stages.len(),
{
    if stages.len() == 0 {
        Some(b)
    } else {
        match spec_filter_batch(b, stages[0]) {
            None => None,
            Some(out) => push_through(stages.drop_first(), out),
        }
    }
}

/// A whole stream pushed through a stage chain; fails if any batch fails.
pub open spec fn push_all(stages: Seq<int>, bs: Seq<BatchView>) -> Option<Seq<BatchView>>
    decreases bs.len(),
{
    if bs.len() == 0 {
        Some(Seq::empty())
    } else {
        match push_all(stages, bs.drop_last()) {
            None => None,
            Some(rest) => match push_through(stages, bs.last()) {
                None => None,
                Some(out) => Some(rest.push(out)),
            },
        }
    }
}

impl Sink {
    /// The filter indices of the wrapped stages, outermost first.
    pub open spec fn stages(&self) -> Seq<int>
        decreases self,
    {
        match self {
            Sink::Collect(_) => Seq::empty(),
            Sink::Filtered { index, inner } => seq![*index as int] + inner.stages(),
        }
    }

    /// The batches the innermost collector has received so far.
    pub open spec fn log(&self) -> Seq<BatchView>
        decreases self,
    {
        match self {
            Sink::Collect(v) => v@.map_values(|b: Batch| b@),
            Sink::Filtered { index: _, inner } => inner.log(),
        }
    }

    /// A fresh plain collector.
    pub fn new_collector() -> (r: Sink)
        ensures
            r.stages() == Seq::<int>::empty(),
            r.log() == Seq::<BatchView>::empty(),
    {
        Sink::Collect(Vec::new())
    }

    /// The collected batches of a plain collector.
    pub fn into_batches(self) -> (r: Vec<Batch>)
        requires
            self is Collect,
        ensures
            r@.map_values(|b: Batch| b@) == self.log(),
    {
        match self {
            Sink::Collect(v) => v,
            Sink::Filtered { .. } => unreached(),
        }
    }

    /// Receive one batch: transform it through this consumer's stages and
    /// append it to the collector behind them. Fails — aborting the run
    /// that produced the batch — exactly when a stage cannot apply, and
    /// then collects nothing.
    pub fn produce(self, ctx: &ProduceContext, batch: Batch) -> (r: (Sink, Result<(), Error>))
        requires
            batch@.wf(),
        ensures
            r.0.stages() == self.stages(),
            match push_through(self.stages(), batch@) {
                Some(out) => r.1 is Ok && r.0.log() == self.log().push(out),
                None => (r.1 matches Err(e) && e is BadInput) && r.0.log() == self.log(),
            },
        decreases self,
    {
        match self {
            Sink::Collect(v) => {
                let ghost pre = v@.map_values(|b: Batch| b@);
                let mut v = v;
                let ghost bv = batch@;
                v.push(batch);
                proof {
                    assert(v@.map_values(|b: Batch| b@) =~= pre.push(bv));
                }
                (Sink::Collect(v), Ok(()))
            },
            Sink::Filtered { index, inner } => {
                let ghost st = Sink::Filtered { index, inner }.stages();
                proof {
                    assert(st[0] == index as int);
                    assert(st.drop_first() =~= inner.stages());
                }
                match filter_batch(&batch, index) {
                    Ok(out) => {
                        let (next, res) = (*inner).produce(ctx, out);
                        let folded = Sink::Filtered { index, inner: Box::new(next) };
                        proof {
                            assert(folded.stages() =~= st);
                        }
                        (folded, res)
                    },
                    Err(e) => {
                        let folded = Sink::Filtered { index, inner };
                        (folded, Err(e))
                    },
                }
            },
        }
    }
}

proof fn lemma_push_all_element(stages: Seq<int>, bs: Seq<BatchView>, i: int)
    requires
        0 <= i < bs.len(),
        push_through(stages, bs[i]) is None,
    ensures
        push_all(stages, bs) is None,
    decreases bs.len(),
{
    if i < bs.len() - 1 {
        lemma_push_all_element(stages, bs.drop_last(), i);
    }
}

proof fn lemma_push_all_cons(x: int, stages: Seq<int>, bs: Seq<BatchView>)
    ensures
        (forall|i: int| 0 <= i < bs.len() ==> spec_filter_batch(#[trigger] bs[i], x) is Some)
            ==> push_all(seq![x] + stages, bs) == push_all(
            stages,
            bs.map_values(|b: BatchView| spec_filter_batch(b, x).unwrap()),
        ),
        !(forall|i: int| 0 <= i < bs.len() ==> spec_filter_batch(#[trigger] bs[i], x) is Some)
            ==> push_all(seq![x] + stages, bs) is None,
    decreases bs.len(),
{
    let cons = seq![x] + stages;
    assert(cons[0] == x);
    assert(cons.drop_first() =~= stages);
    if bs.len() == 0 {
        assert(bs.map_values(|b: BatchView| spec_filter_batch(b, x).unwrap()) =~= Seq::<
            BatchView,
        >::empty());
    } else {
        lemma_push_all_cons(x, stages, bs.drop_last());
        let mapped = bs.map_values(|b: BatchView| spec_filter_batch(b, x).unwrap());
        assert(mapped.drop_last() =~= bs.drop_last().map_values(
            |b: BatchView| spec_filter_batch(b, x).unwrap(),
        ));
        if forall|i: int| 0 <= i < bs.len() ==> spec_filter_batch(#[trigger] bs[i], x) is Some {
            assert(forall|i: int|
                0 <= i < bs.drop_last().len() ==> spec_filter_batch(
                    #[trigger] bs.drop_last()[i],
                    x,
                ) is Some);
            assert(mapped.last() == spec_filter_batch(bs.last(), x).unwrap());
        } else {
            let w = choose|i: int|
                0 <= i < bs.len() && !(spec_filter_batch(#[trigger] bs[i], x) is Some);
            if w == bs.len() - 1 {
            } else {
                assert(!(spec_filter_batch(bs.drop_last()[w], x) is Some));
            }
        }
    }
}

/// An in-memory table: the verified embodiment of the source-connector
/// batch contract. A file-backed connector reads its rows outside the
/// verified core and hands them over as equal-length typed columns; `run`
/// then emits them as batches of at most `BATCH_SIZE` rows, each with an
/// all-false retraction column attached, since a source reads pure
/// append-only data.
pub struct MemorySource {
    pub fields: Vec<Field>,
    pub columns: Vec<Column>,
}

/// The in-memory table is well-formed: one column per field, of the
/// declared type, all columns of one length, at least one column.
pub open spec fn memory_wf(m: MemorySource) -> bool {
    &&& m.fields@.len() == m.columns@.len()
    &&& m.fields@.len() >= 1
    &&& forall|i: int| 0 <= i < m.columns@.len() ==> (#[trigger] m.columns@[i]@).dt == fields_view(
        m.fields@,
    )[i].data_type
    &&& forall|i: int| 0 <= i < m.columns@.len() ==> (#[trigger] m.columns@[i]@).vals.len()
        == m.columns@[0]@.vals.len()
}

impl MemorySource {
    /// Build an in-memory table after checking the shape of the data.
    pub fn new(fields: Vec<Field>, columns: Vec<Column>) -> (r: Result<MemorySource, Error>)
        ensures
            match r {
                Ok(m) => {
                    &&& memory_wf(m)
                    &&& m.fields@ == fields@
                    &&& m.columns@ == columns@
                },
                Err(e) => !memory_wf(MemorySource { fields, columns }) && e is BadInput,
            },
    {
        let ghost cand = MemorySource { fields, columns };
        if columns.len() != fields.len() {
            return Err(Error::BadInput(String::from_str("column count does not match the fields")));
        }
        if columns.len() == 0 {
            return Err(Error::BadInput(String::from_str("a source needs at least one column")));
        }
        let rows = columns[0].len();
        let mut i: usize = 0;
        while i < columns.len()
            invariant
                i <= columns@.len(),
                columns@.len() == fields@.len(),
                columns@.len() >= 1,
                rows == columns@[0]@.vals.len(),
                cand == (MemorySource { fields, columns }),
                forall|j: int| 0 <= j < i ==> (#[trigger] columns@[j]@).dt == fields_view(
                    fields@,
                )[j].data_type,
                forall|j: int| 0 <= j < i ==> (#[trigger] columns@[j]@).vals.len() == rows,
            decreases columns@.len() - i,
        {
            if columns[i].data_type() != fields[i].data_type {
                return Err(Error::BadInput(String::from_str("column type does not match field")));
            }
            if columns[i].len() != rows {
                return Err(Error::BadInput(String::from_str("columns differ in length")));
            }
            i += 1;
        }
        Ok(MemorySource { fields, columns })
    }
}

/// One emitted chunk: the rows `offset..end` of every column, with the
/// all-false retraction column attached, under the source schema.
pub open spec fn chunk_at(
    fields: Seq<FieldView>,
    cols: Seq<ColumnView>,
    offset: int,
    end: int,
) -> BatchView {
    BatchView {
        schema: fields.push(retraction_field_view()),
        cols: cols.map_values(
            |c: ColumnView| ColumnView { dt: c.dt, vals: c.vals.subrange(offset, end) },
        ).push(
            ColumnView {
                dt: DataType::Boolean,
                vals: Seq::new((end - offset) as nat, |i: int| GroupByScalarView::Boolean(false)),
            },
        ),
    }
}

/// The batches a source emits for its rows from `offset` on, in chunks
/// of at most `BATCH_SIZE` rows.
pub open spec fn chunks_from(
    fields: Seq<FieldView>,
    cols: Seq<ColumnView>,
    rows: int,
    offset: int,
) -> Seq<BatchView>
    decreases rows - offset,
{
    if offset >= rows {
        Seq::empty()
    } else {
        let end = if offset + BATCH_SIZE as int <= rows {
            offset + BATCH_SIZE as int
        } else {
            rows
        };
        seq![chunk_at(fields, cols, offset, end)] + chunks_from(fields, cols, rows, end)
    }
}

/// Everything an in-memory source emits.
pub open spec fn memory_output(m: MemorySource) -> Seq<BatchView> {
    chunks_from(
        fields_view(m.fields@),
        m.columns@.map_values(|c: Column| c@),
        m.columns@[0]@.vals.len() as int,
        0,
    )
}

/// Every batch a source emits is well-formed, carries the source schema
/// ending in the retraction field, and asserts all its rows: each
/// retraction value is false.
pub proof fn lemma_source_batches_append_only(
    fields: Seq<FieldView>,
    cols: Seq<ColumnView>,
    rows: int,
    offset: int,
    i: int,
)
    requires
        0 <= i < chunks_from(fields, cols, rows, offset).len(),
    ensures
        ({
            let b = chunks_from(fields, cols, rows, offset)[i];
            &&& b.schema == fields.push(retraction_field_view())
            &&& b.schema.last() == retraction_field_view()
            &&& b.cols.len() == cols.len() + 1
            &&& forall|r: int|
                0 <= r < b.retractions().len() ==> b.retractions()[r]
                    == GroupByScalarView::Boolean(false)
        }),
    decreases rows - offset,
{
    if i > 0 {
        let end = if offset + BATCH_SIZE as int <= rows {
            offset + BATCH_SIZE as int
        } else {
            rows
        };
        lemma_source_batches_append_only(fields, cols, rows, end, i - 1);
    }
}

/// A physical operator: an in-memory source or a selection over an
/// upstream operator.
pub enum Node {
    Memory(MemorySource),
    Filter(Filter),
}

/// Selection: keep the rows at which the named boolean column is true.
pub struct Filter {
    pub field: Identifier,
    pub source: Box<Node>,
}

impl Filter {
    pub fn new(field: Identifier, source: Box<Node>) -> (r: Filter)
        ensures
            r.field == field,
            r.source == source,
    {
        Filter { field, source }
    }
}

impl Node {
    /// The operator tree is well-formed: its sources hold shaped data.
    pub open spec fn wf(&self) -> bool
        decreases self,
    {
        match self {
            Node::Memory(m) => memory_wf(*m),
            Node::Filter(f) => f.source.wf(),
        }
    }

    /// Whether every column reference of the tree resolves against its
    /// operator's upstream schema. Resolution happens before any batch
    /// flows, so an unresolvable name fails a run before it emits.
    pub open spec fn names_resolve(&self) -> bool
        decreases self,
    {
        match self {
            Node::Memory(_) => true,
            Node::Filter(f) => f.source.names_resolve() && field_index(
                f.source.spec_schema(),
                f.field.name_seq(),
            ) is Some,
        }
    }

    /// The output schema: a source presents its fields plus the
    /// retraction field; selection preserves its upstream schema.
    pub open spec fn spec_schema(&self) -> Seq<FieldView>
        decreases self,
    {
        match self {
            Node::Memory(m) => fields_view(m.fields@).push(retraction_field_view()),
            Node::Filter(f) => f.source.spec_schema(),
        }
    }

    /// The stream this operator emits, or nothing when it must fail: an
    /// unresolvable predicate name, or a predicate column that is not
    /// boolean.
    pub open spec fn spec_output(&self) -> Option<Seq<BatchView>>
        decreases self,
    {
        match self {
            Node::Memory(m) => Some(memory_output(*m)),
            Node::Filter(f) => match f.source.spec_output() {
                None => None,
                Some(bs) => match field_index(f.source.spec_schema(), f.field.name_seq()) {
                    None => None,
                    Some(i) => if forall|j: int|
                        0 <= j < bs.len() ==> spec_filter_batch(#[trigger] bs[j], i) is Some {
                        Some(bs.map_values(|b: BatchView| spec_filter_batch(b, i).unwrap()))
                    } else {
                        None
                    },
                },
            },
        }
    }

    /// Compute this operator's output schema under the enclosing scope.
    pub fn schema(&self, schema_context: &SchemaContext) -> (r: Result<Schema, Error>)
        ensures
            r matches Ok(s) && s@ == self.spec_schema(),
        decreases self,
    {
        match self {
            Node::Memory(m) => Ok(source_schema(&m.fields)),
            Node::Filter(f) => f.source.schema(schema_context),
        }
    }

    /// Drive this operator and its upstream sources to completion,
    /// handing each emitted batch to `out` as it is produced. Succeeds
    /// exactly when the operator can emit its whole stream and every
    /// batch passes the consumer's stages; any failure aborts the chain
    /// at once and is returned.
    pub fn run(&self, ctx: &ExecutionContext, out: Sink) -> (r: Result<Sink, Error>)
        requires
            self.wf(),
        ensures
            match r {
                Ok(s2) => {
                    &&& s2.stages() == out.stages()
                    &&& self.spec_output() matches Some(bs)
                    &&& push_all(out.stages(), bs) matches Some(logs) && s2.log() == out.log()
                        + logs
                },
                Err(e) => {
                    &&& !(self.spec_output() matches Some(bs) && push_all(
                        out.stages(),
                        bs,
                    ) is Some)
                    &&& (self.names_resolve() ==> e is BadInput)
                    &&& (!self.names_resolve() ==> e is Columnar)
                },
            },
        decreases self,
    {
        match self {
            Node::Memory(m) => run_memory(m, out),
            Node::Filter(f) => {
                let sctx = SchemaContext::Variables(share_variables(&ctx.variable_context));
                let src_schema = match f.source.schema(&sctx) {
                    Ok(s) => s,
                    Err(e) => {
                        return Err(e);
                    },
                };
                let name = f.field.to_string();
                let index = match src_schema.index_of(name.as_str()) {
                    Ok(i) => i,
                    Err(e) => {
                        return Err(e);
                    },
                };
                let inner_sink = Sink::Filtered { index, inner: Box::new(out) };
                let ghost inner_stages = inner_sink.stages();
                proof {
                    lemma_push_all_cons(
                        index as int,
                        out.stages(),
                        match f.source.spec_output() {
                            Some(bs) => bs,
                            None => Seq::empty(),
                        },
                    );
                }
                match f.source.run(ctx, inner_sink) {
                    Ok(s2) => {
                        proof {
                            assert(s2.stages() =~= seq![index as int] + out.stages());
                        }
                        match s2 {
                            Sink::Filtered { index: i2, inner: in2 } => {
                                proof {
                                    let st = Sink::Filtered { index: i2, inner: in2 }.stages();
                                    assert(st[0] == i2 as int);
                                    assert(st.drop_first() =~= in2.stages());
                                    assert((seq![index as int] + out.stages())[0] == index as int);
                                    assert((seq![index as int] + out.stages()).drop_first()
                                        =~= out.stages());
                                }
                                Ok(*in2)
                            },
                            Sink::Collect(_) => unreached(),
                        }
                    },
                    Err(e) => Err(e),
                }
            },
        }
    }
}

/// Emit an in-memory source's rows in order: batches of at most
/// `BATCH_SIZE` rows, each with the all-false retraction column, each
/// handed to `out` before the next is built.
fn run_memory(m: &MemorySource, out: Sink) -> (r: Result<Sink, Error>)
    requires
        memory_wf(*m),
    ensures
        match r {
            Ok(s2) => {
                &&& s2.stages() == out.stages()
                &&& push_all(out.stages(), memory_output(*m)) matches Some(logs) && s2.log()
                    == out.log() + logs
            },
            Err(e) => push_all(out.stages(), memory_output(*m)) is None && e is BadInput,
        },
{
    let ghost fields_v = fields_view(m.fields@);
    let ghost cols_v = m.columns@.map_values(|c: Column| c@);
    let ghost full = memory_output(*m);
    let rows = m.columns[0].len();
    let ghost rows_i = rows as int;
    let mut sink = out;
    let mut offset: usize = 0;
    let ghost mut produced: Seq<BatchView> = Seq::empty();
    let ghost mut plog: Seq<BatchView> = Seq::empty();
    proof {
        assert(full =~= produced + chunks_from(fields_v, cols_v, rows_i, 0));
    }
    while offset < rows
        invariant
            offset <= rows,
            memory_wf(*m),
            fields_v == fields_view(m.fields@),
            cols_v == m.columns@.map_values(|c: Column| c@),
            rows == m.columns@[0]@.vals.len(),
            rows_i == rows as int,
            full == memory_output(*m),
            full == produced + chunks_from(fields_v, cols_v, rows_i, offset as int),
            push_all(out.stages(), produced) == Some(plog),
            sink.stages() == out.stages(),
            sink.log() == out.log() + plog,
        decreases rows - offset,
    {
        let end = if rows - offset > BATCH_SIZE {
            offset + BATCH_SIZE
        } else {
            rows
        };
        let mut chunk_cols: Vec<Column> = Vec::new();
        let mut i: usize = 0;
        while i < m.columns.len()
            invariant
                i <= m.columns@.len(),
                memory_wf(*m),
                cols_v == m.columns@.map_values(|c: Column| c@),
                rows == m.columns@[0]@.vals.len(),
                offset <= end <= rows,
                chunk_cols@.len() == i,
                forall|j: int|
                    0 <= j < i ==> (#[trigger] chunk_cols@[j]@) == (ColumnView {
                        dt: cols_v[j].dt,
                        vals: cols_v[j].vals.subrange(offset as int, end as int),
                    }),
            decreases m.columns@.len() - i,
        {
            proof {
                assert(cols_v[i as int] == m.columns@[i as int]@);
                assert(m.columns@[i as int]@.vals.len() == rows);
            }
            let sliced = m.columns[i].slice(offset, end);
            chunk_cols.push(sliced);
            i += 1;
        }
        let retraction = all_false_column(end - offset);
        chunk_cols.push(retraction);
        let chunk_schema = source_schema(&m.fields);
        let chunk = Batch { schema: chunk_schema, columns: chunk_cols };
        let ghost cv = chunk_at(fields_v, cols_v, offset as int, end as int);
        proof {
            assert(chunk@.cols =~~= cv.cols);
            assert(chunk@ =~~= cv);
            assert forall|j: int| 0 <= j < chunk@.cols.len() implies (#[trigger] chunk@.cols[j]).vals.len()
                == (end - offset) as nat by {}
            assert(chunk@.num_rows() == (end - offset) as nat);
            assert(chunk@.wf());
            assert(chunks_from(fields_v, cols_v, rows_i, offset as int) =~= seq![cv] + chunks_from(
                fields_v,
                cols_v,
                rows_i,
                end as int,
            ));
        }
        let (next_sink, res) = sink.produce(&ProduceContext {}, chunk);
        sink = next_sink;
        match res {
            Ok(_) => {
                proof {
                    let stepped = push_through(out.stages(), cv).unwrap();
                    let prev_prod = produced;
                    let prev_log = plog;
                    produced = produced.push(cv);
                    plog = plog.push(stepped);
                    assert(produced.drop_last() =~= prev_prod);
                    assert(produced.last() == cv);
                    assert(push_all(out.stages(), produced) == Some(plog));
                    assert(out.log() + plog =~= (out.log() + prev_log).push(stepped));
                    assert(full =~= produced + chunks_from(fields_v, cols_v, rows_i, end as int));
                }
            },
            Err(e) => {
                proof {
                    assert(full[produced.len() as int] == cv);
                    lemma_push_all_element(out.stages(), full, produced.len() as int);
                }
                return Err(e);
            },
        }
        offset = end;
    }
    proof {
        assert(chunks_from(fields_v, cols_v, rows_i, offset as int) =~= Seq::<BatchView>::empty());
        assert(full =~= produced);
    }
    Ok(sink)
}

/// Configuration of a CSV-file source: the path to read. The file I/O
/// itself stands outside the verified core, which receives the rows as
/// an in-memory source presenting the same batch contract.
pub struct CSVSource<'a> {
    path: &'a str,
}

impl<'a> CSVSource<'a> {
    pub closed spec fn spec_path(&self) -> Seq<char> {
        self.path@
    }

    pub fn new(path: &'a str) -> (r: CSVSource<'a>)
        ensures
            r.spec_path() == path@,
    {
        CSVSource { path }
    }

    /// The configured path.
    pub fn path(&self) -> (r: &'a str)
        ensures
            r@ == self.spec_path(),
    {
        self.path
    }
}

/// Configuration of a JSON-file source: the path to read. As with the
/// CSV source, only the configuration lives here; the reader hands the
/// rows to an in-memory source.
pub struct JSONSource {
    path: String,
}

impl JSONSource {
    pub closed spec fn spec_path(&self) -> Seq<char> {
        self.path@
    }

    pub fn new(path: String) -> (r: JSONSource)
        ensures
            r.spec_path() == path@,
    {
        JSONSource { path }
    }

    /// The configured path.
    pub fn path(&self) -> (r: &str)
        ensures
            r@ == self.spec_path(),
    {
        self.path.as_str()
    }
}

} // verus!
