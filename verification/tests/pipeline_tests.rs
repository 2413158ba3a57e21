use std::sync::Arc;
use streamql::batch::BATCH_SIZE;
use streamql::column::Column;
use streamql::error::Error;
use streamql::node::{
    noop_meta_send, CSVSource, Filter, JSONSource, MemorySource, MetadataMessage, Node,
    ProduceContext, Sink,
};
use streamql::scalar::{DataType, Identifier};
use streamql::schema::{ExecutionContext, Field, Schema, VariableContext};

fn field(name: &str, data_type: DataType) -> Field {
    Field {
        name: name.to_string(),
        data_type,
        nullable: false,
    }
}

fn exec_ctx() -> ExecutionContext {
    ExecutionContext {
        variable_context: Arc::new(VariableContext {
            previous: None,
            schema: Arc::new(Schema { fields: vec![] }),
            variables: vec![],
        }),
    }
}

fn people_source() -> MemorySource {
    MemorySource::new(
        vec![field("age", DataType::Int64), field("adult", DataType::Boolean)],
        vec![
            Column::Int64(vec![12, 34, 56, 7]),
            Column::Boolean(vec![false, true, true, false]),
        ],
    )
    .unwrap()
}

#[test]
fn memory_source_emits_one_batch_with_retractions() {
    let node = Node::Memory(people_source());
    let sink = node.run(&exec_ctx(), Sink::new_collector()).unwrap();
    let batches = sink.into_batches();
    assert_eq!(batches.len(), 1);
    let b = &batches[0];
    assert_eq!(b.num_rows(), 4);
    assert_eq!(b.schema.fields.last().unwrap().name, "retraction");
    assert_eq!(
        b.columns.last().unwrap(),
        &Column::Boolean(vec![false, false, false, false])
    );
}

#[test]
fn memory_source_chunks_large_inputs() {
    let rows = BATCH_SIZE + 100;
    let data: Vec<i64> = (0..rows as i64).collect();
    let source = MemorySource::new(
        vec![field("n", DataType::Int64)],
        vec![Column::Int64(data)],
    )
    .unwrap();
    let node = Node::Memory(source);
    let sink = node.run(&exec_ctx(), Sink::new_collector()).unwrap();
    let batches = sink.into_batches();
    assert_eq!(batches.len(), 2);
    assert_eq!(batches[0].num_rows(), BATCH_SIZE);
    assert_eq!(batches[1].num_rows(), 100);
}

#[test]
fn filter_pipeline_selects_true_rows() {
    let node = Node::Filter(Filter::new(
        Identifier::SimpleIdentifier("adult".to_string()),
        Box::new(Node::Memory(people_source())),
    ));
    let sink = node.run(&exec_ctx(), Sink::new_collector()).unwrap();
    let batches = sink.into_batches();
    assert_eq!(batches.len(), 1);
    let b = &batches[0];
    assert_eq!(b.num_rows(), 2);
    assert_eq!(b.columns[0], Column::Int64(vec![34, 56]));
    assert_eq!(b.columns[2], Column::Boolean(vec![false, false]));
    // the filter's output schema is its input schema
    assert_eq!(b.schema.fields.len(), 3);
    assert_eq!(b.schema.fields.last().unwrap().name, "retraction");
}

#[test]
fn filter_schema_is_source_schema() {
    let node = Node::Filter(Filter::new(
        Identifier::SimpleIdentifier("adult".to_string()),
        Box::new(Node::Memory(people_source())),
    ));
    let source_schema = Node::Memory(people_source())
        .schema(&streamql::schema::SchemaContext::Empty(
            streamql::schema::EmptySchemaContext {},
        ))
        .unwrap();
    let filter_schema = node
        .schema(&streamql::schema::SchemaContext::Empty(
            streamql::schema::EmptySchemaContext {},
        ))
        .unwrap();
    assert_eq!(filter_schema, source_schema);
}

#[test]
fn filter_on_unknown_column_aborts_the_run() {
    let node = Node::Filter(Filter::new(
        Identifier::SimpleIdentifier("nonexistent".to_string()),
        Box::new(Node::Memory(people_source())),
    ));
    let r = node.run(&exec_ctx(), Sink::new_collector());
    assert!(matches!(r, Err(Error::Columnar(_))));
}

#[test]
fn filter_on_non_boolean_column_aborts_the_run() {
    let node = Node::Filter(Filter::new(
        Identifier::SimpleIdentifier("age".to_string()),
        Box::new(Node::Memory(people_source())),
    ));
    let r = node.run(&exec_ctx(), Sink::new_collector());
    assert!(matches!(r, Err(Error::BadInput(_))));
}

#[test]
fn namespaced_identifier_renders_dotted() {
    let id = Identifier::NamespacedIdentifier("t".to_string(), "col".to_string());
    assert_eq!(id.to_string(), "t.col");
    let simple = Identifier::SimpleIdentifier("col".to_string());
    assert_eq!(simple.to_string(), "col");
}

#[test]
fn source_configurations_carry_their_paths() {
    let csv = CSVSource::new("cats.csv");
    assert_eq!(csv.path(), "cats.csv");
    let json = JSONSource::new("cats.json".to_string());
    assert_eq!(json.path(), "cats.json");
}

#[test]
fn noop_meta_send_accepts_end_of_stream() {
    assert!(noop_meta_send(&ProduceContext {}, MetadataMessage::EndOfStream).is_ok());
}

#[test]
fn produce_feeds_a_collector_directly() {
    let fields = vec![field("n", DataType::Int64)];
    let batch =
        streamql::batch::make_source_batch(&fields, vec![Column::Int64(vec![1, 2])]).unwrap();
    let (sink, r) = Sink::new_collector().produce(&ProduceContext {}, batch);
    assert!(r.is_ok());
    assert_eq!(sink.into_batches().len(), 1);
}
