use streamql::batch::{filter_batch, make_source_batch, retractions_field, Batch};
use streamql::column::Column;
use streamql::error::Error;
use streamql::scalar::DataType;
use streamql::schema::{Field, Schema};

fn field(name: &str, data_type: DataType) -> Field {
    Field {
        name: name.to_string(),
        data_type,
        nullable: false,
    }
}

#[test]
fn source_batch_ends_with_all_false_retraction_column() {
    let fields = vec![field("a", DataType::Int64), field("b", DataType::Utf8)];
    let columns = vec![
        Column::Int64(vec![1, 2, 3]),
        Column::Utf8(vec!["p".to_string(), "q".to_string(), "r".to_string()]),
    ];
    let batch = make_source_batch(&fields, columns).unwrap();
    let last_field = batch.schema.fields.last().unwrap();
    assert_eq!(last_field.name, retractions_field());
    assert_eq!(last_field.data_type, DataType::Boolean);
    assert_eq!(
        batch.columns.last().unwrap(),
        &Column::Boolean(vec![false, false, false])
    );
    assert_eq!(batch.num_rows(), 3);
}

#[test]
fn source_batch_rejects_mismatched_columns() {
    let fields = vec![field("a", DataType::Int64)];
    let r = make_source_batch(&fields, vec![Column::Utf8(vec!["x".to_string()])]);
    assert!(matches!(r, Err(Error::BadInput(_))));
    let r2 = make_source_batch(&vec![], vec![]);
    assert!(matches!(r2, Err(Error::BadInput(_))));
}

fn sample_batch() -> Batch {
    let schema = Schema {
        fields: vec![
            field("age", DataType::Int64),
            field("weight", DataType::Float64),
            field("adult", DataType::Boolean),
            field("retraction", DataType::Boolean),
        ],
    };
    let columns = vec![
        Column::Int64(vec![12, 34, 56, 7]),
        Column::Float64Bits(vec![
            1.5f64.to_bits(),
            70.25f64.to_bits(),
            80.5f64.to_bits(),
            20.0f64.to_bits(),
        ]),
        Column::Boolean(vec![false, true, true, false]),
        Column::Boolean(vec![false, true, false, false]),
    ];
    Batch::new(schema, columns).unwrap()
}

#[test]
fn filter_keeps_exactly_the_true_rows() {
    let batch = sample_batch();
    let out = filter_batch(&batch, 2).unwrap();
    // two true values in the predicate column: two output rows
    assert_eq!(out.num_rows(), 2);
    assert_eq!(out.schema, batch.schema);
    assert_eq!(out.columns[0], Column::Int64(vec![34, 56]));
    assert_eq!(
        out.columns[1],
        Column::Float64Bits(vec![70.25f64.to_bits(), 80.5f64.to_bits()])
    );
    // the retraction column passes through the same predicate: the
    // retracted row stays marked as retracted
    assert_eq!(out.columns[3], Column::Boolean(vec![true, false]));
}

#[test]
fn filter_rejects_bad_predicate_columns() {
    let batch = sample_batch();
    assert!(matches!(filter_batch(&batch, 0), Err(Error::BadInput(_))));
    assert!(matches!(filter_batch(&batch, 9), Err(Error::BadInput(_))));
}

#[test]
fn batch_construction_is_validated() {
    let schema = Schema {
        fields: vec![field("a", DataType::Int64), field("retraction", DataType::Boolean)],
    };
    let ok = Batch::new(
        schema.clone(),
        vec![Column::Int64(vec![1]), Column::Boolean(vec![false])],
    );
    assert!(ok.is_ok());
    let wrong_len = Batch::new(
        schema.clone(),
        vec![Column::Int64(vec![1, 2]), Column::Boolean(vec![false])],
    );
    assert!(matches!(wrong_len, Err(Error::BadInput(_))));
    let wrong_type = Batch::new(
        schema.clone(),
        vec![Column::Utf8(vec!["x".to_string()]), Column::Boolean(vec![false])],
    );
    assert!(matches!(wrong_type, Err(Error::BadInput(_))));
    let no_retraction = Batch::new(
        Schema {
            fields: vec![field("a", DataType::Int64), field("b", DataType::Boolean)],
        },
        vec![Column::Int64(vec![1]), Column::Boolean(vec![false])],
    );
    assert!(matches!(no_retraction, Err(Error::BadInput(_))));
}
