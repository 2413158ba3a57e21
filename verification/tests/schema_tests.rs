use std::sync::Arc;
use streamql::error::Error;
use streamql::scalar::DataType;
use streamql::schema::{
    EmptySchemaContext, Field, Schema, SchemaContext, SchemaContextWithSchema, VariableContext,
};

fn field(name: &str, data_type: DataType) -> Field {
    Field {
        name: name.to_string(),
        data_type,
        nullable: false,
    }
}

fn schema_of(names: &[(&str, DataType)]) -> Arc<Schema> {
    Arc::new(Schema {
        fields: names.iter().map(|(n, t)| field(n, *t)).collect(),
    })
}

#[test]
fn empty_context_resolves_nothing() {
    let ctx = EmptySchemaContext {};
    assert_eq!(ctx.field_with_name("a").unwrap_err(), Error::Unexpected);
}

#[test]
fn outer_name_resolves_through_the_chain() {
    let outer = SchemaContext::WithSchema(SchemaContextWithSchema {
        previous: Box::new(SchemaContext::Empty(EmptySchemaContext {})),
        schema: schema_of(&[("outer_col", DataType::Int64)]),
    });
    let inner = SchemaContextWithSchema {
        previous: Box::new(outer),
        schema: schema_of(&[("inner_col", DataType::Utf8)]),
    };
    let f = inner.field_with_name("outer_col").unwrap();
    assert_eq!(f.data_type, DataType::Int64);
}

#[test]
fn inner_name_shadows_outer() {
    let outer = SchemaContext::WithSchema(SchemaContextWithSchema {
        previous: Box::new(SchemaContext::Empty(EmptySchemaContext {})),
        schema: schema_of(&[("col", DataType::Int64)]),
    });
    let inner = SchemaContextWithSchema {
        previous: Box::new(outer),
        schema: schema_of(&[("col", DataType::Utf8)]),
    };
    let f = inner.field_with_name("col").unwrap();
    assert_eq!(f.data_type, DataType::Utf8);
}

#[test]
fn absent_name_fails_with_wrapped_error() {
    let inner = SchemaContextWithSchema {
        previous: Box::new(SchemaContext::Empty(EmptySchemaContext {})),
        schema: schema_of(&[("col", DataType::Int64)]),
    };
    match inner.field_with_name("missing").unwrap_err() {
        Error::Wrapped(local, ancestor) => {
            assert!(local.contains("missing"));
            assert_eq!(*ancestor, Error::Unexpected);
        }
        other => panic!("expected a wrapped error, got {:?}", other),
    }
}

#[test]
fn variable_context_chain() {
    let outer = Arc::new(VariableContext {
        previous: None,
        schema: schema_of(&[("outer_col", DataType::Int64)]),
        variables: vec![],
    });
    let inner = VariableContext {
        previous: Some(outer),
        schema: schema_of(&[("inner_col", DataType::Utf8)]),
        variables: vec![],
    };
    assert_eq!(
        inner.field_with_name("outer_col").unwrap().data_type,
        DataType::Int64
    );
    assert_eq!(
        inner.field_with_name("inner_col").unwrap().data_type,
        DataType::Utf8
    );
    assert!(matches!(
        inner.field_with_name("nowhere").unwrap_err(),
        Error::Wrapped(_, _)
    ));
}

#[test]
fn schema_lookup_is_first_match() {
    let s = schema_of(&[("a", DataType::Int64), ("a", DataType::Utf8)]);
    assert_eq!(s.index_of("a").unwrap(), 0);
    assert!(matches!(s.index_of("b"), Err(Error::Columnar(_))));
    assert_eq!(s.field_with_name("a").unwrap().data_type, DataType::Int64);
}
