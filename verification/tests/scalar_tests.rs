use std::collections::BTreeSet;
use streamql::error::Error;
use streamql::scalar::{DataType, GroupByScalar, ScalarValue};

#[test]
fn data_type_of_each_scalar_kind() {
    assert_eq!(ScalarValue::Null.data_type(), Ok(DataType::Null));
    assert_eq!(ScalarValue::Boolean(true).data_type(), Ok(DataType::Boolean));
    assert_eq!(
        ScalarValue::Float32Bits(1.5f32.to_bits()).data_type(),
        Ok(DataType::Float32)
    );
    assert_eq!(
        ScalarValue::Float64Bits(2.5f64.to_bits()).data_type(),
        Ok(DataType::Float64)
    );
    assert_eq!(ScalarValue::Int8(-1).data_type(), Ok(DataType::Int8));
    assert_eq!(ScalarValue::Int16(-2).data_type(), Ok(DataType::Int16));
    assert_eq!(ScalarValue::Int32(-3).data_type(), Ok(DataType::Int32));
    assert_eq!(ScalarValue::Int64(-4).data_type(), Ok(DataType::Int64));
    assert_eq!(ScalarValue::UInt8(1).data_type(), Ok(DataType::UInt8));
    assert_eq!(ScalarValue::UInt16(2).data_type(), Ok(DataType::UInt16));
    assert_eq!(ScalarValue::UInt32(3).data_type(), Ok(DataType::UInt32));
    assert_eq!(ScalarValue::UInt64(4).data_type(), Ok(DataType::UInt64));
    assert_eq!(
        ScalarValue::Utf8("x".to_string()).data_type(),
        Ok(DataType::Utf8)
    );
}

#[test]
fn struct_scalar_fails_explicitly() {
    // the struct variant is an extension point: it must fail, not crash
    let v = ScalarValue::Struct(vec![ScalarValue::Int64(1)]);
    assert_eq!(v.data_type(), Err(Error::Unexpected));
}

#[test]
fn group_scalars_order_and_hash_structurally() {
    let mut set = BTreeSet::new();
    set.insert(GroupByScalar::Utf8("b".to_string()));
    set.insert(GroupByScalar::Utf8("a".to_string()));
    set.insert(GroupByScalar::Utf8("a".to_string()));
    assert_eq!(set.len(), 2);
    // floats group by their canonical bit pattern, so equal values meet
    let x = GroupByScalar::Float64Bits(0.5f64.to_bits());
    let y = GroupByScalar::Float64Bits(0.5f64.to_bits());
    assert_eq!(x, y);
}

#[test]
fn error_kinds_have_labels() {
    assert_eq!(Error::Unexpected.kind_label(), "unexpected error");
    assert_eq!(
        Error::BadInput("x".to_string()).kind_label(),
        "bad input"
    );
    assert_eq!(
        Error::Columnar("y".to_string()).kind_label(),
        "columnar library error"
    );
    assert_eq!(
        Error::Wrapped("z".to_string(), Box::new(Error::Unexpected)).kind_label(),
        "wrapped error"
    );
}
