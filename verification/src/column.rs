//! Typed columnar storage: a column is a vector of plain values of one
//! declared type, and the unit operations the operators need — selection
//! by a boolean mask, slicing, and per-row key extraction.

use vstd::prelude::*;

use crate::scalar::{DataType, GroupByScalar, GroupByScalarView};

verus! {

/// The elements of `s` at the positions where `mask` is true, in order.
pub open spec fn filter_seq<T>(s: Seq<T>, mask: Seq<bool>) -> Seq<T>
    decreases s.len(),
{
    if s.len() == 0 || mask.len() == 0 {
        Seq::empty()
    } else {
        let rest = filter_seq(s.drop_last(), mask.drop_last());
        if mask.last() {
            rest.push(s.last())
        } else {
            rest
        }
    }
}

/// How many entries of `mask` are true.
pub open spec fn count_trues(mask: Seq<bool>) -> nat
    decreases mask.len(),
{
    if mask.len() == 0 {
        0
    } else {
        count_trues(mask.drop_last()) + if mask.last() {
            1nat
        } else {
            0nat
        }
    }
}

/// A mask has no more true entries than entries.
pub proof fn lemma_count_trues_bound(mask: Seq<bool>)
    ensures
        count_trues(mask) <= mask.len(),
    decreases mask.len(),
{
    if mask.len() > 0 {
        lemma_count_trues_bound(mask.drop_last());
    }
}

/// Selection keeps exactly as many rows as the mask has true entries.
pub proof fn lemma_filter_seq_len<T>(s: Seq<T>, mask: Seq<bool>)
    requires
        s.len() == mask.len(),
    ensures
        filter_seq(s, mask).len() == count_trues(mask),
    decreases s.len(),
{
    if s.len() > 0 {
        lemma_filter_seq_len(s.drop_last(), mask.drop_last());
    }
}

/// Selection commutes with mapping a function over the rows.
pub proof fn lemma_filter_seq_map<T, U>(s: Seq<T>, mask: Seq<bool>, f: spec_fn(T) -> U)
    requires
        s.len() == mask.len(),
    ensures
        filter_seq(s.map_values(f), mask) == filter_seq(s, mask).map_values(f),
    decreases s.len(),
{
    if s.len() == 0 {
        assert(filter_seq(s.map_values(f), mask) =~= filter_seq(s, mask).map_values(f));
    } else {
        lemma_filter_seq_map(s.drop_last(), mask.drop_last(), f);
        assert(s.map_values(f).drop_last() =~= s.drop_last().map_values(f));
        if mask.last() {
            assert(filter_seq(s, mask).map_values(f) =~= filter_seq(s.drop_last(),
                mask.drop_last()).map_values(f).push(f(s.last())));
        }
    }
}

/// A column of rows, all of one scalar type. Floats are carried as
/// canonical IEEE-754 bit patterns, as everywhere in the core.
#[derive(Debug, Clone, PartialEq)]
pub enum Column {
    Boolean(Vec<bool>),
    Float32Bits(Vec<u32>),
    Float64Bits(Vec<u64>),
    Int8(Vec<i8>),
    Int16(Vec<i16>),
    Int32(Vec<i32>),
    Int64(Vec<i64>),
    UInt8(Vec<u8>),
    UInt16(Vec<u16>),
    UInt32(Vec<u32>),
    UInt64(Vec<u64>),
    Utf8(Vec<String>),
}

/// The mathematical value of a column: its type tag and its rows as
/// scalar key values.
#[verifier::ext_equal]
pub struct ColumnView {
    pub dt: DataType,
    pub vals: Seq<GroupByScalarView>,
}

impl View for Column {
    type V = ColumnView;

    open spec fn view(&self) -> ColumnView {
        match self {
            Column::Boolean(v) => ColumnView {
                dt: DataType::Boolean,
                vals: v@.map_values(|x: bool| GroupByScalarView::Boolean(x)),
            },
            Column::Float32Bits(v) => ColumnView {
                dt: DataType::Float32,
                vals: v@.map_values(|x: u32| GroupByScalarView::Float32Bits(x)),
            },
            Column::Float64Bits(v) => ColumnView {
                dt: DataType::Float64,
                vals: v@.map_values(|x: u64| GroupByScalarView::Float64Bits(x)),
            },
            Column::Int8(v) => ColumnView {
                dt: DataType::Int8,
                vals: v@.map_values(|x: i8| GroupByScalarView::Int8(x)),
            },
            Column::Int16(v) => ColumnView {
                dt: DataType::Int16,
                vals: v@.map_values(|x: i16| GroupByScalarView::Int16(x)),
            },
            Column::Int32(v) => ColumnView {
                dt: DataType::Int32,
                vals: v@.map_values(|x: i32| GroupByScalarView::Int32(x)),
            },
            Column::Int64(v) => ColumnView {
                dt: DataType::Int64,
                vals: v@.map_values(|x: i64| GroupByScalarView::Int64(x)),
            },
            Column::UInt8(v) => ColumnView {
                dt: DataType::UInt8,
                vals: v@.map_values(|x: u8| GroupByScalarView::UInt8(x)),
            },
            Column::UInt16(v) => ColumnView {
                dt: DataType::UInt16,
                vals: v@.map_values(|x: u16| GroupByScalarView::UInt16(x)),
            },
            Column::UInt32(v) => ColumnView {
                dt: DataType::UInt32,
                vals: v@.map_values(|x: u32| GroupByScalarView::UInt32(x)),
            },
            Column::UInt64(v) => ColumnView {
                dt: DataType::UInt64,
                vals: v@.map_values(|x: u64| GroupByScalarView::UInt64(x)),
            },
            Column::Utf8(v) => ColumnView {
                dt: DataType::Utf8,
                vals: v@.map_values(|x: String| GroupByScalarView::Utf8(x@)),
            },
        }
    }
}

impl Column {
    /// The number of rows in the column.
    pub fn len(&self) -> (r: usize)
        ensures
            r == self@.vals.len(),
    {
        match self {
            Column::Boolean(v) => v.len(),
            Column::Float32Bits(v) => v.len(),
            Column::Float64Bits(v) => v.len(),
            Column::Int8(v) => v.len(),
            Column::Int16(v) => v.len(),
            Column::Int32(v) => v.len(),
            Column::Int64(v) => v.len(),
            Column::UInt8(v) => v.len(),
            Column::UInt16(v) => v.len(),
            Column::UInt32(v) => v.len(),
            Column::UInt64(v) => v.len(),
            Column::Utf8(v) => v.len(),
        }
    }

    /// The declared type of the column's rows.
    pub fn data_type(&self) -> (r: DataType)
        ensures
            r == self@.dt,
    {
        match self {
            Column::Boolean(_) => DataType::Boolean,
            Column::Float32Bits(_) => DataType::Float32,
            Column::Float64Bits(_) => DataType::Float64,
            Column::Int8(_) => DataType::Int8,
            Column::Int16(_) => DataType::Int16,
            Column::Int32(_) => DataType::Int32,
            Column::Int64(_) => DataType::Int64,
            Column::UInt8(_) => DataType::UInt8,
            Column::UInt16(_) => DataType::UInt16,
            Column::UInt32(_) => DataType::UInt32,
            Column::UInt64(_) => DataType::UInt64,
            Column::Utf8(_) => DataType::Utf8,
        }
    }

    /// The key value of one row.
    pub fn value_at(&self, row: usize) -> (r: GroupByScalar)
        requires
            row < self@.vals.len(),
        ensures
            r@ == self@.vals[row as int],
    {
        match self {
            Column::Boolean(v) => GroupByScalar::Boolean(v[row]),
            Column::Float32Bits(v) => GroupByScalar::Float32Bits(v[row]),
            Column::Float64Bits(v) => GroupByScalar::Float64Bits(v[row]),
            Column::Int8(v) => GroupByScalar::Int8(v[row]),
            Column::Int16(v) => GroupByScalar::Int16(v[row]),
            Column::Int32(v) => GroupByScalar::Int32(v[row]),
            Column::Int64(v) => GroupByScalar::Int64(v[row]),
            Column::UInt8(v) => GroupByScalar::UInt8(v[row]),
            Column::UInt16(v) => GroupByScalar::UInt16(v[row]),
            Column::UInt32(v) => GroupByScalar::UInt32(v[row]),
            Column::UInt64(v) => GroupByScalar::UInt64(v[row]),
            Column::Utf8(v) => GroupByScalar::Utf8(v[row].clone()),
        }
    }

    /// Vectorized selection: keep the rows at which `mask` is true. The
    /// declared type is preserved; the rows are the masked subsequence.
    pub fn filter(&self, mask: &Vec<bool>) -> (r: Column)
        requires
            mask@.len() == self@.vals.len(),
        ensures
            r@.dt == self@.dt,
            r@.vals == filter_seq(self@.vals, mask@),
    {
        match self {
            Column::Boolean(v) => {
                let out = filter_vec(v, mask);
                proof {
                    lemma_filter_seq_map(v@, mask@, |x: bool| GroupByScalarView::Boolean(x));
                }
                Column::Boolean(out)
            },
            Column::Float32Bits(v) => {
                let out = filter_vec(v, mask);
                proof {
                    lemma_filter_seq_map(v@, mask@, |x: u32| GroupByScalarView::Float32Bits(x));
                }
                Column::Float32Bits(out)
            },
            Column::Float64Bits(v) => {
                let out = filter_vec(v, mask);
                proof {
                    lemma_filter_seq_map(v@, mask@, |x: u64| GroupByScalarView::Float64Bits(x));
                }
                Column::Float64Bits(out)
            },
            Column::Int8(v) => {
                let out = filter_vec(v, mask);
                proof {
                    lemma_filter_seq_map(v@, mask@, |x: i8| GroupByScalarView::Int8(x));
                }
                Column::Int8(out)
            },
            Column::Int16(v) => {
                let out = filter_vec(v, mask);
                proof {
                    lemma_filter_seq_map(v@, mask@, |x: i16| GroupByScalarView::Int16(x));
                }
                Column::Int16(out)
            },
            Column::Int32(v) => {
                let out = filter_vec(v, mask);
                proof {
                    lemma_filter_seq_map(v@, mask@, |x: i32| GroupByScalarView::Int32(x));
                }
                Column::Int32(out)
            },
            Column::Int64(v) => {
                let out = filter_vec(v, mask);
                proof {
                    lemma_filter_seq_map(v@, mask@, |x: i64| GroupByScalarView::Int64(x));
                }
                Column::Int64(out)
            },
            Column::UInt8(v) => {
                let out = filter_vec(v, mask);
                proof {
                    lemma_filter_seq_map(v@, mask@, |x: u8| GroupByScalarView::UInt8(x));
                }
                Column::UInt8(out)
            },
            Column::UInt16(v) => {
                let out = filter_vec(v, mask);
                proof {
                    lemma_filter_seq_map(v@, mask@, |x: u16| GroupByScalarView::UInt16(x));
                }
                Column::UInt16(out)
            },
            Column::UInt32(v) => {
                let out = filter_vec(v, mask);
                proof {
                    lemma_filter_seq_map(v@, mask@, |x: u32| GroupByScalarView::UInt32(x));
                }
                Column::UInt32(out)
            },
            Column::UInt64(v) => {
                let out = filter_vec(v, mask);
                proof {
                    lemma_filter_seq_map(v@, mask@, |x: u64| GroupByScalarView::UInt64(x));
                }
                Column::UInt64(out)
            },
            Column::Utf8(v) => {
                let out = filter_strings(v, mask);
                proof {
                    lemma_filter_seq_map(v@, mask@, |x: String| GroupByScalarView::Utf8(x@));
                }
                Column::Utf8(out)
            },
        }
    }

    /// The rows of the half-open range `start..end`, as a column of the
    /// same declared type.
    pub fn slice(&self, start: usize, end: usize) -> (r: Column)
        requires
            start <= end <= self@.vals.len(),
        ensures
            r@.dt == self@.dt,
            r@.vals == self@.vals.subrange(start as int, end as int),
    {
        match self {
            Column::Boolean(v) => {
                let out = slice_vec(v, start, end);
                proof {
                    assert(out@.map_values(|x: bool| GroupByScalarView::Boolean(x)) =~= self@
                        .vals
                        .subrange(start as int, end as int));
                }
                Column::Boolean(out)
            },
            Column::Float32Bits(v) => {
                let out = slice_vec(v, start, end);
                proof {
                    assert(out@.map_values(|x: u32| GroupByScalarView::Float32Bits(x)) =~= self@
                        .vals
                        .subrange(start as int, end as int));
                }
                Column::Float32Bits(out)
            },
            Column::Float64Bits(v) => {
                let out = slice_vec(v, start, end);
                proof {
                    assert(out@.map_values(|x: u64| GroupByScalarView::Float64Bits(x)) =~= self@
                        .vals
                        .subrange(start as int, end as int));
                }
                Column::Float64Bits(out)
            },
            Column::Int8(v) => {
                let out = slice_vec(v, start, end);
                proof {
                    assert(out@.map_values(|x: i8| GroupByScalarView::Int8(x)) =~= self@
                        .vals
                        .subrange(start as int, end as int));
                }
                Column::Int8(out)
            },
            Column::Int16(v) => {
                let out = slice_vec(v, start, end);
                proof {
                    assert(out@.map_values(|x: i16| GroupByScalarView::Int16(x)) =~= self@
                        .vals
                        .subrange(start as int, end as int));
                }
                Column::Int16(out)
            },
            Column::Int32(v) => {
                let out = slice_vec(v, start, end);
                proof {
                    assert(out@.map_values(|x: i32| GroupByScalarView::Int32(x)) =~= self@
                        .vals
                        .subrange(start as int, end as int));
                }
                Column::Int32(out)
            },
            Column::Int64(v) => {
                let out = slice_vec(v, start, end);
                proof {
                    assert(out@.map_values(|x: i64| GroupByScalarView::Int64(x)) =~= self@
                        .vals
                        .subrange(start as int, end as int));
                }
                Column::Int64(out)
            },
            Column::UInt8(v) => {
                let out = slice_vec(v, start, end);
                proof {
                    assert(out@.map_values(|x: u8| GroupByScalarView::UInt8(x)) =~= self@
                        .vals
                        .subrange(start as int, end as int));
                }
                Column::UInt8(out)
            },
            Column::UInt16(v) => {
                let out = slice_vec(v, start, end);
                proof {
                    assert(out@.map_values(|x: u16| GroupByScalarView::UInt16(x)) =~= self@
                        .vals
                        .subrange(start as int, end as int));
                }
                Column::UInt16(out)
            },
            Column::UInt32(v) => {
                let out = slice_vec(v, start, end);
                proof {
                    assert(out@.map_values(|x: u32| GroupByScalarView::UInt32(x)) =~= self@
                        .vals
                        .subrange(start as int, end as int));
                }
                Column::UInt32(out)
            },
            Column::UInt64(v) => {
                let out = slice_vec(v, start, end);
                proof {
                    assert(out@.map_values(|x: u64| GroupByScalarView::UInt64(x)) =~= self@
                        .vals
                        .subrange(start as int, end as int));
                }
                Column::UInt64(out)
            },
            Column::Utf8(v) => {
                let out = slice_strings(v, start, end);
                proof {
                    assert(out@.map_values(|x: String| GroupByScalarView::Utf8(x@)) =~= self@
                        .vals
                        .subrange(start as int, end as int));
                }
                Column::Utf8(out)
            },
        }
    }
}

/// An all-false boolean column of the given length: the retraction column
/// a source attaches to a freshly read batch.
pub fn all_false_column(len: usize) -> (r: Column)
    ensures
        r@.dt == DataType::Boolean,
        r@.vals.len() == len,
        forall|i: int|
            0 <= i < len ==> r@.vals[i] == GroupByScalarView::Boolean(false),
{
    let mut v: Vec<bool> = Vec::new();
    let mut i: usize = 0;
    while i < len
        invariant
            i <= len,
            v@.len() == i,
            forall|j: int| 0 <= j < i ==> v@[j] == false,
        decreases len - i,
    {
        v.push(false);
        i += 1;
    }
    Column::Boolean(v)
}

fn filter_vec<T: Copy>(data: &Vec<T>, mask: &Vec<bool>) -> (r: Vec<T>)
    requires
        data@.len() == mask@.len(),
    ensures
        r@ == filter_seq(data@, mask@),
{
    let mut r: Vec<T> = Vec::new();
    let mut i: usize = 0;
    while i < data.len()
        invariant
            i <= data@.len(),
            data@.len() == mask@.len(),
            r@ == filter_seq(data@.take(i as int), mask@.take(i as int)),
        decreases data@.len() - i,
    {
        proof {
            assert(data@.take(i + 1).drop_last() =~= data@.take(i as int));
            assert(mask@.take(i + 1).drop_last() =~= mask@.take(i as int));
        }
        if mask[i] {
            r.push(data[i]);
        }
        i += 1;
    }
    proof {
        assert(data@.take(data@.len() as int) =~= data@);
        assert(mask@.take(mask@.len() as int) =~= mask@);
    }
    r
}

fn filter_strings(data: &Vec<String>, mask: &Vec<bool>) -> (r: Vec<String>)
    requires
        data@.len() == mask@.len(),
    ensures
        r@ == filter_seq(data@, mask@),
{
    let mut r: Vec<String> = Vec::new();
    let mut i: usize = 0;
    while i < data.len()
        invariant
            i <= data@.len(),
            data@.len() == mask@.len(),
            r@ == filter_seq(data@.take(i as int), mask@.take(i as int)),
        decreases data@.len() - i,
    {
        proof {
            assert(data@.take(i + 1).drop_last() =~= data@.take(i as int));
            assert(mask@.take(i + 1).drop_last() =~= mask@.take(i as int));
        }
        if mask[i] {
            r.push(data[i].clone());
        }
        i += 1;
    }
    proof {
        assert(data@.take(data@.len() as int) =~= data@);
        assert(mask@.take(mask@.len() as int) =~= mask@);
    }
    r
}

fn slice_vec<T: Copy>(data: &Vec<T>, start: usize, end: usize) -> (r: Vec<T>)
    requires
        start <= end <= data@.len(),
    ensures
        r@ == data@.subrange(start as int, end as int),
{
    let mut r: Vec<T> = Vec::new();
    let mut i: usize = start;
    while i < end
        invariant
            start <= i <= end <= data@.len(),
            r@ == data@.subrange(start as int, i as int),
        decreases end - i,
    {
        r.push(data[i]);
        proof {
            assert(data@.subrange(start as int, i + 1) =~= data@.subrange(start as int, i as int)
                .push(data@[i as int]));
        }
        i += 1;
    }
    r
}

fn slice_strings(data: &Vec<String>, start: usize, end: usize) -> (r: Vec<String>)
    requires
        start <= end <= data@.len(),
    ensures
        r@ == data@.subrange(start as int, end as int),
{
    let mut r: Vec<String> = Vec::new();
    let mut i: usize = start;
    while i < end
        invariant
            start <= i <= end <= data@.len(),
            r@ == data@.subrange(start as int, i as int),
        decreases end - i,
    {
        r.push(data[i].clone());
        proof {
            assert(data@.subrange(start as int, i + 1) =~= data@.subrange(start as int, i as int)
                .push(data@[i as int]));
        }
        i += 1;
    }
    r
}

/// Extract the composite key of one row of `columns` into the reusable
/// scratch buffer `key_vec`, one component per column.
pub fn create_key(columns: &Vec<Column>, row: usize, key_vec: &mut Vec<GroupByScalar>)
    requires
        old(key_vec)@.len() == columns@.len(),
        forall|i: int| 0 <= i < columns@.len() ==> row < #[trigger] columns@[i]@.vals.len(),
    ensures
        final(key_vec)@.len() == columns@.len(),
        forall|i: int|
            0 <= i < columns@.len() ==> final(key_vec)@[i]@ == #[trigger] columns@[i]@.vals[row as int],
{
    let mut i: usize = 0;
    while i < columns.len()
        invariant
            i <= columns@.len(),
            key_vec@.len() == columns@.len(),
            forall|j: int| 0 <= j < columns@.len() ==> row < #[trigger] columns@[j]@.vals.len(),
            forall|j: int|
                0 <= j < i ==> key_vec@[j]@ == #[trigger] columns@[j]@.vals[row as int],
        decreases columns@.len() - i,
    {
        let v = columns[i].value_at(row);
        key_vec.set(i, v);
        i += 1;
    }
}

} // verus!
