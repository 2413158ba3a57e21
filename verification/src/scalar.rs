//! The scalar value model: column references, the closed set of scalar
//! kinds, and the hashable, totally ordered projection of scalars used as
//! composite grouping keys.
//!
//! Floating-point values are carried as their canonical IEEE-754 bit
//! patterns (`u32`/`u64`), with NaN normalized to a single pattern at the
//! boundary where such a value enters the core. Equality, hashing and the
//! derived total order are therefore structural on the bit pattern, which
//! is reflexive and consistent, unlike the natural float comparison.

use vstd::prelude::*;

verus! {

/// A column reference: either a simple name or a namespaced
/// (qualifier, name) pair.
#[derive(Debug, Clone, PartialEq, Eq, PartialOrd, Ord)]
pub enum Identifier {
    SimpleIdentifier(String),
    NamespacedIdentifier(String, String),
}

impl Identifier {
    /// The dotted rendering of the reference: `name`, or `qualifier.name`.
    pub fn to_string(&self) -> (r: String)
        ensures
            r@ == self.name_seq(),
    {
        match self {
            Identifier::SimpleIdentifier(id) => id.clone(),
            Identifier::NamespacedIdentifier(namespace, id) => {
                let mut output = namespace.clone();
                output.append(".");
                output.append(id.as_str());
                output
            },
        }
    }

    /// The character sequence that `to_string` renders.
    pub open spec fn name_seq(&self) -> Seq<char> {
        match self {
            Identifier::SimpleIdentifier(id) => id@,
            Identifier::NamespacedIdentifier(namespace, id) => namespace@ + "."@ + id@,
        }
    }
}

/// The closed set of column/scalar types the engine understands.
#[derive(Debug, Clone, Copy, PartialEq, Eq, Structural)]
pub enum DataType {
    Null,
    Boolean,
    Float32,
    Float64,
    Int8,
    Int16,
    Int32,
    Int64,
    UInt8,
    UInt16,
    UInt32,
    UInt64,
    Utf8,
}

/// A single scalar value. Floats are held as canonical bit patterns; the
/// struct variant is an acknowledged extension point that every operation
/// rejects explicitly rather than mishandling silently.
#[derive(Debug, PartialEq, Eq, Hash)]
pub enum ScalarValue {
    Null,
    Boolean(bool),
    Float32Bits(u32),
    Float64Bits(u64),
    Int8(i8),
    Int16(i16),
    Int32(i32),
    Int64(i64),
    UInt8(u8),
    UInt16(u16),
    UInt32(u32),
    UInt64(u64),
    Utf8(String),
    Struct(Vec<ScalarValue>),
}

impl ScalarValue {
    /// The declared type of this value, or an error for the struct
    /// variant, whose handling is not implemented yet.
    pub fn data_type(&self) -> (r: Result<DataType, crate::error::Error>)
        ensures
            r == self.spec_data_type(),
    {
        match self {
            ScalarValue::Null => Ok(DataType::Null),
            ScalarValue::Boolean(_) => Ok(DataType::Boolean),
            ScalarValue::Float32Bits(_) => Ok(DataType::Float32),
            ScalarValue::Float64Bits(_) => Ok(DataType::Float64),
            ScalarValue::Int8(_) => Ok(DataType::Int8),
            ScalarValue::Int16(_) => Ok(DataType::Int16),
            ScalarValue::Int32(_) => Ok(DataType::Int32),
            ScalarValue::Int64(_) => Ok(DataType::Int64),
            ScalarValue::UInt8(_) => Ok(DataType::UInt8),
            ScalarValue::UInt16(_) => Ok(DataType::UInt16),
            ScalarValue::UInt32(_) => Ok(DataType::UInt32),
            ScalarValue::UInt64(_) => Ok(DataType::UInt64),
            ScalarValue::Utf8(_) => Ok(DataType::Utf8),
            ScalarValue::Struct(_) => Err(crate::error::Error::Unexpected),
        }
    }

    pub open spec fn spec_data_type(&self) -> Result<DataType, crate::error::Error> {
        match self {
            ScalarValue::Null => Ok(DataType::Null),
            ScalarValue::Boolean(_) => Ok(DataType::Boolean),
            ScalarValue::Float32Bits(_) => Ok(DataType::Float32),
            ScalarValue::Float64Bits(_) => Ok(DataType::Float64),
            ScalarValue::Int8(_) => Ok(DataType::Int8),
            ScalarValue::Int16(_) => Ok(DataType::Int16),
            ScalarValue::Int32(_) => Ok(DataType::Int32),
            ScalarValue::Int64(_) => Ok(DataType::Int64),
            ScalarValue::UInt8(_) => Ok(DataType::UInt8),
            ScalarValue::UInt16(_) => Ok(DataType::UInt16),
            ScalarValue::UInt32(_) => Ok(DataType::UInt32),
            ScalarValue::UInt64(_) => Ok(DataType::UInt64),
            ScalarValue::Utf8(_) => Ok(DataType::Utf8),
            ScalarValue::Struct(_) => Err(crate::error::Error::Unexpected),
        }
    }
}

/// The projection of `ScalarValue` usable as one component of a composite
/// grouping key. Every variant hashes and compares structurally (floats by
/// canonical bit pattern), so the derived `Ord` and `Hash` give the total
/// order and the equality-consistent hash the key model requires.
#[derive(Debug, Clone, PartialEq, Eq, PartialOrd, Ord, Hash)]
pub enum GroupByScalar {
    Boolean(bool),
    Float32Bits(u32),
    Float64Bits(u64),
    Int8(i8),
    Int16(i16),
    Int32(i32),
    Int64(i64),
    UInt8(u8),
    UInt16(u16),
    UInt32(u32),
    UInt64(u64),
    Utf8(String),
}

/// The mathematical value of a `GroupByScalar`: text is a character
/// sequence, everything else is carried as is.
pub enum GroupByScalarView {
    Boolean(bool),
    Float32Bits(u32),
    Float64Bits(u64),
    Int8(i8),
    Int16(i16),
    Int32(i32),
    Int64(i64),
    UInt8(u8),
    UInt16(u16),
    UInt32(u32),
    UInt64(u64),
    Utf8(Seq<char>),
}

impl View for GroupByScalar {
    type V = GroupByScalarView;

    open spec fn view(&self) -> GroupByScalarView {
        match self {
            GroupByScalar::Boolean(x) => GroupByScalarView::Boolean(*x),
            GroupByScalar::Float32Bits(x) => GroupByScalarView::Float32Bits(*x),
            GroupByScalar::Float64Bits(x) => GroupByScalarView::Float64Bits(*x),
            GroupByScalar::Int8(x) => GroupByScalarView::Int8(*x),
            GroupByScalar::Int16(x) => GroupByScalarView::Int16(*x),
            GroupByScalar::Int32(x) => GroupByScalarView::Int32(*x),
            GroupByScalar::Int64(x) => GroupByScalarView::Int64(*x),
            GroupByScalar::UInt8(x) => GroupByScalarView::UInt8(*x),
            GroupByScalar::UInt16(x) => GroupByScalarView::UInt16(*x),
            GroupByScalar::UInt32(x) => GroupByScalarView::UInt32(*x),
            GroupByScalar::UInt64(x) => GroupByScalarView::UInt64(*x),
            GroupByScalar::Utf8(x) => GroupByScalarView::Utf8(x@),
        }
    }
}

/// The mathematical value of a composite key.
pub open spec fn key_view(k: Seq<GroupByScalar>) -> Seq<GroupByScalarView> {
    k.map_values(|g: GroupByScalar| g@)
}

/// Structural equality of two key components, decided at the level of
/// their mathematical values.
pub fn group_eq(a: &GroupByScalar, b: &GroupByScalar) -> (r: bool)
    ensures
        r == (a@ == b@),
{
    match (a, b) {
        (GroupByScalar::Boolean(x), GroupByScalar::Boolean(y)) => x == y,
        (GroupByScalar::Float32Bits(x), GroupByScalar::Float32Bits(y)) => x == y,
        (GroupByScalar::Float64Bits(x), GroupByScalar::Float64Bits(y)) => x == y,
        (GroupByScalar::Int8(x), GroupByScalar::Int8(y)) => x == y,
        (GroupByScalar::Int16(x), GroupByScalar::Int16(y)) => x == y,
        (GroupByScalar::Int32(x), GroupByScalar::Int32(y)) => x == y,
        (GroupByScalar::Int64(x), GroupByScalar::Int64(y)) => x == y,
        (GroupByScalar::UInt8(x), GroupByScalar::UInt8(y)) => x == y,
        (GroupByScalar::UInt16(x), GroupByScalar::UInt16(y)) => x == y,
        (GroupByScalar::UInt32(x), GroupByScalar::UInt32(y)) => x == y,
        (GroupByScalar::UInt64(x), GroupByScalar::UInt64(y)) => x == y,
        (GroupByScalar::Utf8(x), GroupByScalar::Utf8(y)) => x.eq(y),
        _ => false,
    }
}

/// Structural equality of two composite keys.
pub fn key_eq(a: &Vec<GroupByScalar>, b: &Vec<GroupByScalar>) -> (r: bool)
    ensures
        r == (key_view(a@) == key_view(b@)),
{
    if a.len() != b.len() {
        proof {
            assert(key_view(a@).len() != key_view(b@).len());
        }
        return false;
    }
    let mut i: usize = 0;
    while i < a.len()
        invariant
            i <= a.len(),
            a@.len() == b@.len(),
            forall|j: int| 0 <= j < i ==> key_view(a@)[j] == key_view(b@)[j],
        decreases a.len() - i,
    {
        if !group_eq(&a[i], &b[i]) {
            proof {
                assert(key_view(a@)[i as int] != key_view(b@)[i as int]);
            }
            return false;
        }
        i += 1;
    }
    proof {
        assert(key_view(a@) =~= key_view(b@));
    }
    true
}


/// The variant rank of a key component, for ordering across kinds.
pub open spec fn gkv_rank(v: GroupByScalarView) -> int {
    match v {
        GroupByScalarView::Boolean(_) => 0,
        GroupByScalarView::Float32Bits(_) => 1,
        GroupByScalarView::Float64Bits(_) => 2,
        GroupByScalarView::Int8(_) => 3,
        GroupByScalarView::Int16(_) => 4,
        GroupByScalarView::Int32(_) => 5,
        GroupByScalarView::Int64(_) => 6,
        GroupByScalarView::UInt8(_) => 7,
        GroupByScalarView::UInt16(_) => 8,
        GroupByScalarView::UInt32(_) => 9,
        GroupByScalarView::UInt64(_) => 10,
        GroupByScalarView::Utf8(_) => 11,
    }
}

/// Lexicographic order on character sequences, by code point. UTF-8 byte
/// order coincides with code-point order, so this is also the byte order
/// of the rendered strings.
pub open spec fn chars_lt(a: Seq<char>, b: Seq<char>) -> bool
    decreases a.len(),
{
    if b.len() == 0 {
        false
    } else if a.len() == 0 {
        true
    } else if a.first() != b.first() {
        (a.first() as u32) < (b.first() as u32)
    } else {
        chars_lt(a.drop_first(), b.drop_first())
    }
}

/// The strict total order on key components: by variant rank, then by
/// the component's value — booleans false-first, numerics and float bit
/// patterns numerically, text lexicographically.
pub open spec fn gkv_lt(a: GroupByScalarView, b: GroupByScalarView) -> bool {
    if gkv_rank(a) != gkv_rank(b) {
        gkv_rank(a) < gkv_rank(b)
    } else {
        match (a, b) {
            (GroupByScalarView::Boolean(x), GroupByScalarView::Boolean(y)) => !x && y,
            (GroupByScalarView::Float32Bits(x), GroupByScalarView::Float32Bits(y)) => x < y,
            (GroupByScalarView::Float64Bits(x), GroupByScalarView::Float64Bits(y)) => x < y,
            (GroupByScalarView::Int8(x), GroupByScalarView::Int8(y)) => x < y,
            (GroupByScalarView::Int16(x), GroupByScalarView::Int16(y)) => x < y,
            (GroupByScalarView::Int32(x), GroupByScalarView::Int32(y)) => x < y,
            (GroupByScalarView::Int64(x), GroupByScalarView::Int64(y)) => x < y,
            (GroupByScalarView::UInt8(x), GroupByScalarView::UInt8(y)) => x < y,
            (GroupByScalarView::UInt16(x), GroupByScalarView::UInt16(y)) => x < y,
            (GroupByScalarView::UInt32(x), GroupByScalarView::UInt32(y)) => x < y,
            (GroupByScalarView::UInt64(x), GroupByScalarView::UInt64(y)) => x < y,
            (GroupByScalarView::Utf8(x), GroupByScalarView::Utf8(y)) => chars_lt(x, y),
            _ => false,
        }
    }
}

/// The strict total order on composite keys: lexicographic over the
/// components, shorter prefixes first.
pub open spec fn key_lt(a: Seq<GroupByScalarView>, b: Seq<GroupByScalarView>) -> bool
    decreases a.len(),
{
    if b.len() == 0 {
        false
    } else if a.len() == 0 {
        true
    } else if a.first() != b.first() {
        gkv_lt(a.first(), b.first())
    } else {
        key_lt(a.drop_first(), b.drop_first())
    }
}

/// `chars_lt` is trichotomous and asymmetric.
pub proof fn lemma_chars_lt_trichotomy(a: Seq<char>, b: Seq<char>)
    ensures
        a == b || chars_lt(a, b) || chars_lt(b, a),
        !(chars_lt(a, b) && chars_lt(b, a)),
        chars_lt(a, b) ==> a != b,
    decreases a.len(),
{
    if a.len() == 0 || b.len() == 0 {
        if a.len() == b.len() {
            assert(a =~= b);
        }
    } else if a.first() != b.first() {
        if (a.first() as u32) < (b.first() as u32) {
            assert(chars_lt(a, b));
        } else if (b.first() as u32) < (a.first() as u32) {
            assert(chars_lt(b, a));
        } else {
            lemma_char_cast_injective(a.first(), b.first());
            assert(false);
        }
    } else {
        lemma_chars_lt_trichotomy(a.drop_first(), b.drop_first());
        if a.drop_first() == b.drop_first() {
            assert forall|i: int| 0 <= i < a.len() implies a[i] == b[i] by {
                if i > 0 {
                    assert(a[i] == a.drop_first()[i - 1]);
                    assert(b[i] == b.drop_first()[i - 1]);
                }
            }
            assert(a =~= b);
        }
        if a == b {
            assert(a.drop_first() =~= b.drop_first());
        }
    }
}

/// `chars_lt` is transitive.
pub proof fn lemma_chars_lt_trans(a: Seq<char>, b: Seq<char>, c: Seq<char>)
    requires
        chars_lt(a, b),
        chars_lt(b, c),
    ensures
        chars_lt(a, c),
    decreases a.len() + b.len() + c.len(),
{
    if a.len() == 0 {
    } else {
        if a.first() == b.first() && b.first() == c.first() {
            lemma_chars_lt_trans(a.drop_first(), b.drop_first(), c.drop_first());
        }
    }
}

/// `gkv_lt` is trichotomous and asymmetric.
pub proof fn lemma_gkv_lt_trichotomy(a: GroupByScalarView, b: GroupByScalarView)
    ensures
        a == b || gkv_lt(a, b) || gkv_lt(b, a),
        !(gkv_lt(a, b) && gkv_lt(b, a)),
        gkv_lt(a, b) ==> a != b,
{
    match (a, b) {
        (GroupByScalarView::Utf8(x), GroupByScalarView::Utf8(y)) => {
            lemma_chars_lt_trichotomy(x, y);
        },
        _ => {},
    }
}

/// `gkv_lt` is transitive.
pub proof fn lemma_gkv_lt_trans(a: GroupByScalarView, b: GroupByScalarView, c: GroupByScalarView)
    requires
        gkv_lt(a, b),
        gkv_lt(b, c),
    ensures
        gkv_lt(a, c),
{
    match (a, b) {
        (GroupByScalarView::Utf8(x), GroupByScalarView::Utf8(y)) => {
            match c {
                GroupByScalarView::Utf8(z) => {
                    lemma_chars_lt_trans(x, y, z);
                    lemma_chars_lt_trichotomy(x, z);
                },
                _ => {},
            }
        },
        _ => {},
    }
}

/// `key_lt` is trichotomous and asymmetric.
pub proof fn lemma_key_lt_trichotomy(a: Seq<GroupByScalarView>, b: Seq<GroupByScalarView>)
    ensures
        a == b || key_lt(a, b) || key_lt(b, a),
        !(key_lt(a, b) && key_lt(b, a)),
        key_lt(a, b) ==> a != b,
    decreases a.len(),
{
    if a.len() == 0 || b.len() == 0 {
        if a.len() == b.len() {
            assert(a =~= b);
        }
    } else if a.first() != b.first() {
        lemma_gkv_lt_trichotomy(a.first(), b.first());
    } else {
        lemma_key_lt_trichotomy(a.drop_first(), b.drop_first());
        if a.drop_first() == b.drop_first() {
            assert forall|i: int| 0 <= i < a.len() implies a[i] == b[i] by {
                if i > 0 {
                    assert(a[i] == a.drop_first()[i - 1]);
                    assert(b[i] == b.drop_first()[i - 1]);
                }
            }
            assert(a =~= b);
        }
        if a == b {
            assert(a.drop_first() =~= b.drop_first());
        }
    }
}

/// `key_lt` is transitive.
pub proof fn lemma_key_lt_trans(
    a: Seq<GroupByScalarView>,
    b: Seq<GroupByScalarView>,
    c: Seq<GroupByScalarView>,
)
    requires
        key_lt(a, b),
        key_lt(b, c),
    ensures
        key_lt(a, c),
    decreases a.len() + b.len() + c.len(),
{
    if a.len() == 0 {
    } else {
        if a.first() == b.first() && b.first() == c.first() {
            lemma_key_lt_trans(a.drop_first(), b.drop_first(), c.drop_first());
        } else if a.first() != b.first() && b.first() != c.first() {
            lemma_gkv_lt_trans(a.first(), b.first(), c.first());
            lemma_gkv_lt_trichotomy(a.first(), c.first());
        } else if a.first() != b.first() {
            lemma_gkv_lt_trichotomy(a.first(), b.first());
        } else {
            lemma_gkv_lt_trichotomy(b.first(), c.first());
        }
    }
}

proof fn lemma_char_cast_injective(a: char, b: char)
    requires
        a as u32 == b as u32,
    ensures
        a == b,
{
}

proof fn lemma_chars_lt_common_prefix(a: Seq<char>, b: Seq<char>, i: int)
    requires
        0 <= i <= a.len(),
        i <= b.len(),
        forall|j: int| 0 <= j < i ==> a[j] == b[j],
    ensures
        chars_lt(a, b) == chars_lt(a.skip(i), b.skip(i)),
    decreases i,
{
    if i > 0 {
        assert(a.first() == b.first());
        lemma_chars_lt_common_prefix(a.drop_first(), b.drop_first(), i - 1);
        assert forall|j: int| 0 <= j < i - 1 implies a.drop_first()[j] == b.drop_first()[j] by {
            assert(a.drop_first()[j] == a[j + 1]);
            assert(b.drop_first()[j] == b[j + 1]);
        }
        assert(a.drop_first().skip(i - 1) =~= a.skip(i));
        assert(b.drop_first().skip(i - 1) =~= b.skip(i));
    } else {
        assert(a.skip(0) =~= a);
        assert(b.skip(0) =~= b);
    }
}

proof fn lemma_key_lt_common_prefix(a: Seq<GroupByScalarView>, b: Seq<GroupByScalarView>, i: int)
    requires
        0 <= i <= a.len(),
        i <= b.len(),
        forall|j: int| 0 <= j < i ==> a[j] == b[j],
    ensures
        key_lt(a, b) == key_lt(a.skip(i), b.skip(i)),
    decreases i,
{
    if i > 0 {
        assert(a.first() == b.first());
        lemma_key_lt_common_prefix(a.drop_first(), b.drop_first(), i - 1);
        assert forall|j: int| 0 <= j < i - 1 implies a.drop_first()[j] == b.drop_first()[j] by {
            assert(a.drop_first()[j] == a[j + 1]);
            assert(b.drop_first()[j] == b[j + 1]);
        }
        assert(a.drop_first().skip(i - 1) =~= a.skip(i));
        assert(b.drop_first().skip(i - 1) =~= b.skip(i));
    } else {
        assert(a.skip(0) =~= a);
        assert(b.skip(0) =~= b);
    }
}

fn rank_of(g: &GroupByScalar) -> (r: u32)
    ensures
        r as int == gkv_rank(g@),
{
    match g {
        GroupByScalar::Boolean(_) => 0,
        GroupByScalar::Float32Bits(_) => 1,
        GroupByScalar::Float64Bits(_) => 2,
        GroupByScalar::Int8(_) => 3,
        GroupByScalar::Int16(_) => 4,
        GroupByScalar::Int32(_) => 5,
        GroupByScalar::Int64(_) => 6,
        GroupByScalar::UInt8(_) => 7,
        GroupByScalar::UInt16(_) => 8,
        GroupByScalar::UInt32(_) => 9,
        GroupByScalar::UInt64(_) => 10,
        GroupByScalar::Utf8(_) => 11,
    }
}

/// Lexicographic comparison of two strings, decided at the level of
/// their character sequences.
fn string_less(a: &String, b: &String) -> (r: bool)
    ensures
        r == chars_lt(a@, b@),
{
    let alen = a.as_str().unicode_len();
    let blen = b.as_str().unicode_len();
    let mut i: usize = 0;
    while i < alen && i < blen
        invariant
            i <= alen,
            i <= blen,
            alen == a@.len(),
            blen == b@.len(),
            forall|j: int| 0 <= j < i ==> a@[j] == b@[j],
        decreases alen - i,
    {
        let ca = a.as_str().get_char(i);
        let cb = b.as_str().get_char(i);
        if ca != cb {
            proof {
                lemma_chars_lt_common_prefix(a@, b@, i as int);
                assert(a@.skip(i as int).first() == a@[i as int]);
                assert(b@.skip(i as int).first() == b@[i as int]);
            }
            return (ca as u32) < (cb as u32);
        }
        i += 1;
    }
    proof {
        lemma_chars_lt_common_prefix(a@, b@, i as int);
    }
    alen < blen
}

/// The strict order on key components; agrees with `gkv_lt` on the
/// components' mathematical values.
pub fn gkv_less(a: &GroupByScalar, b: &GroupByScalar) -> (r: bool)
    ensures
        r == gkv_lt(a@, b@),
{
    let ra = rank_of(a);
    let rb = rank_of(b);
    if ra != rb {
        return ra < rb;
    }
    match (a, b) {
        (GroupByScalar::Boolean(x), GroupByScalar::Boolean(y)) => !*x && *y,
        (GroupByScalar::Float32Bits(x), GroupByScalar::Float32Bits(y)) => *x < *y,
        (GroupByScalar::Float64Bits(x), GroupByScalar::Float64Bits(y)) => *x < *y,
        (GroupByScalar::Int8(x), GroupByScalar::Int8(y)) => *x < *y,
        (GroupByScalar::Int16(x), GroupByScalar::Int16(y)) => *x < *y,
        (GroupByScalar::Int32(x), GroupByScalar::Int32(y)) => *x < *y,
        (GroupByScalar::Int64(x), GroupByScalar::Int64(y)) => *x < *y,
        (GroupByScalar::UInt8(x), GroupByScalar::UInt8(y)) => *x < *y,
        (GroupByScalar::UInt16(x), GroupByScalar::UInt16(y)) => *x < *y,
        (GroupByScalar::UInt32(x), GroupByScalar::UInt32(y)) => *x < *y,
        (GroupByScalar::UInt64(x), GroupByScalar::UInt64(y)) => *x < *y,
        (GroupByScalar::Utf8(x), GroupByScalar::Utf8(y)) => string_less(x, y),
        _ => {
            proof {
                assert(gkv_rank(a@) == gkv_rank(b@));
                assert(false);
            }
            false
        },
    }
}

/// The strict order on composite keys; agrees with `key_lt` on the keys'
/// mathematical values.
pub fn key_less(a: &Vec<GroupByScalar>, b: &Vec<GroupByScalar>) -> (r: bool)
    ensures
        r == key_lt(key_view(a@), key_view(b@)),
{
    let ghost av = key_view(a@);
    let ghost bv = key_view(b@);
    let mut i: usize = 0;
    while i < a.len() && i < b.len()
        invariant
            i <= av.len(),
            i <= bv.len(),
            av == key_view(a@),
            bv == key_view(b@),
            av.len() == a@.len(),
            bv.len() == b@.len(),
            forall|j: int| 0 <= j < i ==> av[j] == bv[j],
        decreases av.len() - i,
    {
        if !group_eq(&a[i], &b[i]) {
            let r = gkv_less(&a[i], &b[i]);
            proof {
                lemma_key_lt_common_prefix(av, bv, i as int);
                assert(av.skip(i as int).first() == av[i as int]);
                assert(bv.skip(i as int).first() == bv[i as int]);
            }
            return r;
        }
        i += 1;
    }
    proof {
        lemma_key_lt_common_prefix(av, bv, i as int);
    }
    a.len() < b.len()
}

} // verus!
