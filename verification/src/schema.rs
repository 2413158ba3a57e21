//! Schemas and nested-scope name resolution. A schema is an ordered list
//! of named, typed fields; resolution of a column reference walks a chain
//! of frames from the innermost scope outward, so that correlated
//! subqueries see their enclosing query's columns.

use vstd::prelude::*;

use crate::error::Error;
use crate::scalar::{DataType, ScalarValue};
use std::sync::Arc;

verus! {

/// One named, typed field of a schema.
#[derive(Debug, Clone, PartialEq)]
pub struct Field {
    pub name: String,
    pub data_type: DataType,
    pub nullable: bool,
}

/// The mathematical value of a field.
#[verifier::ext_equal]
pub struct FieldView {
    pub name: Seq<char>,
    pub data_type: DataType,
    pub nullable: bool,
}

impl View for Field {
    type V = FieldView;

    open spec fn view(&self) -> FieldView {
        FieldView { name: self.name@, data_type: self.data_type, nullable: self.nullable }
    }
}

/// The mathematical value of a schema: its fields in order.
pub open spec fn fields_view(fields: Seq<Field>) -> Seq<FieldView> {
    fields.map_values(|f: Field| f@)
}

/// The index of the first field called `name`, if any.
pub open spec fn field_index(fields: Seq<FieldView>, name: Seq<char>) -> Option<int>
    decreases fields.len(),
{
    if fields.len() == 0 {
        None
    } else if fields.first().name == name {
        Some(0)
    } else {
        match field_index(fields.drop_first(), name) {
            None => None,
            Some(i) => Some(i + 1),
        }
    }
}

proof fn lemma_field_index_found(fields: Seq<FieldView>, name: Seq<char>, i: int)
    requires
        0 <= i < fields.len(),
        fields[i].name == name,
        forall|j: int| 0 <= j < i ==> fields[j].name != name,
    ensures
        field_index(fields, name) == Some(i),
    decreases fields.len(),
{
    if i > 0 {
        lemma_field_index_found(fields.drop_first(), name, i - 1);
    }
}

proof fn lemma_field_index_missing(fields: Seq<FieldView>, name: Seq<char>)
    requires
        forall|j: int| 0 <= j < fields.len() ==> fields[j].name != name,
    ensures
        field_index(fields, name) is None,
    decreases fields.len(),
{
    if fields.len() > 0 {
        lemma_field_index_missing(fields.drop_first(), name);
    }
}

/// Whether `field_index` finds a field, it finds the first one.
pub proof fn lemma_field_index_spec(fields: Seq<FieldView>, name: Seq<char>)
    ensures
        match field_index(fields, name) {
            Some(i) => 0 <= i < fields.len() && fields[i].name == name && forall|j: int|
                0 <= j < i ==> fields[j].name != name,
            None => forall|j: int| 0 <= j < fields.len() ==> fields[j].name != name,
        },
    decreases fields.len(),
{
    if fields.len() > 0 {
        lemma_field_index_spec(fields.drop_first(), name);
        if fields.first().name != name {
            match field_index(fields.drop_first(), name) {
                Some(i) => {
                    assert(fields.drop_first()[i] == fields[i + 1]);
                    assert forall|j: int| 0 <= j < i + 1 implies fields[j].name != name by {
                        if j > 0 {
                            assert(fields[j] == fields.drop_first()[j - 1]);
                        }
                    }
                },
                None => {
                    assert forall|j: int| 0 <= j < fields.len() implies fields[j].name != name by {
                        if j > 0 {
                            assert(fields[j] == fields.drop_first()[j - 1]);
                        }
                    }
                },
            }
        }
    }
}

/// An ordered list of named, typed fields.
#[derive(Debug, Clone, PartialEq)]
pub struct Schema {
    pub fields: Vec<Field>,
}

impl View for Schema {
    type V = Seq<FieldView>;

    open spec fn view(&self) -> Seq<FieldView> {
        fields_view(self.fields@)
    }
}

impl Schema {
    pub fn new(fields: Vec<Field>) -> (r: Schema)
        ensures
            r@ == fields_view(fields@),
    {
        Schema { fields }
    }

    /// The position of the first field called `name`, or the columnar
    /// lookup failure when there is none.
    pub fn index_of(&self, name: &str) -> (r: Result<usize, Error>)
        ensures
            match r {
                Ok(i) => field_index(self@, name@) == Some(i as int),
                Err(e) => field_index(self@, name@) is None && e is Columnar,
            },
    {
        let sought = String::from_str(name);
        let mut i: usize = 0;
        while i < self.fields.len()
            invariant
                i <= self.fields@.len(),
                sought@ == name@,
                forall|j: int| 0 <= j < i ==> self@[j].name != name@,
            decreases self.fields@.len() - i,
        {
            if self.fields[i].name.eq(&sought) {
                proof {
                    lemma_field_index_found(self@, name@, i as int);
                }
                return Ok(i);
            }
            i += 1;
        }
        proof {
            lemma_field_index_missing(self@, name@);
        }
        Err(Error::Columnar(missing_field_message(name)))
    }

    /// The first field called `name`, or the columnar lookup failure.
    pub fn field_with_name(&self, name: &str) -> (r: Result<&Field, Error>)
        ensures
            match r {
                Ok(f) => {
                    &&& field_index(self@, name@) is Some
                    &&& f@ == self@[field_index(self@, name@).unwrap()]
                },
                Err(e) => field_index(self@, name@) is None && e is Columnar,
            },
    {
        match self.index_of(name) {
            Ok(i) => {
                proof {
                    lemma_field_index_spec(self@, name@);
                }
                Ok(&self.fields[i])
            },
            Err(e) => Err(e),
        }
    }
}

/// The message text of a failed local lookup.
pub open spec fn missing_field_text(name: Seq<char>) -> Seq<char> {
    "field not found: "@ + name
}

fn missing_field_message(name: &str) -> (r: String)
    ensures
        r@ == missing_field_text(name@),
{
    let mut m = String::from_str("field not found: ");
    m.append(name);
    m
}

/// A frame chain for schema-only resolution: either the empty outermost
/// scope, a schema frame over a previous chain, or a variable frame chain.
pub enum SchemaContext {
    Empty(EmptySchemaContext),
    WithSchema(SchemaContextWithSchema),
    Variables(Arc<VariableContext>),
}

/// The outermost scope: resolves nothing.
pub struct EmptySchemaContext {}

/// A schema frame in front of an enclosing chain.
pub struct SchemaContextWithSchema {
    pub previous: Box<SchemaContext>,
    pub schema: Arc<Schema>,
}

/// A scope frame carrying both a schema and the concrete scalar values of
/// the enclosing row, for correlated evaluation.
pub struct VariableContext {
    pub previous: Option<Arc<VariableContext>>,
    pub schema: Arc<Schema>,
    pub variables: Vec<ScalarValue>,
}

/// Resolution through a variable-frame chain: the innermost frame that
/// has the name wins.
pub open spec fn var_lookup(c: VariableContext, name: Seq<char>) -> Option<FieldView>
    decreases c,
{
    match field_index(c.schema@, name) {
        Some(i) => Some(c.schema@[i]),
        None => match c.previous {
            None => None,
            Some(p) => var_lookup(*p, name),
        },
    }
}

/// Resolution through a schema-context chain.
pub open spec fn ctx_lookup(c: SchemaContext, name: Seq<char>) -> Option<FieldView>
    decreases c,
{
    match c {
        SchemaContext::Empty(_) => None,
        SchemaContext::WithSchema(w) => match field_index(w.schema@, name) {
            Some(i) => Some(w.schema@[i]),
            None => ctx_lookup(*w.previous, name),
        },
        SchemaContext::Variables(v) => var_lookup(*v, name),
    }
}

/// The shape of the failure a variable-frame chain reports for `name`:
/// the innermost miss is preserved verbatim together with the enclosing
/// chain's own failure, so both causes stay available for diagnostics.
pub open spec fn var_lookup_err(c: VariableContext, name: Seq<char>, e: Error) -> bool
    decreases c,
{
    match c.previous {
        None => e == Error::Unexpected,
        Some(p) => match e {
            Error::Wrapped(m, inner) => m@ == missing_field_text(name) && var_lookup_err(
                *p,
                name,
                *inner,
            ),
            _ => false,
        },
    }
}

/// The shape of the failure a schema-context chain reports for `name`.
pub open spec fn ctx_lookup_err(c: SchemaContext, name: Seq<char>, e: Error) -> bool
    decreases c,
{
    match c {
        SchemaContext::Empty(_) => e == Error::Unexpected,
        SchemaContext::WithSchema(w) => match e {
            Error::Wrapped(m, inner) => m@ == missing_field_text(name) && ctx_lookup_err(
                *w.previous,
                name,
                *inner,
            ),
            _ => false,
        },
        SchemaContext::Variables(v) => var_lookup_err(*v, name, e),
    }
}

impl EmptySchemaContext {
    /// The outermost scope resolves no name.
    pub fn field_with_name(&self, _name: &str) -> (r: Result<&Field, Error>)
        ensures
            r matches Err(e) && e == Error::Unexpected,
    {
        Err(Error::Unexpected)
    }
}

impl SchemaContextWithSchema {
    /// Resolve `name` against the local schema first, then against the
    /// enclosing chain; a miss everywhere reports both causes.
    pub fn field_with_name(&self, name: &str) -> (r: Result<&Field, Error>)
        ensures
            match r {
                Ok(f) => ctx_lookup_frame(self, name@) == Some(f@),
                Err(e) => ctx_lookup_frame(self, name@) is None && ctx_err_frame(self, name@, e),
            },
        decreases self,
    {
        match self.schema.field_with_name(name) {
            Ok(field) => Ok(field),
            Err(_) => match self.previous.field_with_name(name) {
                Ok(field) => Ok(field),
                Err(err) => Err(Error::Wrapped(missing_field_message(name), Box::new(err))),
            },
        }
    }
}

/// Resolution seen from a schema frame, before wrapping it in the chain
/// enum: local schema first, then the enclosing chain.
pub open spec fn ctx_lookup_frame(w: &SchemaContextWithSchema, name: Seq<char>) -> Option<
    FieldView,
> {
    match field_index(w.schema@, name) {
        Some(i) => Some(w.schema@[i]),
        None => ctx_lookup(*w.previous, name),
    }
}

/// The failure shape seen from a schema frame.
pub open spec fn ctx_err_frame(w: &SchemaContextWithSchema, name: Seq<char>, e: Error) -> bool {
    match e {
        Error::Wrapped(m, inner) => m@ == missing_field_text(name) && ctx_lookup_err(
            *w.previous,
            name,
            *inner,
        ),
        _ => false,
    }
}

impl VariableContext {
    /// Resolve `name` against this frame's schema first, then against the
    /// enclosing frames; a miss everywhere reports both causes.
    pub fn field_with_name(&self, name: &str) -> (r: Result<&Field, Error>)
        ensures
            match r {
                Ok(f) => var_lookup(*self, name@) == Some(f@),
                Err(e) => var_lookup(*self, name@) is None && var_lookup_err(*self, name@, e),
            },
        decreases self,
    {
        match self.schema.field_with_name(name) {
            Ok(field) => Ok(field),
            Err(_) => match &self.previous {
                None => Err(Error::Unexpected),
                Some(previous) => match previous.field_with_name(name) {
                    Ok(field) => Ok(field),
                    Err(err) => Err(Error::Wrapped(missing_field_message(name), Box::new(err))),
                },
            },
        }
    }
}

impl SchemaContext {
    /// Resolve `name` against the chain, innermost frame first.
    pub fn field_with_name(&self, name: &str) -> (r: Result<&Field, Error>)
        ensures
            match r {
                Ok(f) => ctx_lookup(*self, name@) == Some(f@),
                Err(e) => ctx_lookup(*self, name@) is None && ctx_lookup_err(*self, name@, e),
            },
        decreases self,
    {
        match self {
            SchemaContext::Empty(c) => c.field_with_name(name),
            SchemaContext::WithSchema(w) => w.field_with_name(name),
            SchemaContext::Variables(v) => v.field_with_name(name),
        }
    }
}

/// Scope resolution behaves lexically.
///
/// A name the local frame lacks resolves through the enclosing chain: if
/// it names a field of some outer frame, that resolution is what the whole
/// chain reports. A name present both locally and in an enclosing frame
/// resolves to the local (inner) field. A name absent from every frame
/// resolves to nothing — and `field_with_name` then reports the wrapped
/// dual-cause failure `ctx_lookup_err` describes.
pub proof fn lemma_scope_resolution(w: SchemaContextWithSchema, name: Seq<char>)
    ensures
        field_index(w.schema@, name) is None ==> ctx_lookup(
            SchemaContext::WithSchema(w),
            name,
        ) == ctx_lookup(*w.previous, name),
        field_index(w.schema@, name) matches Some(i) ==> ctx_lookup(
            SchemaContext::WithSchema(w),
            name,
        ) == Some(w.schema@[i]),
{
}

/// The per-run state handed to every operator: the variable scope of the
/// enclosing query, shared across the plan.
#[derive(Clone)]
pub struct ExecutionContext {
    pub variable_context: Arc<VariableContext>,
}

/// Relies on `Arc::clone`: the returned handle refers to the same value.
#[verifier::external_body]
pub fn share_variables(v: &Arc<VariableContext>) -> (r: Arc<VariableContext>)
    ensures
        r == *v,
{
    v.clone()
}

} // verus!
