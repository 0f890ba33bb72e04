//! Record declarations, and the schemas that are built from them.
use crate::directive::{
    has_number_shape, number_shaped, resolve_spec, usize_literal, parse_usize_literal, Annotation, ByteOrderMode, FieldDirective,
};
use crate::error::SchemaError;
use crate::primitive::PrimKind;
use vstd::prelude::*;

verus! {

/// The length of a declared array.
#[derive(Clone, Debug, PartialEq, Eq)]
pub enum ArrayLen {
    /// An integer literal, as written in the source.
    Literal(String),
    /// A length already known as a number (a named constant, resolved).
    Value(usize),
}

/// The element type of a declared field.
#[derive(Debug, PartialEq, Eq)]
pub enum ElemDecl {
    Prim(PrimKind),
    /// The zero-sized padding marker.
    Pad,
    Record(RecordDecl),
}

/// A declared field type: an element, or a fixed-size array of elements.
#[derive(Debug, PartialEq, Eq)]
pub struct TypeDecl {
    pub elem: ElemDecl,
    pub len: Option<ArrayLen>,
}

/// One declared field, with its annotations in source order.
#[derive(Debug, PartialEq, Eq)]
pub struct FieldDecl {
    pub name: String,
    pub ty: TypeDecl,
    pub annotations: Vec<Annotation>,
}

/// A declared record type.
#[derive(Debug, PartialEq, Eq)]
pub enum RecordDecl {
    /// A struct whose fields are all named, in declaration order.
    Named(Vec<FieldDecl>),
    /// A struct with positional fields.
    Positional,
    /// A struct without a field list.
    Unit,
    /// An enum or a union.
    NotAStruct,
}

/// How many times a field's element occurs.
#[derive(Clone, Copy, Debug, PartialEq, Eq, Structural)]
pub enum ArrayArity {
    /// A plain element.
    Single,
    /// An array of this many elements.
    Fixed(usize),
}

impl ArrayArity {
    pub open spec fn count(self) -> nat {
        match self {
            ArrayArity::Single => 1,
            ArrayArity::Fixed(n) => n as nat,
        }
    }
}

/// The element type of a schema field.
#[derive(Debug)]
pub enum ElemType {
    Prim(PrimKind),
    Pad,
    Record(RecordSchema),
}

/// One field of a schema.
#[derive(Debug)]
pub struct FieldSpec {
    pub name: String,
    pub elem: ElemType,
    pub arity: ArrayArity,
    pub directive: FieldDirective,
}

/// The fields of a record in layout order. It is built from a declaration and not changed
/// afterwards.
#[derive(Debug)]
pub struct RecordSchema {
    fields: Vec<FieldSpec>,
}

/// The element type of a field, as a mathematical value.
pub enum ElemModel {
    Prim(PrimKind),
    Pad,
    Record(Seq<FieldModel>),
}

/// A field of a schema, as a mathematical value.
pub struct FieldModel {
    pub name: Seq<char>,
    pub elem: ElemModel,
    pub arity: ArrayArity,
    pub directive: FieldDirective,
}

impl ElemType {
    pub open spec fn model(&self) -> ElemModel
        decreases self,
    {
        match self {
            ElemType::Prim(k) => ElemModel::Prim(*k),
            ElemType::Pad => ElemModel::Pad,
            ElemType::Record(s) => ElemModel::Record(s.model()),
        }
    }
}

impl FieldSpec {
    pub open spec fn model(&self) -> FieldModel
        decreases self,
    {
        FieldModel {
            name: self.name@,
            elem: self.elem.model(),
            arity: self.arity,
            directive: self.directive,
        }
    }
}

impl RecordSchema {
    pub closed spec fn model(&self) -> Seq<FieldModel>
        decreases self,
    {
        Seq::new(
            self.fields@.len(),
            |i: int|
                if 0 <= i < self.fields@.len() {
                    self.fields@[i].model()
                } else {
                    FieldModel {
                        name: Seq::empty(),
                        elem: ElemModel::Pad,
                        arity: ArrayArity::Single,
                        directive: FieldDirective::spec_plain(),
                    }
                },
        )
    }

    /// The fields, in layout order.
    pub fn fields(&self) -> (r: &Vec<FieldSpec>)
        ensures
            r@.len() == self.model().len(),
            forall|i: int| 0 <= i < r@.len() ==> #[trigger] r@[i].model() == self.model()[i],
    {
        &self.fields
    }
}

/// The arity that a declared length gives.
pub open spec fn arity_spec(len: Option<ArrayLen>) -> Result<ArrayArity, SchemaError> {
    match len {
        None => Ok(ArrayArity::Single),
        Some(ArrayLen::Value(n)) => Ok(ArrayArity::Fixed(n)),
        Some(ArrayLen::Literal(t)) => if has_number_shape(t@) {
            match usize_literal(t@) {
                Some(n) => Ok(ArrayArity::Fixed(n)),
                None => Err(SchemaError::MalformedArrayLength),
            }
        } else {
            Err(SchemaError::MalformedArrayLength)
        },
    }
}

/// Whether a field asks for a byte order on a nested record that it reads.
pub open spec fn order_on_record(d: FieldDirective, e: ElemModel) -> bool {
    &&& d.padding is None
    &&& d.byte_order != ByteOrderMode::Default
    &&& e is Record
}

/// The schema that a record declaration builds, or the first error in declaration order.
pub open spec fn build_record(d: RecordDecl) -> Result<Seq<FieldModel>, SchemaError>
    decreases d,
{
    match d {
        RecordDecl::Named(fs) => build_fields(fs@),
        _ => Err(SchemaError::UnsupportedShape),
    }
}

pub open spec fn build_fields(fs: Seq<FieldDecl>) -> Result<Seq<FieldModel>, SchemaError>
    decreases fs,
{
    if fs.len() == 0 {
        Ok(Seq::empty())
    } else {
        match build_fields(fs.drop_last()) {
            Ok(ms) => match build_field(fs.last()) {
                Ok(m) => Ok(ms.push(m)),
                Err(e) => Err(e),
            },
            Err(e) => Err(e),
        }
    }
}

/// One field: its annotations first, then its array length, then its element type.
pub open spec fn build_field(f: FieldDecl) -> Result<FieldModel, SchemaError>
    decreases f,
{
    match resolve_spec(f.annotations@) {
        Err(e) => Err(e),
        Ok(dir) => match arity_spec(f.ty.len) {
            Err(e) => Err(e),
            Ok(arity) => match build_elem(f.ty.elem) {
                Err(e) => Err(e),
                Ok(elem) => if order_on_record(dir, elem) {
                    Err(SchemaError::ByteOrderOnRecord)
                } else {
                    Ok(FieldModel { name: f.name@, elem, arity, directive: dir })
                },
            },
        },
    }
}

pub open spec fn build_elem(e: ElemDecl) -> Result<ElemModel, SchemaError>
    decreases e,
{
    match e {
        ElemDecl::Prim(k) => Ok(ElemModel::Prim(k)),
        ElemDecl::Pad => Ok(ElemModel::Pad),
        ElemDecl::Record(d) => match build_record(d) {
            Ok(fs) => Ok(ElemModel::Record(fs)),
            Err(e) => Err(e),
        },
    }
}

impl TypeDecl {
    /// How many elements the declared type holds: one for a plain type, the length for an
    /// array.
    pub fn arity(&self) -> (r: Result<ArrayArity, SchemaError>)
        ensures
            r == arity_spec(self.len),
    {
        match &self.len {
            None => Ok(ArrayArity::Single),
            Some(ArrayLen::Value(n)) => Ok(ArrayArity::Fixed(*n)),
            Some(ArrayLen::Literal(t)) => {
                if !number_shaped(t) {
                    return Err(SchemaError::MalformedArrayLength);
                }
                match parse_usize_literal(t) {
                    Some(n) => Ok(ArrayArity::Fixed(n)),
                    None => Err(SchemaError::MalformedArrayLength),
                }
            },
        }
    }
}

fn build_elem_type(e: &ElemDecl) -> (r: Result<ElemType, SchemaError>)
    ensures
        match r {
            Ok(t) => build_elem(*e) == Ok::<ElemModel, SchemaError>(t.model()),
            Err(err) => build_elem(*e) == Err::<ElemModel, SchemaError>(err),
        },
    decreases e,
{
    match e {
        ElemDecl::Prim(k) => Ok(ElemType::Prim(*k)),
        ElemDecl::Pad => Ok(ElemType::Pad),
        ElemDecl::Record(d) => {
            proof {
                assert(decreases_to!(*e => (*e)->Record_0));
            }
            match RecordSchema::build(d) {
                Ok(s) => Ok(ElemType::Record(s)),
                Err(err) => Err(err),
            }
        },
    }
}

fn build_field_spec(f: &FieldDecl) -> (r: Result<FieldSpec, SchemaError>)
    ensures
        match r {
            Ok(s) => build_field(*f) == Ok::<FieldModel, SchemaError>(s.model()),
            Err(err) => build_field(*f) == Err::<FieldModel, SchemaError>(err),
        },
    decreases f,
{
    let dir = match FieldDirective::resolve(&f.annotations) {
        Ok(d) => d,
        Err(e) => return Err(e),
    };
    let arity = match f.ty.arity() {
        Ok(a) => a,
        Err(e) => return Err(e),
    };
    proof {
        assert(decreases_to!(*f => f.ty));
        assert(decreases_to!(f.ty => f.ty.elem));
    }
    let elem = match build_elem_type(&f.ty.elem) {
        Ok(t) => t,
        Err(e) => return Err(e),
    };
    let on_record = match elem {
        ElemType::Record(_) => true,
        _ => false,
    };
    if dir.padding.is_none() && dir.byte_order != ByteOrderMode::Default && on_record {
        return Err(SchemaError::ByteOrderOnRecord);
    }
    Ok(FieldSpec { name: f.name.clone(), elem, arity, directive: dir })
}

impl RecordSchema {
    /// Builds the schema of a declared record. Only structs whose fields are all named are
    /// accepted; the fields keep their declaration order. Nested records are built first,
    /// depth first.
    pub fn build(decl: &RecordDecl) -> (r: Result<RecordSchema, SchemaError>)
        ensures
            match r {
                Ok(s) => build_record(*decl) == Ok::<Seq<FieldModel>, SchemaError>(s.model()),
                Err(e) => build_record(*decl) == Err::<Seq<FieldModel>, SchemaError>(e),
            },
        decreases decl,
    {
        let fs = match decl {
            RecordDecl::Named(fs) => fs,
            _ => return Err(SchemaError::UnsupportedShape),
        };
        let mut out: Vec<FieldSpec> = Vec::new();
        let mut i: usize = 0;
        assert(fs@.take(0) =~= Seq::<FieldDecl>::empty());
        assert((RecordSchema { fields: out }).model() =~= Seq::<FieldModel>::empty());
        while i < fs.len()
            invariant
                i <= fs@.len(),
                out@.len() == i,
                *decl == RecordDecl::Named(*fs),
                build_fields(fs@.take(i as int)) == Ok::<Seq<FieldModel>, SchemaError>(
                    (RecordSchema { fields: out }).model(),
                ),
            decreases fs@.len() - i,
        {
            proof {
                assert(decreases_to!(*decl => (*decl)->Named_0));
                assert(decreases_to!((*decl)->Named_0 => (*decl)->Named_0@));
                assert(decreases_to!((*decl)->Named_0@ => fs@[i as int]));
            }
            let ghost before = (RecordSchema { fields: out }).model();
            proof {
                assert(fs@.take(i + 1).drop_last() =~= fs@.take(i as int));
                assert(fs@.take(i + 1).last() == fs@[i as int]);
            }
            let f = match build_field_spec(&fs[i]) {
                Ok(f) => f,
                Err(e) => {
                    proof {
                        lemma_build_fields_err_sticks(fs@, (i + 1) as int);
                    }
                    return Err(e);
                },
            };
            out.push(f);
            assert((RecordSchema { fields: out }).model() =~= before.push(out@[i as int].model()));
            i = i + 1;
        }
        assert(fs@.take(fs@.len() as int) =~= fs@);
        Ok(RecordSchema { fields: out })
    }
}

/// An error among the first `i` fields is the error of the whole list.
proof fn lemma_build_fields_err_sticks(fs: Seq<FieldDecl>, i: int)
    requires
        0 <= i <= fs.len(),
        build_fields(fs.take(i)) is Err,
    ensures
        build_fields(fs) == build_fields(fs.take(i)),
    decreases fs.len() - i,
{
    if i < fs.len() {
        assert(fs.take(i + 1).drop_last() =~= fs.take(i));
        lemma_build_fields_err_sticks(fs, i + 1);
    } else {
        assert(fs.take(i) =~= fs);
    }
}

} // verus!
