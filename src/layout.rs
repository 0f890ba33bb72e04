//! The codec generator: from a schema to the sequence of operations that reads or writes
//! each field, and the byte length of the whole.
use crate::directive::{ByteOrderMode, PaddingMode};
use crate::error::SchemaError;
use crate::primitive::{ByteOrder, PrimKind};
use crate::schema::{
    build_record, ArrayArity, ElemModel, ElemType, FieldModel, FieldSpec, RecordDecl, RecordSchema,
};
use vstd::prelude::*;

verus! {

/// An element-level operation, as a mathematical value.
pub enum ElemStep {
    /// One scalar in a concrete byte order.
    Scalar(PrimKind, ByteOrder),
    /// The zero-sized padding marker: no bytes.
    Unit,
    /// A nested record, field by field.
    Record(Seq<FieldStep>),
}

/// A field-level operation, as a mathematical value.
pub enum FieldStep {
    /// Apply the element operation once per element.
    Read(ElemStep, ArrayArity),
    /// Skip this many bytes; the field takes the default of its element and arity.
    Skip(nat, ElemStep, ArrayArity),
}

impl FieldStep {
    pub open spec fn elem(self) -> ElemStep {
        match self {
            FieldStep::Read(e, _) => e,
            FieldStep::Skip(_, e, _) => e,
        }
    }

    pub open spec fn arity(self) -> ArrayArity {
        match self {
            FieldStep::Read(_, a) => a,
            FieldStep::Skip(_, _, a) => a,
        }
    }
}

/// The concrete order of a scalar under a mode, where `native` is the build's own order.
pub open spec fn resolve_order(mode: ByteOrderMode, native: ByteOrder) -> ByteOrder {
    match mode {
        ByteOrderMode::Little => ByteOrder::Little,
        ByteOrderMode::Big => ByteOrder::Big,
        ByteOrderMode::Native | ByteOrderMode::Default => native,
    }
}

/// Bytes occupied by one element.
pub open spec fn step_size(e: ElemStep) -> nat
    decreases e,
{
    match e {
        ElemStep::Scalar(k, _) => k.spec_width(),
        ElemStep::Unit => 0,
        ElemStep::Record(fs) => steps_size(fs),
    }
}

/// Bytes occupied by one field.
pub open spec fn field_size(f: FieldStep) -> nat
    decreases f,
{
    match f {
        FieldStep::Read(e, a) => step_size(e) * a.count(),
        FieldStep::Skip(n, _, _) => n,
    }
}

/// Bytes occupied by a sequence of fields, laid out one after another with no gaps.
pub open spec fn steps_size(fs: Seq<FieldStep>) -> nat
    decreases fs,
{
    if fs.len() == 0 {
        0
    } else {
        steps_size(fs.drop_last()) + field_size(fs.last())
    }
}

/// Where field `i` starts.
pub open spec fn offset(fs: Seq<FieldStep>, i: int) -> nat {
    steps_size(fs.take(i))
}

/// The element operation for an element type under a byte-order mode.
pub open spec fn elem_step(e: ElemModel, mode: ByteOrderMode, native: ByteOrder) -> ElemStep
    decreases e,
{
    match e {
        ElemModel::Prim(k) => ElemStep::Scalar(k, resolve_order(mode, native)),
        ElemModel::Pad => ElemStep::Unit,
        ElemModel::Record(fs) => ElemStep::Record(field_steps(fs, native)),
    }
}

/// The field operation for a schema field.
pub open spec fn field_step(f: FieldModel, native: ByteOrder) -> FieldStep
    decreases f,
{
    let e = elem_step(f.elem, f.directive.byte_order, native);
    match f.directive.padding {
        None => FieldStep::Read(e, f.arity),
        Some(PaddingMode::SkipTypeSized) => FieldStep::Skip(step_size(e) * f.arity.count(), e, f.arity),
        Some(PaddingMode::SkipBytes(n)) => FieldStep::Skip(n as nat, e, f.arity),
    }
}

/// The operations for a list of fields, one per field, in the same order.
pub open spec fn field_steps(fs: Seq<FieldModel>, native: ByteOrder) -> Seq<FieldStep>
    decreases fs,
{
    Seq::new(
        fs.len(),
        |i: int|
            if 0 <= i < fs.len() {
                field_step(fs[i], native)
            } else {
                FieldStep::Read(ElemStep::Unit, ArrayArity::Single)
            },
    )
}

/// Every byte length inside the layout fits in a `usize`.
pub open spec fn fits_step(e: ElemStep) -> bool
    decreases e,
{
    match e {
        ElemStep::Record(fs) => fits_steps(fs),
        _ => true,
    }
}

pub open spec fn fits_field(f: FieldStep) -> bool
    decreases f,
{
    match f {
        FieldStep::Read(e, _) => fits_step(e),
        FieldStep::Skip(_, e, _) => fits_step(e),
    }
}

pub open spec fn fits_steps(fs: Seq<FieldStep>) -> bool
    decreases fs,
{
    &&& steps_size(fs) <= usize::MAX
    &&& forall|i: int| 0 <= i < fs.len() ==> fits_field(#[trigger] fs[i])
}

/// The sizes of a prefix and of each field are bounded by the size of the whole.
pub proof fn lemma_steps_size_prefix(fs: Seq<FieldStep>, i: int)
    requires
        0 <= i <= fs.len(),
    ensures
        offset(fs, i) <= steps_size(fs),
        i < fs.len() ==> offset(fs, i) + field_size(fs[i]) <= steps_size(fs),
        i < fs.len() ==> offset(fs, i + 1) == offset(fs, i) + field_size(fs[i]),
    decreases fs.len(),
{
    if i < fs.len() {
        assert(fs.take(i + 1).drop_last() =~= fs.take(i));
    }
    if i == fs.len() {
        assert(fs.take(i) =~= fs);
    } else {
        lemma_steps_size_prefix(fs.drop_last(), i);
        assert(fs.drop_last().take(i) =~= fs.take(i));
        if i < fs.len() - 1 {
            assert(fs.drop_last().take(i + 1) =~= fs.take(i + 1));
        } else {
            assert(fs.take(i + 1) =~= fs);
        }
    }
}

/// An element-level operation.
#[derive(Debug)]
pub enum ElemOp {
    Scalar(PrimKind, ByteOrder),
    Unit,
    Record(Vec<FieldOp>),
}

/// A field-level operation.
#[derive(Debug)]
pub enum FieldOp {
    Read(ElemOp, ArrayArity),
    Skip(usize, ElemOp, ArrayArity),
}

impl ElemOp {
    pub open spec fn model(&self) -> ElemStep
        decreases self,
    {
        match self {
            ElemOp::Scalar(k, o) => ElemStep::Scalar(*k, *o),
            ElemOp::Unit => ElemStep::Unit,
            ElemOp::Record(ops) => ElemStep::Record(
                Seq::new(
                    ops@.len(),
                    |i: int|
                        if 0 <= i < ops@.len() {
                            ops@[i].model()
                        } else {
                            FieldStep::Read(ElemStep::Unit, ArrayArity::Single)
                        },
                ),
            ),
        }
    }
}

impl FieldOp {
    pub open spec fn model(&self) -> FieldStep
        decreases self,
    {
        match self {
            FieldOp::Read(e, a) => FieldStep::Read(e.model(), *a),
            FieldOp::Skip(n, e, a) => FieldStep::Skip(*n as nat, e.model(), *a),
        }
    }
}

/// The models of a list of field operations.
pub open spec fn ops_model(ops: Seq<FieldOp>) -> Seq<FieldStep> {
    Seq::new(ops.len(), |i: int| ops[i].model())
}

pub proof fn lemma_record_model(ops: Vec<FieldOp>)
    ensures
        ElemOp::Record(ops).model() == ElemStep::Record(ops_model(ops@)),
{
    assert(ElemOp::Record(ops).model()->Record_0 =~= ops_model(ops@));
}

/// The compiled codec of one record: its field operations and its byte length.
#[derive(Debug)]
pub struct Codec {
    ops: Vec<FieldOp>,
    size: usize,
}

impl Codec {
    /// The field operations, as mathematical values.
    pub closed spec fn steps(&self) -> Seq<FieldStep> {
        ops_model(self.ops@)
    }

    #[verifier::type_invariant]
    closed spec fn inv(&self) -> bool {
        &&& self.size == steps_size(self.steps())
        &&& fits_steps(self.steps())
    }

    /// The field operations.
    pub fn ops(&self) -> (r: &Vec<FieldOp>)
        ensures
            ops_model(r@) == self.steps(),
            fits_steps(self.steps()),
    {
        proof {
            use_type_invariant(self);
        }
        &self.ops
    }

    /// The number of bytes that one record occupies.
    pub fn byte_len(&self) -> (r: usize)
        ensures
            r == steps_size(self.steps()),
    {
        proof {
            use_type_invariant(self);
        }
        self.size
    }
}

fn elem_op(e: &ElemType, mode: ByteOrderMode, native: ByteOrder) -> (r: Option<(ElemOp, usize)>)
    ensures
        match r {
            Some((op, n)) => {
                &&& op.model() == elem_step(e.model(), mode, native)
                &&& n == step_size(op.model())
                &&& fits_step(op.model())
            },
            None => !fits_step(elem_step(e.model(), mode, native)),
        },
    decreases e.model(),
{
    match e {
        ElemType::Prim(k) => {
            let order = match mode {
                ByteOrderMode::Little => ByteOrder::Little,
                ByteOrderMode::Big => ByteOrder::Big,
                ByteOrderMode::Native | ByteOrderMode::Default => native,
            };
            Some((ElemOp::Scalar(*k, order), k.width()))
        },
        ElemType::Pad => Some((ElemOp::Unit, 0)),
        ElemType::Record(s) => {
            proof {
                assert(decreases_to!(e.model() => e.model()->Record_0));
            }
            match record_ops(s, native) {
                Some((ops, n)) => {
                    proof {
                        lemma_record_model(ops);
                    }
                    Some((ElemOp::Record(ops), n))
                },
                None => None,
            }
        },
    }
}

fn field_op(f: &FieldSpec, native: ByteOrder) -> (r: Option<(FieldOp, usize)>)
    ensures
        match r {
            Some((op, n)) => {
                &&& op.model() == field_step(f.model(), native)
                &&& n == field_size(op.model())
                &&& fits_field(op.model())
            },
            None => {
                ||| !fits_field(field_step(f.model(), native))
                ||| field_size(field_step(f.model(), native)) > usize::MAX
            },
        },
    decreases f.model(),
{
    proof {
        assert(decreases_to!(f.model() => f.model().elem));
    }
    let (e, n) = match elem_op(&f.elem, f.directive.byte_order, native) {
        Some(p) => p,
        None => return None,
    };
    let count: usize = match f.arity {
        ArrayArity::Single => 1,
        ArrayArity::Fixed(c) => c,
    };
    match f.directive.padding {
        None => match n.checked_mul(count) {
            Some(size) => Some((FieldOp::Read(e, f.arity), size)),
            None => None,
        },
        Some(PaddingMode::SkipTypeSized) => match n.checked_mul(count) {
            Some(size) => Some((FieldOp::Skip(size, e, f.arity), size)),
            None => None,
        },
        Some(PaddingMode::SkipBytes(b)) => Some((FieldOp::Skip(b, e, f.arity), b)),
    }
}

fn record_ops(s: &RecordSchema, native: ByteOrder) -> (r: Option<(Vec<FieldOp>, usize)>)
    ensures
        match r {
            Some((ops, n)) => {
                &&& ops_model(ops@) == field_steps(s.model(), native)
                &&& n == steps_size(ops_model(ops@))
                &&& fits_steps(ops_model(ops@))
            },
            None => !fits_steps(field_steps(s.model(), native)),
        },
    decreases s.model(),
{
    let fields = s.fields();
    let ghost want = field_steps(s.model(), native);
    let mut ops: Vec<FieldOp> = Vec::new();
    let mut total: usize = 0;
    let mut i: usize = 0;
    assert(ops_model(ops@) =~= want.take(0));
    while i < fields.len()
        invariant
            i <= fields@.len(),
            fields@.len() == s.model().len(),
            forall|j: int| 0 <= j < fields@.len() ==> #[trigger] fields@[j].model() == s.model()[j],
            want == field_steps(s.model(), native),
            want.len() == fields@.len(),
            ops_model(ops@) == want.take(i as int),
            total == steps_size(want.take(i as int)),
            forall|j: int| 0 <= j < i ==> fits_field(#[trigger] want[j]),
        decreases fields@.len() - i,
    {
        proof {
            assert(decreases_to!(s.model() => s.model()[i as int]));
            lemma_steps_size_prefix(want, i as int);
        }
        let (op, n) = match field_op(&fields[i], native) {
            Some(p) => p,
            None => return None,
        };
        total = match total.checked_add(n) {
            Some(t) => t,
            None => {
                proof {
                    lemma_steps_size_prefix(want, i as int);
                }
                return None;
            },
        };
        ops.push(op);
        proof {
            assert(want.take(i + 1).drop_last() =~= want.take(i as int));
            assert(ops_model(ops@) =~= want.take(i + 1));
        }
        i = i + 1;
    }
    assert(want.take(i as int) =~= want);
    Some((ops, total))
}

/// Whether `r` is what compiling the schema `fs` for the native order `native` gives.
pub open spec fn compiled_as(r: Result<Codec, SchemaError>, fs: Seq<FieldModel>, native: ByteOrder) -> bool {
    match r {
        Ok(c) => c.steps() == field_steps(fs, native),
        Err(e) => e == SchemaError::LayoutTooLarge && !fits_steps(field_steps(fs, native)),
    }
}

impl Codec {
    /// Compiles a schema, with `native` standing for the build's native byte order. Fails
    /// only where a byte length inside the layout exceeds `usize::MAX`.
    pub fn compile_for(schema: &RecordSchema, native: ByteOrder) -> (r: Result<Codec, SchemaError>)
        ensures
            match r {
                Ok(c) => c.steps() == field_steps(schema.model(), native),
                Err(e) => {
                    &&& e == SchemaError::LayoutTooLarge
                    &&& !fits_steps(field_steps(schema.model(), native))
                },
            },
            r is Ok <==> fits_steps(field_steps(schema.model(), native)),
    {
        match record_ops(schema, native) {
            Some((ops, size)) => Ok(Codec { ops, size }),
            None => Err(SchemaError::LayoutTooLarge),
        }
    }

    /// Compiles a schema for the build's native byte order.
    pub fn compile(schema: &RecordSchema) -> (r: Result<Codec, SchemaError>)
        ensures
            compiled_as(r, schema.model(), ByteOrder::Little) || compiled_as(
                r,
                schema.model(),
                ByteOrder::Big,
            ),
    {
        let native = ByteOrder::native();
        Codec::compile_for(schema, native)
    }

    /// Builds the schema of a declared record and compiles it for the build's native byte
    /// order. A declaration error comes first; a layout too large for `usize` comes after.
    pub fn from_decl(decl: &RecordDecl) -> (r: Result<Codec, SchemaError>)
        ensures
            match build_record(*decl) {
                Err(e) => r == Err::<Codec, SchemaError>(e),
                Ok(fs) => compiled_as(r, fs, ByteOrder::Little) || compiled_as(
                    r,
                    fs,
                    ByteOrder::Big,
                ),
            },
    {
        let schema = match RecordSchema::build(decl) {
            Ok(s) => s,
            Err(e) => return Err(e),
        };
        Codec::compile(&schema)
    }
}

} // verus!
