//! Decoded records, and what the layout says of them: defaults, shape, decoding and
//! encoding as mathematical functions.
use crate::layout::{field_size, offset, step_size, ElemStep, FieldStep};
use crate::primitive::{bytes_in, pow256, value_in, PrimKind};
use crate::schema::ArrayArity;
use vstd::prelude::*;

verus! {

/// A decoded value, as a mathematical value.
pub enum Datum {
    /// A scalar of the given kind; the number is its unsigned bit pattern.
    Scalar(PrimKind, nat),
    Pad,
    /// The fields of a record, in layout order.
    Record(Seq<Datum>),
    Array(Seq<Datum>),
}

/// A decoded value.
#[derive(Debug, PartialEq, Eq)]
pub enum Value {
    /// A scalar of the given kind, as its unsigned bit pattern: a signed value is held in
    /// two's complement over the kind's width.
    Scalar(PrimKind, u128),
    /// The value of a field of the zero-sized padding marker type.
    Pad,
    /// The fields of a record, in layout order.
    Record(Vec<Value>),
    /// The elements of an array, in index order.
    Array(Vec<Value>),
}

impl Value {
    pub open spec fn model(&self) -> Datum
        decreases self,
    {
        match self {
            Value::Scalar(k, b) => Datum::Scalar(*k, *b as nat),
            Value::Pad => Datum::Pad,
            Value::Record(vs) => Datum::Record(
                Seq::new(
                    vs@.len(),
                    |i: int|
                        if 0 <= i < vs@.len() {
                            vs@[i].model()
                        } else {
                            Datum::Pad
                        },
                ),
            ),
            Value::Array(vs) => Datum::Array(
                Seq::new(
                    vs@.len(),
                    |i: int|
                        if 0 <= i < vs@.len() {
                            vs@[i].model()
                        } else {
                            Datum::Pad
                        },
                ),
            ),
        }
    }
}

/// The models of a list of values.
pub open spec fn values_model(vs: Seq<Value>) -> Seq<Datum> {
    Seq::new(vs.len(), |i: int| vs[i].model())
}

pub proof fn lemma_value_models(vs: Vec<Value>)
    ensures
        Value::Record(vs).model() == Datum::Record(values_model(vs@)),
        Value::Array(vs).model() == Datum::Array(values_model(vs@)),
{
    assert(Value::Record(vs).model()->Record_0 =~= values_model(vs@));
    assert(Value::Array(vs).model()->Array_0 =~= values_model(vs@));
}

/// The default value of one element: zero, the padding marker, or a record of defaults.
pub open spec fn default_step(e: ElemStep) -> Datum
    decreases e,
{
    match e {
        ElemStep::Scalar(k, _) => Datum::Scalar(k, 0),
        ElemStep::Unit => Datum::Pad,
        ElemStep::Record(fs) => Datum::Record(
            Seq::new(
                fs.len(),
                |i: int|
                    if 0 <= i < fs.len() {
                        default_field(fs[i])
                    } else {
                        Datum::Pad
                    },
            ),
        ),
    }
}

/// The default value of a field's declared type.
pub open spec fn default_field(f: FieldStep) -> Datum
    decreases f,
{
    match f {
        FieldStep::Read(e, a) | FieldStep::Skip(_, e, a) => {
            let d = default_step(e);
            match a {
                ArrayArity::Single => d,
                ArrayArity::Fixed(n) => Datum::Array(Seq::new(n as nat, |_j: int| d)),
            }
        },
    }
}

/// Whether `v` has the shape of an element: the same scalar kind and a bit pattern that
/// fits its width, the marker, or a record whose fields conform one by one.
pub open spec fn conforms_step(e: ElemStep, v: Datum) -> bool
    decreases e,
{
    match e {
        ElemStep::Scalar(k, _) => v matches Datum::Scalar(k2, x) && k2 == k && x < pow256(
            k.spec_width(),
        ),
        ElemStep::Unit => v is Pad,
        ElemStep::Record(fs) => v matches Datum::Record(vs) && vs.len() == fs.len() && forall|
            i: int,
        |
            0 <= i < fs.len() ==> conforms_field(#[trigger] fs[i], vs[i]),
    }
}

/// Whether `v` has the shape of a field's declared type.
pub open spec fn conforms_field(f: FieldStep, v: Datum) -> bool
    decreases f,
{
    match f {
        FieldStep::Read(e, a) | FieldStep::Skip(_, e, a) => match a {
            ArrayArity::Single => conforms_step(e, v),
            ArrayArity::Fixed(n) => v matches Datum::Array(xs) && xs.len() == n && forall|j: int|
                0 <= j < n ==> conforms_step(e, #[trigger] xs[j]),
        },
    }
}

/// The element that the bytes `b` (exactly as many as the element occupies) decode to.
pub open spec fn decode_step(e: ElemStep, b: Seq<u8>) -> Datum
    decreases e,
{
    match e {
        ElemStep::Scalar(k, o) => Datum::Scalar(k, value_in(o, b)),
        ElemStep::Unit => Datum::Pad,
        ElemStep::Record(fs) => Datum::Record(decode_fields(fs, b)),
    }
}

/// The fields that `b` decodes to: field `i` from the bytes at its offset, in order.
pub open spec fn decode_fields(fs: Seq<FieldStep>, b: Seq<u8>) -> Seq<Datum>
    decreases fs,
{
    Seq::new(
        fs.len(),
        |i: int|
            if 0 <= i < fs.len() {
                decode_field(fs[i], b.subrange(offset(fs, i) as int, (offset(fs, i) + field_size(fs[i])) as int))
            } else {
                Datum::Pad
            },
    )
}

/// The field that `b` decodes to: one element, `n` elements one after another, or the
/// default of the declared type where the bytes are skipped.
pub open spec fn decode_field(f: FieldStep, b: Seq<u8>) -> Datum
    decreases f,
{
    match f {
        FieldStep::Read(e, ArrayArity::Single) => decode_step(e, b),
        FieldStep::Read(e, ArrayArity::Fixed(n)) => Datum::Array(
            Seq::new(
                n as nat,
                |j: int| decode_step(e, b.subrange(j * step_size(e), j * step_size(e) + step_size(e))),
            ),
        ),
        FieldStep::Skip(_, _, _) => default_field(f),
    }
}

/// The bytes of a conforming element.
pub open spec fn encode_step(e: ElemStep, v: Datum) -> Seq<u8>
    decreases e, 0nat,
{
    match e {
        ElemStep::Scalar(k, o) => bytes_in(o, v->Scalar_1, k.spec_width()),
        ElemStep::Unit => Seq::empty(),
        ElemStep::Record(fs) => encode_fields(fs, v->Record_0),
    }
}

/// The bytes of conforming fields, one after another.
pub open spec fn encode_fields(fs: Seq<FieldStep>, vs: Seq<Datum>) -> Seq<u8>
    decreases fs, 0nat,
{
    if fs.len() == 0 {
        Seq::empty()
    } else {
        encode_fields(fs.drop_last(), vs) + encode_field(fs.last(), vs[fs.len() - 1])
    }
}

/// The bytes of a conforming field; a skipped field is written as zeros.
pub open spec fn encode_field(f: FieldStep, v: Datum) -> Seq<u8>
    decreases f, 0nat,
{
    match f {
        FieldStep::Read(e, ArrayArity::Single) => encode_step(e, v),
        FieldStep::Read(e, ArrayArity::Fixed(n)) => encode_elems(e, v->Array_0, n as nat),
        FieldStep::Skip(n, _, _) => Seq::new(n, |_i: int| 0u8),
    }
}

/// The bytes of the first `n` elements of `xs`, one after another.
pub open spec fn encode_elems(e: ElemStep, xs: Seq<Datum>, n: nat) -> Seq<u8>
    decreases e, n + 1,
{
    if n == 0 {
        Seq::empty()
    } else {
        encode_elems(e, xs, (n - 1) as nat) + encode_step(e, xs[n - 1])
    }
}

/// What a conforming element reads back as: itself, with every skipped field inside it
/// replaced by its default.
pub open spec fn canonical_step(e: ElemStep, v: Datum) -> Datum
    decreases e,
{
    match e {
        ElemStep::Record(fs) => Datum::Record(
            Seq::new(
                fs.len(),
                |i: int|
                    if 0 <= i < fs.len() {
                        canonical_field(fs[i], v->Record_0[i])
                    } else {
                        Datum::Pad
                    },
            ),
        ),
        _ => v,
    }
}

/// What a conforming field reads back as.
pub open spec fn canonical_field(f: FieldStep, v: Datum) -> Datum
    decreases f,
{
    match f {
        FieldStep::Read(e, ArrayArity::Single) => canonical_step(e, v),
        FieldStep::Read(e, ArrayArity::Fixed(n)) => Datum::Array(
            Seq::new(n as nat, |j: int| canonical_step(e, v->Array_0[j])),
        ),
        FieldStep::Skip(_, _, _) => default_field(f),
    }
}

} // verus!
