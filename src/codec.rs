//! Running a compiled codec: decoding from a source and encoding into a sink.
use crate::error::CodecError;
use crate::layout::{
    field_size, fits_field, fits_step, fits_steps, lemma_record_model, lemma_steps_size_prefix,
    offset, ops_model, step_size, steps_size, Codec, ElemOp, ElemStep, FieldOp,
};
use crate::primitive::{pow256, read_uint, write_uint, PrimKind};
use crate::schema::ArrayArity;
use crate::source::Source;
use crate::value::{
    conforms_field, conforms_step, decode_field, decode_fields, decode_step, default_field,
    default_step, encode_elems, encode_field, encode_fields, encode_step, lemma_value_models,
    values_model, Datum, Value,
};
use vstd::prelude::*;

verus! {

/// Whether `bits` fits in the width of `kind`.
fn fits_width(bits: u128, kind: PrimKind) -> (r: bool)
    ensures
        r == (bits < pow256(kind.spec_width())),
{
    let w = kind.width();
    if w == 16 {
        proof {
            reveal_with_fuel(pow256, 17);
        }
        return true;
    }
    let mut limit: u128 = 1;
    let mut i: usize = 0;
    assert(pow256(0) == 1);
    while i < w
        invariant
            i <= w,
            w <= 8,
            w == kind.spec_width(),
            limit == pow256(i as nat),
        decreases w - i,
    {
        proof {
            crate::primitive::lemma_pow256_monotone((i + 1) as nat, 8);
            reveal_with_fuel(pow256, 9);
        }
        limit = limit * 256;
        i = i + 1;
    }
    bits < limit
}

/// The default value of one element.
fn default_elem(e: &ElemOp) -> (r: Value)
    ensures
        r.model() == default_step(e.model()),
    decreases e.model(),
{
    match e {
        ElemOp::Scalar(k, _) => Value::Scalar(*k, 0),
        ElemOp::Unit => Value::Pad,
        ElemOp::Record(ops) => {
            proof {
                lemma_record_model(*ops);
            }
            let ghost fs = ops_model(ops@);
            let mut vs: Vec<Value> = Vec::new();
            let mut i: usize = 0;
            while i < ops.len()
                invariant
                    i <= ops@.len(),
                    *e == ElemOp::Record(*ops),
                    e.model() == ElemStep::Record(fs),
                    fs == ops_model(ops@),
                    vs@.len() == i,
                    forall|j: int| 0 <= j < i ==> #[trigger] vs@[j].model() == default_field(fs[j]),
                decreases ops@.len() - i,
            {
                proof {
                    assert(decreases_to!(e.model() => e.model()->Record_0));
                    assert(decreases_to!(fs => fs[i as int]));
                }
                let v = default_of_field(&ops[i]);
                vs.push(v);
                i = i + 1;
            }
            proof {
                lemma_value_models(vs);
                assert(values_model(vs@) =~= default_step(e.model())->Record_0);
            }
            Value::Record(vs)
        },
    }
}

/// The default value of a field's declared type.
fn default_of_field(f: &FieldOp) -> (r: Value)
    ensures
        r.model() == default_field(f.model()),
    decreases f.model(),
{
    let (e, a) = match f {
        FieldOp::Read(e, a) => (e, a),
        FieldOp::Skip(_, e, a) => (e, a),
    };
    proof {
        assert(decreases_to!(f.model() => f.model()->Read_0) || decreases_to!(f.model()
            => f.model()->Skip_1));
    }
    match a {
        ArrayArity::Single => default_elem(e),
        ArrayArity::Fixed(n) => {
            let mut xs: Vec<Value> = Vec::new();
            let mut j: usize = 0;
            while j < *n
                invariant
                    j <= *n,
                    xs@.len() == j,
                    decreases_to!(f.model() => e.model()),
                    forall|k: int| 0 <= k < j ==> #[trigger] xs@[k].model() == default_step(e.model()),
                decreases *n - j,
            {
                xs.push(default_elem(e));
                j = j + 1;
            }
            proof {
                lemma_value_models(xs);
                assert(values_model(xs@) =~= default_field(f.model())->Array_0);
            }
            Value::Array(xs)
        },
    }
}

/// Decodes one element at `pos`; returns it and the position after it.
fn read_elem(e: &ElemOp, data: &Vec<u8>, pos: usize) -> (r: (Value, usize))
    requires
        fits_step(e.model()),
        pos + step_size(e.model()) <= data@.len(),
    ensures
        r.0.model() == decode_step(e.model(), data@.subrange(pos as int, pos + step_size(e.model()))),
        r.1 == pos + step_size(e.model()),
    decreases e.model(),
{
    match e {
        ElemOp::Scalar(k, o) => {
            let bits = read_uint(data, pos, *k, *o);
            // The vector's length, a `usize`, bounds the end position.
            let len = data.len();
            assert(pos + k.spec_width() <= len);
            (Value::Scalar(*k, bits), pos + k.width())
        },
        ElemOp::Unit => (Value::Pad, pos),
        ElemOp::Record(ops) => {
            proof {
                lemma_record_model(*ops);
                assert(decreases_to!(e.model() => e.model()->Record_0));
            }
            let (vs, end) = read_fields(ops, data, pos);
            proof {
                lemma_value_models(vs);
            }
            (Value::Record(vs), end)
        },
    }
}

/// Decodes the fields at `pos`, in order; returns them and the position after the last.
fn read_fields(ops: &Vec<FieldOp>, data: &Vec<u8>, pos: usize) -> (r: (Vec<Value>, usize))
    requires
        fits_steps(ops_model(ops@)),
        pos + steps_size(ops_model(ops@)) <= data@.len(),
    ensures
        values_model(r.0@) == decode_fields(
            ops_model(ops@),
            data@.subrange(pos as int, pos + steps_size(ops_model(ops@))),
        ),
        r.1 == pos + steps_size(ops_model(ops@)),
    decreases ops_model(ops@),
{
    let ghost fs = ops_model(ops@);
    let ghost b = data@.subrange(pos as int, pos + steps_size(fs));
    let ghost want = decode_fields(fs, b);
    let mut vs: Vec<Value> = Vec::new();
    let mut cur: usize = pos;
    let mut i: usize = 0;
    while i < ops.len()
        invariant
            i <= ops@.len(),
            fs == ops_model(ops@),
            fits_steps(fs),
            pos + steps_size(fs) <= data@.len(),
            b == data@.subrange(pos as int, pos + steps_size(fs)),
            want == decode_fields(fs, b),
            cur == pos + offset(fs, i as int),
            vs@.len() == i,
            forall|j: int| 0 <= j < i ==> #[trigger] vs@[j].model() == want[j],
        decreases ops@.len() - i,
    {
        proof {
            assert(decreases_to!(fs => fs[i as int]));
            lemma_steps_size_prefix(fs, i as int);
            assert(fits_field(fs[i as int]));
            assert(b.subrange(offset(fs, i as int) as int, (offset(fs, i as int) + field_size(fs[i as int])) as int)
                =~= data@.subrange(cur as int, cur + field_size(fs[i as int])));
        }
        let (v, next) = read_field(&ops[i], data, cur);
        vs.push(v);
        cur = next;
        i = i + 1;
    }
    proof {
        assert(fs.take(i as int) =~= fs);
        assert(values_model(vs@) =~= want);
    }
    (vs, cur)
}

/// Decodes one field at `pos`; returns it and the position after it.
fn read_field(f: &FieldOp, data: &Vec<u8>, pos: usize) -> (r: (Value, usize))
    requires
        fits_field(f.model()),
        pos + field_size(f.model()) <= data@.len(),
    ensures
        r.0.model() == decode_field(f.model(), data@.subrange(pos as int, pos + field_size(f.model()))),
        r.1 == pos + field_size(f.model()),
    decreases f.model(),
{
    match f {
        FieldOp::Read(e, ArrayArity::Single) => {
            proof {
                assert(decreases_to!(f.model() => f.model()->Read_0));
                assert(field_size(f.model()) == step_size(e.model()) * 1);
                assert(step_size(e.model()) * 1 == step_size(e.model()));
            }
            read_elem(e, data, pos)
        },
        FieldOp::Read(e, ArrayArity::Fixed(n)) => {
            proof {
                assert(decreases_to!(f.model() => f.model()->Read_0));
            }
            let ghost s = step_size(e.model());
            let ghost b = data@.subrange(pos as int, pos + field_size(f.model()));
            let mut xs: Vec<Value> = Vec::new();
            let mut cur: usize = pos;
            let mut j: usize = 0;
            while j < *n
                invariant
                    j <= *n,
                    *f == FieldOp::Read(*e, ArrayArity::Fixed(*n)),
                    s == step_size(e.model()),
                    field_size(f.model()) == s * *n,
                    fits_step(e.model()),
                    pos + s * *n <= data@.len(),
                    b == data@.subrange(pos as int, pos + s * *n),
                    cur == pos + j * s,
                    xs@.len() == j,
                    forall|k: int|
                        0 <= k < j ==> #[trigger] xs@[k].model() == decode_step(
                            e.model(),
                            b.subrange(k * s, k * s + s),
                        ),
                decreases *n - j,
            {
                proof {
                    assert((j + 1) * s <= *n * s) by (nonlinear_arith)
                        requires
                            j < *n,
                    ;
                    assert((j + 1) * s == j * s + s) by (nonlinear_arith);
                    assert(b.subrange(j * s, j * s + s) =~= data@.subrange(cur as int, cur + s));
                }
                let (x, next) = read_elem(e, data, cur);
                xs.push(x);
                cur = next;
                j = j + 1;
            }
            proof {
                lemma_value_models(xs);
                assert(values_model(xs@) =~= decode_field(f.model(), b)->Array_0);
                assert(j * s == s * *n) by (nonlinear_arith)
                    requires
                        j == *n,
                ;
            }
            (Value::Array(xs), cur)
        },
        FieldOp::Skip(n, _, _) => {
            let v = default_of_field(f);
            // The vector's length, a `usize`, bounds the end position.
            let len = data.len();
            assert(pos + *n <= len);
            (v, pos + *n)
        },
    }
}

/// Whether a value has the shape of an element.
fn accepts_elem(e: &ElemOp, v: &Value) -> (r: bool)
    ensures
        r == conforms_step(e.model(), v.model()),
    decreases e.model(),
{
    match e {
        ElemOp::Scalar(k, _) => match v {
            Value::Scalar(k2, bits) => *k2 == *k && fits_width(*bits, *k),
            _ => false,
        },
        ElemOp::Unit => match v {
            Value::Pad => true,
            _ => false,
        },
        ElemOp::Record(ops) => {
            proof {
                lemma_record_model(*ops);
                assert(decreases_to!(e.model() => e.model()->Record_0));
            }
            match v {
                Value::Record(vs) => {
                    proof {
                        lemma_value_models(*vs);
                    }
                    if vs.len() != ops.len() {
                        return false;
                    }
                    accepts_fields(ops, vs)
                },
                _ => false,
            }
        },
    }
}

/// Whether each value has the shape of the field at the same index.
fn accepts_fields(ops: &Vec<FieldOp>, vs: &Vec<Value>) -> (r: bool)
    requires
        vs@.len() == ops@.len(),
    ensures
        r == forall|i: int|
            0 <= i < ops@.len() ==> conforms_field(
                #[trigger] ops_model(ops@)[i],
                values_model(vs@)[i],
            ),
    decreases ops_model(ops@),
{
    let ghost fs = ops_model(ops@);
    let mut i: usize = 0;
    while i < ops.len()
        invariant
            i <= ops@.len(),
            vs@.len() == ops@.len(),
            fs == ops_model(ops@),
            forall|j: int| 0 <= j < i ==> conforms_field(#[trigger] fs[j], values_model(vs@)[j]),
        decreases ops@.len() - i,
    {
        proof {
            assert(decreases_to!(fs => fs[i as int]));
        }
        if !accepts_field(&ops[i], &vs[i]) {
            return false;
        }
        i = i + 1;
    }
    true
}

/// Whether a value has the shape of a field's declared type.
fn accepts_field(f: &FieldOp, v: &Value) -> (r: bool)
    ensures
        r == conforms_field(f.model(), v.model()),
    decreases f.model(),
{
    let (e, a) = match f {
        FieldOp::Read(e, a) => (e, a),
        FieldOp::Skip(_, e, a) => (e, a),
    };
    proof {
        assert(decreases_to!(f.model() => f.model()->Read_0) || decreases_to!(f.model()
            => f.model()->Skip_1));
    }
    match a {
        ArrayArity::Single => accepts_elem(e, v),
        ArrayArity::Fixed(n) => match v {
            Value::Array(xs) => {
                proof {
                    lemma_value_models(*xs);
                }
                if xs.len() != *n {
                    return false;
                }
                let mut j: usize = 0;
                while j < xs.len()
                    invariant
                        j <= xs@.len(),
                        xs@.len() == *n,
                        decreases_to!(f.model() => e.model()),
                        f.model().elem() == e.model(),
                        f.model().arity() == ArrayArity::Fixed(*n),
                        v.model() == Datum::Array(values_model(xs@)),
                        forall|k: int|
                            0 <= k < j ==> conforms_step(e.model(), #[trigger] values_model(xs@)[k]),
                    decreases xs@.len() - j,
                {
                    assert(values_model(xs@)[j as int] == xs@[j as int].model());
                    if !accepts_elem(e, &xs[j]) {
                        return false;
                    }
                    j = j + 1;
                }
                true
            },
            _ => false,
        },
    }
}

/// Appends the bytes of a conforming element.
fn write_elem(e: &ElemOp, v: &Value, out: &mut Vec<u8>)
    requires
        conforms_step(e.model(), v.model()),
    ensures
        final(out)@ == old(out)@ + encode_step(e.model(), v.model()),
    decreases e.model(),
{
    match e {
        ElemOp::Scalar(k, o) => match v {
            Value::Scalar(_, bits) => write_uint(out, *bits, *k, *o),
            _ => {},
        },
        ElemOp::Unit => {
            assert(old(out)@ + Seq::<u8>::empty() =~= old(out)@);
        },
        ElemOp::Record(ops) => {
            proof {
                lemma_record_model(*ops);
                assert(decreases_to!(e.model() => e.model()->Record_0));
            }
            match v {
                Value::Record(vs) => {
                    proof {
                        lemma_value_models(*vs);
                    }
                    write_fields(ops, vs, out)
                },
                _ => {},
            }
        },
    }
}

/// Appends the bytes of conforming fields, in order.
fn write_fields(ops: &Vec<FieldOp>, vs: &Vec<Value>, out: &mut Vec<u8>)
    requires
        vs@.len() == ops@.len(),
        forall|i: int|
            0 <= i < ops@.len() ==> conforms_field(
                #[trigger] ops_model(ops@)[i],
                values_model(vs@)[i],
            ),
    ensures
        final(out)@ == old(out)@ + encode_fields(ops_model(ops@), values_model(vs@)),
    decreases ops_model(ops@),
{
    let ghost fs = ops_model(ops@);
    let ghost vm = values_model(vs@);
    let ghost start = out@;
    let mut i: usize = 0;
    assert(start + encode_fields(fs.take(0), vm) =~= start);
    while i < ops.len()
        invariant
            i <= ops@.len(),
            vs@.len() == ops@.len(),
            fs == ops_model(ops@),
            vm == values_model(vs@),
            forall|j: int| 0 <= j < ops@.len() ==> conforms_field(#[trigger] fs[j], vm[j]),
            out@ == start + encode_fields(fs.take(i as int), vm),
        decreases ops@.len() - i,
    {
        proof {
            assert(decreases_to!(fs => fs[i as int]));
            assert(fs.take(i + 1).drop_last() =~= fs.take(i as int));
            assert(conforms_field(fs[i as int], vm[i as int]));
        }
        write_field(&ops[i], &vs[i], out);
        assert(out@ =~= start + encode_fields(fs.take(i + 1), vm));
        i = i + 1;
    }
    assert(fs.take(i as int) =~= fs);
}

/// Appends the bytes of a conforming field.
fn write_field(f: &FieldOp, v: &Value, out: &mut Vec<u8>)
    requires
        conforms_field(f.model(), v.model()),
    ensures
        final(out)@ == old(out)@ + encode_field(f.model(), v.model()),
    decreases f.model(),
{
    match f {
        FieldOp::Read(e, ArrayArity::Single) => {
            proof {
                assert(decreases_to!(f.model() => f.model()->Read_0));
            }
            write_elem(e, v, out)
        },
        FieldOp::Read(e, ArrayArity::Fixed(n)) => {
            proof {
                assert(decreases_to!(f.model() => f.model()->Read_0));
            }
            match v {
                Value::Array(xs) => {
                    proof {
                        lemma_value_models(*xs);
                    }
                    let ghost xm = values_model(xs@);
                    let ghost start = out@;
                    let mut j: usize = 0;
                    assert(start + encode_elems(e.model(), xm, 0) =~= start);
                    while j < *n
                        invariant
                            j <= *n,
                            xs@.len() == *n,
                            xm == values_model(xs@),
                            forall|k: int| 0 <= k < *n ==> conforms_step(e.model(), #[trigger] xm[k]),
                            out@ == start + encode_elems(e.model(), xm, j as nat),
                            *f == FieldOp::Read(*e, ArrayArity::Fixed(*n)),
                        decreases *n - j,
                    {
                        proof {
                            assert(decreases_to!(f.model() => f.model()->Read_0));
                            assert(xm[j as int] == xs@[j as int].model());
                        }
                        write_elem(e, &xs[j], out);
                        assert(out@ =~= start + encode_elems(e.model(), xm, (j + 1) as nat));
                        j = j + 1;
                    }
                },
                _ => {},
            }
        },
        FieldOp::Skip(n, _, _) => {
            let ghost start = out@;
            let mut j: usize = 0;
            while j < *n
                invariant
                    j <= *n,
                    out@ == start + Seq::new(j as nat, |_i: int| 0u8),
                decreases *n - j,
            {
                out.push(0u8);
                assert(out@ =~= start + Seq::new((j + 1) as nat, |_i: int| 0u8));
                j = j + 1;
            }
        },
    }
}

impl Codec {
    /// Decodes one record from the source, field by field in layout order. When fewer bytes
    /// are left than the record occupies, fails with `ShortRead` and reads nothing.
    pub fn decode(&self, src: &mut Source) -> (r: Result<Value, CodecError>)
        ensures
            final(src).bytes() == old(src).bytes(),
            r is Ok <==> old(src).pos() + steps_size(self.steps()) <= old(src).bytes().len(),
            match r {
                Ok(v) => {
                    &&& v.model() == Datum::Record(
                        decode_fields(
                            self.steps(),
                            old(src).bytes().subrange(
                                old(src).pos() as int,
                                (old(src).pos() + steps_size(self.steps())) as int,
                            ),
                        ),
                    )
                    &&& final(src).pos() == old(src).pos() + steps_size(self.steps())
                },
                Err(e) => e == CodecError::ShortRead && final(src).pos() == old(src).pos(),
            },
    {
        let size = self.byte_len();
        if src.remaining() < size {
            return Err(CodecError::ShortRead);
        }
        let ops = self.ops();
        let (vs, _) = read_fields(ops, src.data(), src.position());
        src.advance(size);
        proof {
            lemma_value_models(vs);
        }
        Ok(Value::Record(vs))
    }

    /// Whether a value has the shape of the record: a record with one conforming value per
    /// field, padding fields included.
    pub fn accepts(&self, v: &Value) -> (r: bool)
        ensures
            r == conforms_step(ElemStep::Record(self.steps()), v.model()),
    {
        let ops = self.ops();
        match v {
            Value::Record(vs) => {
                proof {
                    lemma_value_models(*vs);
                }
                if vs.len() != ops.len() {
                    return false;
                }
                accepts_fields(ops, vs)
            },
            _ => false,
        }
    }

    /// Encodes a record, field by field in layout order, onto the end of `out`; padding
    /// fields are written as zeros. A value without the record's shape is refused with
    /// `ValueMismatch`, and nothing is written.
    pub fn encode(&self, v: &Value, out: &mut Vec<u8>) -> (r: Result<(), CodecError>)
        ensures
            r is Ok <==> conforms_step(ElemStep::Record(self.steps()), v.model()),
            match r {
                Ok(_) => final(out)@ == old(out)@ + encode_step(
                    ElemStep::Record(self.steps()),
                    v.model(),
                ),
                Err(e) => e == CodecError::ValueMismatch && final(out)@ == old(out)@,
            },
    {
        if !self.accepts(v) {
            return Err(CodecError::ValueMismatch);
        }
        let ops = self.ops();
        match v {
            Value::Record(vs) => {
                proof {
                    lemma_value_models(*vs);
                }
                write_fields(ops, vs, out);
            },
            _ => {},
        }
        Ok(())
    }
}

} // verus!
