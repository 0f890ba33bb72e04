//! Laws of the codec, proved over the layout and value models.
use crate::directive::PaddingMode;
use crate::layout::{
    elem_step, field_size, field_step, field_steps, lemma_steps_size_prefix, offset, step_size,
    steps_size, ElemStep, FieldStep,
};
use crate::io::Primitive;
use crate::primitive::{bytes_in, lemma_round_trip_in, value_in};
use crate::schema::{ArrayArity, ElemModel, FieldModel};
use crate::directive::ByteOrderMode;
use crate::primitive::ByteOrder;
use crate::value::{
    canonical_field, canonical_step, conforms_field, conforms_step, decode_field, decode_fields,
    decode_step, default_field, encode_elems, encode_field, encode_fields, encode_step, Datum,
};
use vstd::prelude::*;
use vstd::seq_lib::group_to_multiset_ensures;

verus! {

/// Encoding a conforming element gives exactly its size in bytes, and decoding those bytes
/// gives the element back, with every skipped field inside it at its default.
pub proof fn law_round_trip(e: ElemStep, v: Datum)
    requires
        conforms_step(e, v),
    ensures
        encode_step(e, v).len() == step_size(e),
        decode_step(e, encode_step(e, v)) == canonical_step(e, v),
    decreases e, 0nat,
{
    match e {
        ElemStep::Scalar(k, o) => {
            lemma_round_trip_in(o, v->Scalar_1, k.spec_width());
        },
        ElemStep::Unit => {},
        ElemStep::Record(fs) => {
            let vs = v->Record_0;
            lemma_fields_round_trip(fs, vs);
            assert(decode_fields(fs, encode_fields(fs, vs)) =~= canonical_step(e, v)->Record_0);
        },
    }
}

/// A scalar read back, in one byte order, from its own image in that order is the value
/// that was written: what `PrimitiveWrite::write_le` appends, `PrimitiveRead::read_le`
/// returns as the same value, and likewise for big-endian.
pub proof fn law_scalar_round_trip<T: Primitive>(v: T, r: T, order: ByteOrder)
    requires
        T::spec_bits(r) == value_in(
            order,
            bytes_in(order, T::spec_bits(v), T::spec_kind().spec_width()),
        ),
    ensures
        r == v,
{
    T::lemma_bits_decide(v, r);
    lemma_round_trip_in(order, T::spec_bits(v), T::spec_kind().spec_width());
}

/// What a codec reads from the front of a stream that starts with an encoded record is
/// that record: every field read from the stream equals the one written, and every padding
/// field holds the default of its declared type.
pub proof fn law_record_round_trip(fs: Seq<FieldStep>, v: Datum, rest: Seq<u8>)
    requires
        conforms_step(ElemStep::Record(fs), v),
    ensures
        (encode_step(ElemStep::Record(fs), v) + rest).len() >= steps_size(fs),
        Datum::Record(
            decode_fields(
                fs,
                (encode_step(ElemStep::Record(fs), v) + rest).subrange(0, steps_size(fs) as int),
            ),
        ) == canonical_step(ElemStep::Record(fs), v),
{
    let bytes = encode_step(ElemStep::Record(fs), v);
    law_round_trip(ElemStep::Record(fs), v);
    assert((bytes + rest).subrange(0, steps_size(fs) as int) =~= bytes);
}

proof fn lemma_fields_round_trip(fs: Seq<FieldStep>, vs: Seq<Datum>)
    requires
        fs.len() <= vs.len(),
        forall|i: int| 0 <= i < fs.len() ==> conforms_field(#[trigger] fs[i], vs[i]),
    ensures
        encode_fields(fs, vs).len() == steps_size(fs),
        forall|i: int|
            0 <= i < fs.len() ==> #[trigger] decode_fields(fs, encode_fields(fs, vs))[i]
                == canonical_field(fs[i], vs[i]),
    decreases fs, 0nat,
{
    if fs.len() > 0 {
        let n = fs.len() - 1;
        let init = fs.drop_last();
        let head = encode_fields(init, vs);
        let tail = encode_field(fs.last(), vs[n]);
        let whole = encode_fields(fs, vs);
        lemma_fields_round_trip(init, vs);
        lemma_field_round_trip(fs.last(), vs[n]);
        assert(whole == head + tail);
        assert forall|i: int| 0 <= i < fs.len() implies #[trigger] decode_fields(fs, whole)[i]
            == canonical_field(fs[i], vs[i]) by {
            assert(fs.take(i) =~= init.take(i));
            if i < n {
                assert(fs[i] == init[i]);
                assert(decode_fields(init, head)[i] == canonical_field(init[i], vs[i]));
                lemma_steps_size_prefix(init, i);
                assert(whole.subrange(offset(fs, i) as int, (offset(fs, i) + field_size(fs[i])) as int)
                    =~= head.subrange(offset(init, i) as int, (offset(init, i) + field_size(init[i])) as int));
            } else {
                assert(init.take(i) =~= init);
                assert(fs[i] == fs.last());
                assert(whole.subrange(offset(fs, i) as int, (offset(fs, i) + field_size(fs[i])) as int)
                    =~= tail);
            }
        }
    }
}

proof fn lemma_field_round_trip(f: FieldStep, v: Datum)
    requires
        conforms_field(f, v),
    ensures
        encode_field(f, v).len() == field_size(f),
        decode_field(f, encode_field(f, v)) == canonical_field(f, v),
    decreases f, 0nat,
{
    match f {
        FieldStep::Read(e, ArrayArity::Single) => {
            law_round_trip(e, v);
        },
        FieldStep::Read(e, ArrayArity::Fixed(n)) => {
            let xs = v->Array_0;
            let s = step_size(e);
            let bytes = encode_elems(e, xs, n as nat);
            lemma_encode_elems(e, xs, n as nat);
            assert(n * s == s * n) by (nonlinear_arith);
            assert forall|j: int| 0 <= j < n implies decode_step(
                e,
                #[trigger] bytes.subrange(j * s, j * s + s),
            ) == canonical_step(e, xs[j]) by {
                law_round_trip(e, xs[j]);
            }
            assert(decode_field(f, bytes)->Array_0 =~= canonical_field(f, v)->Array_0);
        },
        FieldStep::Skip(_, _, _) => {},
    }
}

proof fn lemma_encode_elems(e: ElemStep, xs: Seq<Datum>, n: nat)
    requires
        n <= xs.len(),
        forall|j: int| 0 <= j < n ==> conforms_step(e, #[trigger] xs[j]),
    ensures
        encode_elems(e, xs, n).len() == n * step_size(e),
        forall|j: int|
            0 <= j < n ==> #[trigger] encode_elems(e, xs, n).subrange(
                j * step_size(e),
                j * step_size(e) + step_size(e),
            ) == encode_step(e, xs[j]),
    decreases e, n + 1,
{
    let s = step_size(e);
    if n == 0 {
        assert(0 * s == 0) by (nonlinear_arith);
    } else {
        let m = (n - 1) as nat;
        let head = encode_elems(e, xs, m);
        let last = encode_step(e, xs[m as int]);
        lemma_encode_elems(e, xs, m);
        law_round_trip(e, xs[m as int]);
        assert(m * s + s == n * s) by (nonlinear_arith)
            requires
                m + 1 == n,
        ;
        assert forall|j: int| 0 <= j < n implies #[trigger] encode_elems(e, xs, n).subrange(
            j * s,
            j * s + s,
        ) == encode_step(e, xs[j]) by {
            if j < m {
                assert(j * s + s <= m * s) by (nonlinear_arith)
                    requires
                        j < m,
                        0 <= j,
                ;
                assert(0 <= j * s) by (nonlinear_arith)
                    requires
                        0 <= j,
                ;
                assert(encode_elems(e, xs, n).subrange(j * s, j * s + s) =~= head.subrange(
                    j * s,
                    j * s + s,
                ));
            } else {
                assert(encode_elems(e, xs, n).subrange(j * s, j * s + s) =~= last);
            }
        }
    }
}

/// Skips the byte order of every scalar, keeping all else.
pub open spec fn erase_step(e: ElemStep) -> ElemStep
    decreases e,
{
    match e {
        ElemStep::Scalar(k, _) => ElemStep::Scalar(k, ByteOrder::Little),
        ElemStep::Unit => ElemStep::Unit,
        ElemStep::Record(fs) => ElemStep::Record(
            Seq::new(
                fs.len(),
                |i: int|
                    if 0 <= i < fs.len() {
                        erase_field(fs[i])
                    } else {
                        FieldStep::Read(ElemStep::Unit, ArrayArity::Single)
                    },
            ),
        ),
    }
}

pub open spec fn erase_field(f: FieldStep) -> FieldStep
    decreases f,
{
    match f {
        FieldStep::Read(e, a) => FieldStep::Read(erase_step(e), a),
        FieldStep::Skip(n, e, a) => FieldStep::Skip(n, erase_step(e), a),
    }
}

/// The operations of a layout, field by field, with byte orders left out.
pub open spec fn layout_shape(fs: Seq<FieldStep>) -> Seq<FieldStep> {
    erase_step(ElemStep::Record(fs))->Record_0
}

/// Compiling one schema gives the same byte length and the same operations, field by
/// field and in the same order, whatever native byte order each compilation is given;
/// only the order of native scalars can differ.
pub proof fn law_compile_deterministic(schema: Seq<FieldModel>, n1: ByteOrder, n2: ByteOrder)
    ensures
        steps_size(field_steps(schema, n1)) == steps_size(field_steps(schema, n2)),
        layout_shape(field_steps(schema, n1)) == layout_shape(field_steps(schema, n2)),
        field_steps(schema, n1).len() == schema.len(),
    decreases schema,
{
    lemma_fields_deterministic(schema, n1, n2);
    assert(layout_shape(field_steps(schema, n1)) =~= layout_shape(field_steps(schema, n2)));
}

proof fn lemma_elem_deterministic(e: ElemModel, mode: ByteOrderMode, n1: ByteOrder, n2: ByteOrder)
    ensures
        step_size(elem_step(e, mode, n1)) == step_size(elem_step(e, mode, n2)),
        erase_step(elem_step(e, mode, n1)) == erase_step(elem_step(e, mode, n2)),
    decreases e,
{
    match e {
        ElemModel::Record(fs) => {
            lemma_fields_deterministic(fs, n1, n2);
            assert(erase_step(elem_step(e, mode, n1))->Record_0 =~= erase_step(
                elem_step(e, mode, n2),
            )->Record_0);
        },
        _ => {},
    }
}

proof fn lemma_field_deterministic(f: FieldModel, n1: ByteOrder, n2: ByteOrder)
    ensures
        field_size(field_step(f, n1)) == field_size(field_step(f, n2)),
        erase_field(field_step(f, n1)) == erase_field(field_step(f, n2)),
    decreases f,
{
    lemma_elem_deterministic(f.elem, f.directive.byte_order, n1, n2);
}

proof fn lemma_fields_deterministic(fs: Seq<FieldModel>, n1: ByteOrder, n2: ByteOrder)
    ensures
        steps_size(field_steps(fs, n1)) == steps_size(field_steps(fs, n2)),
        forall|i: int|
            0 <= i < fs.len() ==> erase_field(#[trigger] field_steps(fs, n1)[i]) == erase_field(
                field_steps(fs, n2)[i],
            ),
    decreases fs,
{
    if fs.len() > 0 {
        let init = fs.drop_last();
        lemma_fields_deterministic(init, n1, n2);
        lemma_field_deterministic(fs.last(), n1, n2);
        assert(field_steps(fs, n1).drop_last() =~= field_steps(init, n1));
        assert(field_steps(fs, n2).drop_last() =~= field_steps(init, n2));
        assert forall|i: int| 0 <= i < fs.len() implies erase_field(
            #[trigger] field_steps(fs, n1)[i],
        ) == erase_field(field_steps(fs, n2)[i]) by {
            if i < fs.len() - 1 {
                assert(field_steps(fs, n1)[i] == field_steps(init, n1)[i]);
                assert(field_steps(fs, n2)[i] == field_steps(init, n2)[i]);
            }
        }
    }
}

/// Fields are laid out in order: each field's bytes end before the next field's begin,
/// and the next one starts right where the previous one ends.
pub proof fn law_fields_in_order(fs: Seq<FieldStep>, i: int, j: int)
    requires
        0 <= i < j < fs.len(),
    ensures
        offset(fs, i) + field_size(fs[i]) <= offset(fs, j),
        offset(fs, i + 1) == offset(fs, i) + field_size(fs[i]),
        offset(fs, j) + field_size(fs[j]) <= steps_size(fs),
    decreases j - i,
{
    lemma_steps_size_prefix(fs, i);
    lemma_steps_size_prefix(fs, j);
    if i + 1 < j {
        law_fields_in_order(fs, i + 1, j);
        lemma_steps_size_prefix(fs, i + 1);
    }
}

/// Removing one field shortens the layout by that field's size.
proof fn lemma_remove_size(fs: Seq<FieldStep>, k: int)
    requires
        0 <= k < fs.len(),
    ensures
        steps_size(fs) == steps_size(fs.remove(k)) + field_size(fs[k]),
    decreases fs.len(),
{
    if k == fs.len() - 1 {
        assert(fs.remove(k) =~= fs.drop_last());
    } else {
        lemma_remove_size(fs.drop_last(), k);
        assert(fs.remove(k).drop_last() =~= fs.drop_last().remove(k));
        assert(fs.remove(k).last() == fs.last());
    }
}

/// Reordering the fields of a layout does not change its byte length.
pub proof fn law_reorder_keeps_length(fs1: Seq<FieldStep>, fs2: Seq<FieldStep>)
    requires
        fs1.to_multiset() == fs2.to_multiset(),
    ensures
        steps_size(fs1) == steps_size(fs2),
    decreases fs1.len(),
{
    broadcast use group_to_multiset_ensures;

    if fs1.len() == 0 {
        assert(fs1.to_multiset().len() == 0);
        assert(fs2.to_multiset().len() == fs2.len());
    } else {
        let x = fs1.last();
        let init = fs1.drop_last();
        assert(init.push(x) =~= fs1);
        assert(fs1.to_multiset().count(x) > 0);
        assert(fs2.contains(x));
        let k = choose|k: int| 0 <= k < fs2.len() && fs2[k] == x;
        assert(fs2.remove(k).to_multiset() =~= init.to_multiset());
        law_reorder_keeps_length(init, fs2.remove(k));
        lemma_remove_size(fs2, k);
    }
}

/// A field padded with `bytes = n` occupies exactly `n` bytes whatever its declared type,
/// and decodes to the default of its declared type whatever those bytes hold.
pub proof fn law_padding_opacity(f: FieldModel, native: ByteOrder, n: usize, b: Seq<u8>)
    requires
        f.directive.padding == Some(PaddingMode::SkipBytes(n)),
    ensures
        field_size(field_step(f, native)) == n,
        field_step(f, native) is Skip,
        decode_field(field_step(f, native), b) == default_field(field_step(f, native)),
{
}

/// A field padded without parameters occupies what its declared type occupies, and decodes
/// to that type's default whatever the bytes hold.
pub proof fn law_type_sized_padding(f: FieldModel, native: ByteOrder, b: Seq<u8>)
    requires
        f.directive.padding == Some(PaddingMode::SkipTypeSized),
    ensures
        field_size(field_step(f, native)) == step_size(
            elem_step(f.elem, f.directive.byte_order, native),
        ) * f.arity.count(),
        decode_field(field_step(f, native), b) == default_field(field_step(f, native)),
{
}

} // verus!
