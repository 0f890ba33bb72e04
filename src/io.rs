//! Typed reading and writing: scalars in a chosen byte order, and whole records.
use crate::error::CodecError;
use crate::layout::{steps_size, Codec, ElemStep};
use crate::primitive::{bytes_in, pow256, read_uint, value_in, write_uint, ByteOrder, PrimKind};
use crate::source::Source;
use crate::value::{conforms_step, decode_fields, encode_step, Datum, Value};
use vstd::prelude::*;

verus! {

/// A field type of zero size that marks padding.
#[derive(Debug, Default, Clone, Copy, PartialEq, Eq)]
pub struct Pad;

/// What reading one scalar of `width` bytes in `order` does to a source: on success, `bits`
/// is the number those bytes spell and they are consumed; on failure nothing is consumed.
pub open spec fn scalar_read(
    input: Seq<u8>,
    before: nat,
    input_after: Seq<u8>,
    after: nat,
    ok: bool,
    bits: nat,
    width: nat,
    order: ByteOrder,
) -> bool {
    &&& input_after == input
    &&& ok <==> before + width <= input.len()
    &&& ok ==> {
        &&& bits == value_in(order, input.subrange(before as int, (before + width) as int))
        &&& after == before + width
    }
    &&& !ok ==> after == before
}

/// A fixed-width integer type, seen as its unsigned bit pattern.
pub trait Primitive: Sized + Copy {
    spec fn spec_kind() -> PrimKind;

    /// The bit pattern of a value: the value itself for an unsigned type, its two's
    /// complement for a signed one.
    spec fn spec_bits(v: Self) -> nat;

    fn kind() -> (r: PrimKind)
        ensures
            r == Self::spec_kind(),
    ;

    fn to_bits(self) -> (r: u128)
        ensures
            r == Self::spec_bits(self),
            r < pow256(Self::spec_kind().spec_width()),
    ;

    fn from_bits(bits: u128) -> (r: Self)
        requires
            bits < pow256(Self::spec_kind().spec_width()),
        ensures
            Self::spec_bits(r) == bits,
    ;

    /// The bit pattern fits the width and decides the value: `from_bits(to_bits(x)) == x`.
    proof fn lemma_bits_decide(a: Self, b: Self)
        ensures
            Self::spec_bits(a) < pow256(Self::spec_kind().spec_width()),
            Self::spec_bits(a) == Self::spec_bits(b) ==> a == b,
    ;
}

/// Reading a scalar in little-endian, big-endian or native byte order.
pub trait PrimitiveRead: Primitive {
    /// Reads a scalar stored least significant byte first.
    fn read_le(src: &mut Source) -> (r: Result<Self, CodecError>)
        ensures
            scalar_read(
                old(src).bytes(),
                old(src).pos(),
                final(src).bytes(),
                final(src).pos(),
                r is Ok,
                Self::spec_bits(r->Ok_0),
                Self::spec_kind().spec_width(),
                ByteOrder::Little,
            ),
            r is Err ==> r->Err_0 == CodecError::ShortRead,
    {
        let k = Self::kind();
        let w = k.width();
        let bytes = match src.read_exact(w) {
            Ok(b) => b,
            Err(e) => return Err(e),
        };
        let bits = read_uint(&bytes, 0, k, ByteOrder::Little);
        proof {
            assert(bytes@.subrange(0, w as int) =~= bytes@);
            crate::primitive::lemma_le_value_bound(bytes@);
        }
        Ok(Self::from_bits(bits))
    }

    /// Reads a scalar stored most significant byte first.
    fn read_be(src: &mut Source) -> (r: Result<Self, CodecError>)
        ensures
            scalar_read(
                old(src).bytes(),
                old(src).pos(),
                final(src).bytes(),
                final(src).pos(),
                r is Ok,
                Self::spec_bits(r->Ok_0),
                Self::spec_kind().spec_width(),
                ByteOrder::Big,
            ),
            r is Err ==> r->Err_0 == CodecError::ShortRead,
    {
        let k = Self::kind();
        let w = k.width();
        let bytes = match src.read_exact(w) {
            Ok(b) => b,
            Err(e) => return Err(e),
        };
        let bits = read_uint(&bytes, 0, k, ByteOrder::Big);
        proof {
            assert(bytes@.subrange(0, w as int) =~= bytes@);
            crate::primitive::lemma_le_value_bound(bytes@.reverse());
        }
        Ok(Self::from_bits(bits))
    }

    /// Reads a scalar in the build's native byte order.
    fn read_ne(src: &mut Source) -> (r: Result<Self, CodecError>)
        ensures
            scalar_read(
                old(src).bytes(),
                old(src).pos(),
                final(src).bytes(),
                final(src).pos(),
                r is Ok,
                Self::spec_bits(r->Ok_0),
                Self::spec_kind().spec_width(),
                ByteOrder::Little,
            ) || scalar_read(
                old(src).bytes(),
                old(src).pos(),
                final(src).bytes(),
                final(src).pos(),
                r is Ok,
                Self::spec_bits(r->Ok_0),
                Self::spec_kind().spec_width(),
                ByteOrder::Big,
            ),
            r is Err ==> r->Err_0 == CodecError::ShortRead,
    {
        match ByteOrder::native() {
            ByteOrder::Little => Self::read_le(src),
            ByteOrder::Big => Self::read_be(src),
        }
    }
}

/// Writing a scalar in little-endian, big-endian or native byte order.
pub trait PrimitiveWrite: Primitive {
    /// Appends the scalar least significant byte first.
    fn write_le(&self, sink: &mut Vec<u8>)
        ensures
            final(sink)@ == old(sink)@ + bytes_in(
                ByteOrder::Little,
                Self::spec_bits(*self),
                Self::spec_kind().spec_width(),
            ),
    {
        let bits = self.to_bits();
        write_uint(sink, bits, Self::kind(), ByteOrder::Little)
    }

    /// Appends the scalar most significant byte first.
    fn write_be(&self, sink: &mut Vec<u8>)
        ensures
            final(sink)@ == old(sink)@ + bytes_in(
                ByteOrder::Big,
                Self::spec_bits(*self),
                Self::spec_kind().spec_width(),
            ),
    {
        let bits = self.to_bits();
        write_uint(sink, bits, Self::kind(), ByteOrder::Big)
    }

    /// Appends the scalar in the build's native byte order.
    fn write_ne(&self, sink: &mut Vec<u8>)
        ensures
            final(sink)@ == old(sink)@ + bytes_in(
                ByteOrder::Little,
                Self::spec_bits(*self),
                Self::spec_kind().spec_width(),
            ) || final(sink)@ == old(sink)@ + bytes_in(
                ByteOrder::Big,
                Self::spec_bits(*self),
                Self::spec_kind().spec_width(),
            ),
    {
        match ByteOrder::native() {
            ByteOrder::Little => self.write_le(sink),
            ByteOrder::Big => self.write_be(sink),
        }
    }
}

/// Whether `b` spells `bits` in one of the two byte orders: how a scalar in the build's
/// native order reads.
pub open spec fn spells_in_some_order(b: Seq<u8>, bits: nat) -> bool {
    bits == value_in(ByteOrder::Little, b) || bits == value_in(ByteOrder::Big, b)
}

/// Whether `b` is the image of `bits` over `width` bytes in one of the two byte orders: how
/// a scalar in the build's native order is written.
pub open spec fn image_in_some_order(b: Seq<u8>, bits: nat, width: nat) -> bool {
    b == bytes_in(ByteOrder::Little, bits, width) || b == bytes_in(ByteOrder::Big, bits, width)
}

/// `before + x` keeps `before` in front and holds `x` after it.
pub proof fn lemma_appended(before: Seq<u8>, x: Seq<u8>)
    ensures
        (before + x).subrange(0, before.len() as int) == before,
        (before + x).subrange(before.len() as int, (before + x).len() as int) == x,
{
    assert((before + x).subrange(0, before.len() as int) =~= before);
    assert((before + x).subrange(before.len() as int, (before + x).len() as int) =~= x);
}

/// A type that reads itself from a source, in a fixed number of bytes.
pub trait Read: Sized {
    /// How many bytes one value occupies.
    spec fn spec_size() -> nat;

    /// Whether the bytes `b`, `spec_size()` of them, read as `v`.
    spec fn reads_as(b: Seq<u8>, v: Self) -> bool;

    /// Reads one value: `Ok` exactly when enough bytes are left, and then a value that the
    /// next `spec_size()` bytes read as, which are consumed. On failure nothing is consumed.
    fn read(src: &mut Source) -> (r: Result<Self, CodecError>)
        ensures
            final(src).bytes() == old(src).bytes(),
            r is Ok <==> old(src).pos() + Self::spec_size() <= old(src).bytes().len(),
            r is Ok ==> {
                &&& final(src).pos() == old(src).pos() + Self::spec_size()
                &&& Self::reads_as(
                    old(src).bytes().subrange(
                        old(src).pos() as int,
                        (old(src).pos() + Self::spec_size()) as int,
                    ),
                    r->Ok_0,
                )
            },
            r is Err ==> final(src).pos() == old(src).pos() && r->Err_0 == CodecError::ShortRead,
    ;
}

/// A type that writes itself to a sink.
pub trait Write: Sized {
    /// Whether `b` is what writing `v` appends.
    spec fn writes_as(v: Self, b: Seq<u8>) -> bool;

    /// Appends the bytes of the value; what was there stays.
    fn write(&self, sink: &mut Vec<u8>)
        ensures
            old(sink)@.len() <= final(sink)@.len(),
            final(sink)@.subrange(0, old(sink)@.len() as int) == old(sink)@,
            Self::writes_as(
                *self,
                final(sink)@.subrange(old(sink)@.len() as int, final(sink)@.len() as int),
            ),
    ;
}

/// A byte source that typed values can be read from.
pub trait Reader: Sized {
    /// All the bytes of the source.
    spec fn input(&self) -> Seq<u8>;

    /// How many of them have been read.
    spec fn consumed(&self) -> nat;

    /// Reads a value of a type that reads itself: what `T::read` states.
    fn read_as<T: Read>(&mut self) -> (r: Result<T, CodecError>)
        ensures
            final(self).input() == old(self).input(),
            r is Ok <==> old(self).consumed() + T::spec_size() <= old(self).input().len(),
            r is Ok ==> {
                &&& final(self).consumed() == old(self).consumed() + T::spec_size()
                &&& T::reads_as(
                    old(self).input().subrange(
                        old(self).consumed() as int,
                        (old(self).consumed() + T::spec_size()) as int,
                    ),
                    r->Ok_0,
                )
            },
            r is Err ==> final(self).consumed() == old(self).consumed() && r->Err_0
                == CodecError::ShortRead,
    ;

    /// Reads a scalar stored least significant byte first.
    fn read_le<T: PrimitiveRead>(&mut self) -> (r: Result<T, CodecError>)
        ensures
            scalar_read(
                old(self).input(),
                old(self).consumed(),
                final(self).input(),
                final(self).consumed(),
                r is Ok,
                T::spec_bits(r->Ok_0),
                T::spec_kind().spec_width(),
                ByteOrder::Little,
            ),
            r is Err ==> r->Err_0 == CodecError::ShortRead,
    ;

    /// Reads a scalar stored most significant byte first.
    fn read_be<T: PrimitiveRead>(&mut self) -> (r: Result<T, CodecError>)
        ensures
            scalar_read(
                old(self).input(),
                old(self).consumed(),
                final(self).input(),
                final(self).consumed(),
                r is Ok,
                T::spec_bits(r->Ok_0),
                T::spec_kind().spec_width(),
                ByteOrder::Big,
            ),
            r is Err ==> r->Err_0 == CodecError::ShortRead,
    ;

    /// Reads one record with a compiled codec: `Ok` exactly when enough bytes are left, and
    /// then the record that those bytes decode to.
    fn read_record(&mut self, codec: &Codec) -> (r: Result<Value, CodecError>)
        ensures
            final(self).input() == old(self).input(),
            r is Ok <==> old(self).consumed() + steps_size(codec.steps()) <= old(
                self,
            ).input().len(),
            match r {
                Ok(v) => {
                    &&& v.model() == Datum::Record(
                        decode_fields(
                            codec.steps(),
                            old(self).input().subrange(
                                old(self).consumed() as int,
                                (old(self).consumed() + steps_size(codec.steps())) as int,
                            ),
                        ),
                    )
                    &&& final(self).consumed() == old(self).consumed() + steps_size(codec.steps())
                },
                Err(e) => e == CodecError::ShortRead && final(self).consumed() == old(
                    self,
                ).consumed(),
            },
    ;
}

impl Reader for Source {
    open spec fn input(&self) -> Seq<u8> {
        self.bytes()
    }

    open spec fn consumed(&self) -> nat {
        self.pos()
    }

    fn read_as<T: Read>(&mut self) -> (r: Result<T, CodecError>) {
        T::read(self)
    }

    fn read_le<T: PrimitiveRead>(&mut self) -> (r: Result<T, CodecError>) {
        T::read_le(self)
    }

    fn read_be<T: PrimitiveRead>(&mut self) -> (r: Result<T, CodecError>) {
        T::read_be(self)
    }

    fn read_record(&mut self, codec: &Codec) -> (r: Result<Value, CodecError>) {
        codec.decode(self)
    }
}

/// A byte sink that typed values can be written to.
pub trait Writer: Sized {
    /// All the bytes written so far.
    spec fn output(&self) -> Seq<u8>;

    /// Appends a value of a type that writes itself: what `T::write` states.
    fn write_as<T: Write>(&mut self, v: &T)
        ensures
            old(self).output().len() <= final(self).output().len(),
            final(self).output().subrange(0, old(self).output().len() as int) == old(
                self,
            ).output(),
            T::writes_as(
                *v,
                final(self).output().subrange(
                    old(self).output().len() as int,
                    final(self).output().len() as int,
                ),
            ),
    ;

    /// Appends a scalar least significant byte first.
    fn write_le<T: PrimitiveWrite>(&mut self, v: &T)
        ensures
            final(self).output() == old(self).output() + bytes_in(
                ByteOrder::Little,
                T::spec_bits(*v),
                T::spec_kind().spec_width(),
            ),
    ;

    /// Appends a scalar most significant byte first.
    fn write_be<T: PrimitiveWrite>(&mut self, v: &T)
        ensures
            final(self).output() == old(self).output() + bytes_in(
                ByteOrder::Big,
                T::spec_bits(*v),
                T::spec_kind().spec_width(),
            ),
    ;

    /// Appends one record with a compiled codec; a value without the record's shape is
    /// refused and nothing is written.
    fn write_record(&mut self, codec: &Codec, v: &Value) -> (r: Result<(), CodecError>)
        ensures
            r is Ok <==> conforms_step(ElemStep::Record(codec.steps()), v.model()),
            match r {
                Ok(_) => final(self).output() == old(self).output() + encode_step(
                    ElemStep::Record(codec.steps()),
                    v.model(),
                ),
                Err(e) => e == CodecError::ValueMismatch && final(self).output() == old(
                    self,
                ).output(),
            },
    ;
}

impl Writer for Vec<u8> {
    open spec fn output(&self) -> Seq<u8> {
        self@
    }

    fn write_as<T: Write>(&mut self, v: &T) {
        v.write(self)
    }

    fn write_le<T: PrimitiveWrite>(&mut self, v: &T) {
        v.write_le(self)
    }

    fn write_be<T: PrimitiveWrite>(&mut self, v: &T) {
        v.write_be(self)
    }

    fn write_record(&mut self, codec: &Codec, v: &Value) -> (r: Result<(), CodecError>) {
        codec.encode(v, self)
    }
}

impl Primitive for u8 {
    open spec fn spec_kind() -> PrimKind {
        PrimKind::U8
    }

    open spec fn spec_bits(v: u8) -> nat {
        v as nat
    }

    fn kind() -> (r: PrimKind) {
        PrimKind::U8
    }

    fn to_bits(self) -> (r: u128) {
        proof {
            reveal_with_fuel(pow256, 2);
        }
        self as u128
    }

    fn from_bits(bits: u128) -> (r: u8) {
        proof {
            reveal_with_fuel(pow256, 2);
        }
        bits as u8
    }

    proof fn lemma_bits_decide(a: u8, b: u8) {
        reveal_with_fuel(pow256, 2);
    }
}

impl PrimitiveRead for u8 {}

impl PrimitiveWrite for u8 {}

impl Read for u8 {
    open spec fn spec_size() -> nat {
        <u8 as Primitive>::spec_kind().spec_width()
    }

    open spec fn reads_as(b: Seq<u8>, v: u8) -> bool {
        spells_in_some_order(b, <u8 as Primitive>::spec_bits(v))
    }

    fn read(src: &mut Source) -> (r: Result<u8, CodecError>) {
        u8::read_ne(src)
    }
}

impl Write for u8 {
    open spec fn writes_as(v: u8, b: Seq<u8>) -> bool {
        image_in_some_order(
            b,
            <u8 as Primitive>::spec_bits(v),
            <u8 as Primitive>::spec_kind().spec_width(),
        )
    }

    fn write(&self, sink: &mut Vec<u8>) {
        let ghost before = sink@;
        self.write_ne(sink);
        proof {
            let bits = <u8 as Primitive>::spec_bits(*self);
            let w = <u8 as Primitive>::spec_kind().spec_width();
            lemma_appended(before, bytes_in(ByteOrder::Little, bits, w));
            lemma_appended(before, bytes_in(ByteOrder::Big, bits, w));
        }
    }
}

impl Primitive for u16 {
    open spec fn spec_kind() -> PrimKind {
        PrimKind::U16
    }

    open spec fn spec_bits(v: u16) -> nat {
        v as nat
    }

    fn kind() -> (r: PrimKind) {
        PrimKind::U16
    }

    fn to_bits(self) -> (r: u128) {
        proof {
            reveal_with_fuel(pow256, 3);
        }
        self as u128
    }

    fn from_bits(bits: u128) -> (r: u16) {
        proof {
            reveal_with_fuel(pow256, 3);
        }
        bits as u16
    }

    proof fn lemma_bits_decide(a: u16, b: u16) {
        reveal_with_fuel(pow256, 3);
    }
}

impl PrimitiveRead for u16 {}

impl PrimitiveWrite for u16 {}

impl Read for u16 {
    open spec fn spec_size() -> nat {
        <u16 as Primitive>::spec_kind().spec_width()
    }

    open spec fn reads_as(b: Seq<u8>, v: u16) -> bool {
        spells_in_some_order(b, <u16 as Primitive>::spec_bits(v))
    }

    fn read(src: &mut Source) -> (r: Result<u16, CodecError>) {
        u16::read_ne(src)
    }
}

impl Write for u16 {
    open spec fn writes_as(v: u16, b: Seq<u8>) -> bool {
        image_in_some_order(
            b,
            <u16 as Primitive>::spec_bits(v),
            <u16 as Primitive>::spec_kind().spec_width(),
        )
    }

    fn write(&self, sink: &mut Vec<u8>) {
        let ghost before = sink@;
        self.write_ne(sink);
        proof {
            let bits = <u16 as Primitive>::spec_bits(*self);
            let w = <u16 as Primitive>::spec_kind().spec_width();
            lemma_appended(before, bytes_in(ByteOrder::Little, bits, w));
            lemma_appended(before, bytes_in(ByteOrder::Big, bits, w));
        }
    }
}

impl Primitive for u32 {
    open spec fn spec_kind() -> PrimKind {
        PrimKind::U32
    }

    open spec fn spec_bits(v: u32) -> nat {
        v as nat
    }

    fn kind() -> (r: PrimKind) {
        PrimKind::U32
    }

    fn to_bits(self) -> (r: u128) {
        proof {
            reveal_with_fuel(pow256, 5);
        }
        self as u128
    }

    fn from_bits(bits: u128) -> (r: u32) {
        proof {
            reveal_with_fuel(pow256, 5);
        }
        bits as u32
    }

    proof fn lemma_bits_decide(a: u32, b: u32) {
        reveal_with_fuel(pow256, 5);
    }
}

impl PrimitiveRead for u32 {}

impl PrimitiveWrite for u32 {}

impl Read for u32 {
    open spec fn spec_size() -> nat {
        <u32 as Primitive>::spec_kind().spec_width()
    }

    open spec fn reads_as(b: Seq<u8>, v: u32) -> bool {
        spells_in_some_order(b, <u32 as Primitive>::spec_bits(v))
    }

    fn read(src: &mut Source) -> (r: Result<u32, CodecError>) {
        u32::read_ne(src)
    }
}

impl Write for u32 {
    open spec fn writes_as(v: u32, b: Seq<u8>) -> bool {
        image_in_some_order(
            b,
            <u32 as Primitive>::spec_bits(v),
            <u32 as Primitive>::spec_kind().spec_width(),
        )
    }

    fn write(&self, sink: &mut Vec<u8>) {
        let ghost before = sink@;
        self.write_ne(sink);
        proof {
            let bits = <u32 as Primitive>::spec_bits(*self);
            let w = <u32 as Primitive>::spec_kind().spec_width();
            lemma_appended(before, bytes_in(ByteOrder::Little, bits, w));
            lemma_appended(before, bytes_in(ByteOrder::Big, bits, w));
        }
    }
}

impl Primitive for u64 {
    open spec fn spec_kind() -> PrimKind {
        PrimKind::U64
    }

    open spec fn spec_bits(v: u64) -> nat {
        v as nat
    }

    fn kind() -> (r: PrimKind) {
        PrimKind::U64
    }

    fn to_bits(self) -> (r: u128) {
        proof {
            reveal_with_fuel(pow256, 9);
        }
        self as u128
    }

    fn from_bits(bits: u128) -> (r: u64) {
        proof {
            reveal_with_fuel(pow256, 9);
        }
        bits as u64
    }

    proof fn lemma_bits_decide(a: u64, b: u64) {
        reveal_with_fuel(pow256, 9);
    }
}

impl PrimitiveRead for u64 {}

impl PrimitiveWrite for u64 {}

impl Read for u64 {
    open spec fn spec_size() -> nat {
        <u64 as Primitive>::spec_kind().spec_width()
    }

    open spec fn reads_as(b: Seq<u8>, v: u64) -> bool {
        spells_in_some_order(b, <u64 as Primitive>::spec_bits(v))
    }

    fn read(src: &mut Source) -> (r: Result<u64, CodecError>) {
        u64::read_ne(src)
    }
}

impl Write for u64 {
    open spec fn writes_as(v: u64, b: Seq<u8>) -> bool {
        image_in_some_order(
            b,
            <u64 as Primitive>::spec_bits(v),
            <u64 as Primitive>::spec_kind().spec_width(),
        )
    }

    fn write(&self, sink: &mut Vec<u8>) {
        let ghost before = sink@;
        self.write_ne(sink);
        proof {
            let bits = <u64 as Primitive>::spec_bits(*self);
            let w = <u64 as Primitive>::spec_kind().spec_width();
            lemma_appended(before, bytes_in(ByteOrder::Little, bits, w));
            lemma_appended(before, bytes_in(ByteOrder::Big, bits, w));
        }
    }
}

impl Primitive for u128 {
    open spec fn spec_kind() -> PrimKind {
        PrimKind::U128
    }

    open spec fn spec_bits(v: u128) -> nat {
        v as nat
    }

    fn kind() -> (r: PrimKind) {
        PrimKind::U128
    }

    fn to_bits(self) -> (r: u128) {
        proof {
            reveal_with_fuel(pow256, 17);
        }
        self
    }

    fn from_bits(bits: u128) -> (r: u128) {
        proof {
            reveal_with_fuel(pow256, 17);
        }
        bits
    }

    proof fn lemma_bits_decide(a: u128, b: u128) {
        reveal_with_fuel(pow256, 17);
    }
}

impl PrimitiveRead for u128 {}

impl PrimitiveWrite for u128 {}

impl Read for u128 {
    open spec fn spec_size() -> nat {
        <u128 as Primitive>::spec_kind().spec_width()
    }

    open spec fn reads_as(b: Seq<u8>, v: u128) -> bool {
        spells_in_some_order(b, <u128 as Primitive>::spec_bits(v))
    }

    fn read(src: &mut Source) -> (r: Result<u128, CodecError>) {
        u128::read_ne(src)
    }
}

impl Write for u128 {
    open spec fn writes_as(v: u128, b: Seq<u8>) -> bool {
        image_in_some_order(
            b,
            <u128 as Primitive>::spec_bits(v),
            <u128 as Primitive>::spec_kind().spec_width(),
        )
    }

    fn write(&self, sink: &mut Vec<u8>) {
        let ghost before = sink@;
        self.write_ne(sink);
        proof {
            let bits = <u128 as Primitive>::spec_bits(*self);
            let w = <u128 as Primitive>::spec_kind().spec_width();
            lemma_appended(before, bytes_in(ByteOrder::Little, bits, w));
            lemma_appended(before, bytes_in(ByteOrder::Big, bits, w));
        }
    }
}

impl Primitive for i8 {
    open spec fn spec_kind() -> PrimKind {
        PrimKind::I8
    }

    open spec fn spec_bits(v: i8) -> nat {
        (v as u8) as nat
    }

    fn kind() -> (r: PrimKind) {
        PrimKind::I8
    }

    fn to_bits(self) -> (r: u128) {
        proof {
            reveal_with_fuel(pow256, 2);
        }
        (self as u8) as u128
    }

    fn from_bits(bits: u128) -> (r: i8) {
        proof {
            reveal_with_fuel(pow256, 2);
            assert(((bits as u8) as i8) as u8 == bits as u8) by (bit_vector);
        }
        (bits as u8) as i8
    }

    proof fn lemma_bits_decide(a: i8, b: i8) {
        reveal_with_fuel(pow256, 2);
        assert((a as u8) == (b as u8) ==> a == b) by (bit_vector);
    }
}

impl PrimitiveRead for i8 {}

impl PrimitiveWrite for i8 {}

impl Read for i8 {
    open spec fn spec_size() -> nat {
        <i8 as Primitive>::spec_kind().spec_width()
    }

    open spec fn reads_as(b: Seq<u8>, v: i8) -> bool {
        spells_in_some_order(b, <i8 as Primitive>::spec_bits(v))
    }

    fn read(src: &mut Source) -> (r: Result<i8, CodecError>) {
        i8::read_ne(src)
    }
}

impl Write for i8 {
    open spec fn writes_as(v: i8, b: Seq<u8>) -> bool {
        image_in_some_order(
            b,
            <i8 as Primitive>::spec_bits(v),
            <i8 as Primitive>::spec_kind().spec_width(),
        )
    }

    fn write(&self, sink: &mut Vec<u8>) {
        let ghost before = sink@;
        self.write_ne(sink);
        proof {
            let bits = <i8 as Primitive>::spec_bits(*self);
            let w = <i8 as Primitive>::spec_kind().spec_width();
            lemma_appended(before, bytes_in(ByteOrder::Little, bits, w));
            lemma_appended(before, bytes_in(ByteOrder::Big, bits, w));
        }
    }
}

impl Primitive for i16 {
    open spec fn spec_kind() -> PrimKind {
        PrimKind::I16
    }

    open spec fn spec_bits(v: i16) -> nat {
        (v as u16) as nat
    }

    fn kind() -> (r: PrimKind) {
        PrimKind::I16
    }

    fn to_bits(self) -> (r: u128) {
        proof {
            reveal_with_fuel(pow256, 3);
        }
        (self as u16) as u128
    }

    fn from_bits(bits: u128) -> (r: i16) {
        proof {
            reveal_with_fuel(pow256, 3);
            assert(((bits as u16) as i16) as u16 == bits as u16) by (bit_vector);
        }
        (bits as u16) as i16
    }

    proof fn lemma_bits_decide(a: i16, b: i16) {
        reveal_with_fuel(pow256, 3);
        assert((a as u16) == (b as u16) ==> a == b) by (bit_vector);
    }
}

impl PrimitiveRead for i16 {}

impl PrimitiveWrite for i16 {}

impl Read for i16 {
    open spec fn spec_size() -> nat {
        <i16 as Primitive>::spec_kind().spec_width()
    }

    open spec fn reads_as(b: Seq<u8>, v: i16) -> bool {
        spells_in_some_order(b, <i16 as Primitive>::spec_bits(v))
    }

    fn read(src: &mut Source) -> (r: Result<i16, CodecError>) {
        i16::read_ne(src)
    }
}

impl Write for i16 {
    open spec fn writes_as(v: i16, b: Seq<u8>) -> bool {
        image_in_some_order(
            b,
            <i16 as Primitive>::spec_bits(v),
            <i16 as Primitive>::spec_kind().spec_width(),
        )
    }

    fn write(&self, sink: &mut Vec<u8>) {
        let ghost before = sink@;
        self.write_ne(sink);
        proof {
            let bits = <i16 as Primitive>::spec_bits(*self);
            let w = <i16 as Primitive>::spec_kind().spec_width();
            lemma_appended(before, bytes_in(ByteOrder::Little, bits, w));
            lemma_appended(before, bytes_in(ByteOrder::Big, bits, w));
        }
    }
}

impl Primitive for i32 {
    open spec fn spec_kind() -> PrimKind {
        PrimKind::I32
    }

    open spec fn spec_bits(v: i32) -> nat {
        (v as u32) as nat
    }

    fn kind() -> (r: PrimKind) {
        PrimKind::I32
    }

    fn to_bits(self) -> (r: u128) {
        proof {
            reveal_with_fuel(pow256, 5);
        }
        (self as u32) as u128
    }

    fn from_bits(bits: u128) -> (r: i32) {
        proof {
            reveal_with_fuel(pow256, 5);
            assert(((bits as u32) as i32) as u32 == bits as u32) by (bit_vector);
        }
        (bits as u32) as i32
    }

    proof fn lemma_bits_decide(a: i32, b: i32) {
        reveal_with_fuel(pow256, 5);
        assert((a as u32) == (b as u32) ==> a == b) by (bit_vector);
    }
}

impl PrimitiveRead for i32 {}

impl PrimitiveWrite for i32 {}

impl Read for i32 {
    open spec fn spec_size() -> nat {
        <i32 as Primitive>::spec_kind().spec_width()
    }

    open spec fn reads_as(b: Seq<u8>, v: i32) -> bool {
        spells_in_some_order(b, <i32 as Primitive>::spec_bits(v))
    }

    fn read(src: &mut Source) -> (r: Result<i32, CodecError>) {
        i32::read_ne(src)
    }
}

impl Write for i32 {
    open spec fn writes_as(v: i32, b: Seq<u8>) -> bool {
        image_in_some_order(
            b,
            <i32 as Primitive>::spec_bits(v),
            <i32 as Primitive>::spec_kind().spec_width(),
        )
    }

    fn write(&self, sink: &mut Vec<u8>) {
        let ghost before = sink@;
        self.write_ne(sink);
        proof {
            let bits = <i32 as Primitive>::spec_bits(*self);
            let w = <i32 as Primitive>::spec_kind().spec_width();
            lemma_appended(before, bytes_in(ByteOrder::Little, bits, w));
            lemma_appended(before, bytes_in(ByteOrder::Big, bits, w));
        }
    }
}

impl Primitive for i64 {
    open spec fn spec_kind() -> PrimKind {
        PrimKind::I64
    }

    open spec fn spec_bits(v: i64) -> nat {
        (v as u64) as nat
    }

    fn kind() -> (r: PrimKind) {
        PrimKind::I64
    }

    fn to_bits(self) -> (r: u128) {
        proof {
            reveal_with_fuel(pow256, 9);
        }
        (self as u64) as u128
    }

    fn from_bits(bits: u128) -> (r: i64) {
        proof {
            reveal_with_fuel(pow256, 9);
            assert(((bits as u64) as i64) as u64 == bits as u64) by (bit_vector);
        }
        (bits as u64) as i64
    }

    proof fn lemma_bits_decide(a: i64, b: i64) {
        reveal_with_fuel(pow256, 9);
        assert((a as u64) == (b as u64) ==> a == b) by (bit_vector);
    }
}

impl PrimitiveRead for i64 {}

impl PrimitiveWrite for i64 {}

impl Read for i64 {
    open spec fn spec_size() -> nat {
        <i64 as Primitive>::spec_kind().spec_width()
    }

    open spec fn reads_as(b: Seq<u8>, v: i64) -> bool {
        spells_in_some_order(b, <i64 as Primitive>::spec_bits(v))
    }

    fn read(src: &mut Source) -> (r: Result<i64, CodecError>) {
        i64::read_ne(src)
    }
}

impl Write for i64 {
    open spec fn writes_as(v: i64, b: Seq<u8>) -> bool {
        image_in_some_order(
            b,
            <i64 as Primitive>::spec_bits(v),
            <i64 as Primitive>::spec_kind().spec_width(),
        )
    }

    fn write(&self, sink: &mut Vec<u8>) {
        let ghost before = sink@;
        self.write_ne(sink);
        proof {
            let bits = <i64 as Primitive>::spec_bits(*self);
            let w = <i64 as Primitive>::spec_kind().spec_width();
            lemma_appended(before, bytes_in(ByteOrder::Little, bits, w));
            lemma_appended(before, bytes_in(ByteOrder::Big, bits, w));
        }
    }
}

impl Primitive for i128 {
    open spec fn spec_kind() -> PrimKind {
        PrimKind::I128
    }

    open spec fn spec_bits(v: i128) -> nat {
        (v as u128) as nat
    }

    fn kind() -> (r: PrimKind) {
        PrimKind::I128
    }

    fn to_bits(self) -> (r: u128) {
        proof {
            reveal_with_fuel(pow256, 17);
        }
        self as u128
    }

    fn from_bits(bits: u128) -> (r: i128) {
        proof {
            reveal_with_fuel(pow256, 17);
            assert((bits as i128) as u128 == bits) by (bit_vector);
        }
        bits as i128
    }

    proof fn lemma_bits_decide(a: i128, b: i128) {
        reveal_with_fuel(pow256, 17);
        assert((a as u128) == (b as u128) ==> a == b) by (bit_vector);
    }
}

impl PrimitiveRead for i128 {}

impl PrimitiveWrite for i128 {}

impl Read for i128 {
    open spec fn spec_size() -> nat {
        <i128 as Primitive>::spec_kind().spec_width()
    }

    open spec fn reads_as(b: Seq<u8>, v: i128) -> bool {
        spells_in_some_order(b, <i128 as Primitive>::spec_bits(v))
    }

    fn read(src: &mut Source) -> (r: Result<i128, CodecError>) {
        i128::read_ne(src)
    }
}

impl Write for i128 {
    open spec fn writes_as(v: i128, b: Seq<u8>) -> bool {
        image_in_some_order(
            b,
            <i128 as Primitive>::spec_bits(v),
            <i128 as Primitive>::spec_kind().spec_width(),
        )
    }

    fn write(&self, sink: &mut Vec<u8>) {
        let ghost before = sink@;
        self.write_ne(sink);
        proof {
            let bits = <i128 as Primitive>::spec_bits(*self);
            let w = <i128 as Primitive>::spec_kind().spec_width();
            lemma_appended(before, bytes_in(ByteOrder::Little, bits, w));
            lemma_appended(before, bytes_in(ByteOrder::Big, bits, w));
        }
    }
}

} // verus!
