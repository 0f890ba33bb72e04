//! Fixed-width scalars and their little- and big-endian byte images.
use vstd::arithmetic::div_mod::{lemma_div_denominator, lemma_fundamental_div_mod};
use vstd::prelude::*;

verus! {

/// The fixed-width integer kinds that a field can hold.
#[derive(Clone, Copy, Debug, PartialEq, Eq, Structural)]
pub enum PrimKind {
    U8,
    U16,
    U32,
    U64,
    U128,
    I8,
    I16,
    I32,
    I64,
    I128,
}

impl PrimKind {
    /// Number of bytes that one value of this kind occupies in a stream.
    pub open spec fn spec_width(self) -> nat {
        match self {
            PrimKind::U8 | PrimKind::I8 => 1,
            PrimKind::U16 | PrimKind::I16 => 2,
            PrimKind::U32 | PrimKind::I32 => 4,
            PrimKind::U64 | PrimKind::I64 => 8,
            PrimKind::U128 | PrimKind::I128 => 16,
        }
    }

    pub fn width(self) -> (r: usize)
        ensures
            r == self.spec_width(),
    {
        match self {
            PrimKind::U8 | PrimKind::I8 => 1,
            PrimKind::U16 | PrimKind::I16 => 2,
            PrimKind::U32 | PrimKind::I32 => 4,
            PrimKind::U64 | PrimKind::I64 => 8,
            PrimKind::U128 | PrimKind::I128 => 16,
        }
    }
}

/// A concrete byte order: least significant byte first, or most significant first.
#[derive(Clone, Copy, Debug, PartialEq, Eq, Structural)]
pub enum ByteOrder {
    Little,
    Big,
}

/// Relies on `u16::to_ne_bytes`: the bytes of 1 in the target's native order, which is
/// either little-endian or big-endian.
#[verifier::external_body]
fn one_in_native_order() -> (r: [u8; 2])
    ensures
        r@ == seq![1u8, 0u8] || r@ == seq![0u8, 1u8],
{
    1u16.to_ne_bytes()
}

impl ByteOrder {
    /// The native byte order of the target that this library is built for. It is fixed for
    /// a build, but nothing here says which of the two it is.
    pub fn native() -> (r: ByteOrder) {
        let probe = one_in_native_order();
        if probe[0] == 1 {
            ByteOrder::Little
        } else {
            ByteOrder::Big
        }
    }
}

pub open spec fn pow256(n: nat) -> nat
    decreases n,
{
    if n == 0 {
        1
    } else {
        256 * pow256((n - 1) as nat)
    }
}

/// The number whose bytes, least significant first, are `s`.
pub open spec fn le_value(s: Seq<u8>) -> nat
    decreases s.len(),
{
    if s.len() == 0 {
        0
    } else {
        (s[0] + 256 * le_value(s.drop_first())) as nat
    }
}

/// The number that `s` spells in the given byte order.
pub open spec fn value_in(order: ByteOrder, s: Seq<u8>) -> nat {
    match order {
        ByteOrder::Little => le_value(s),
        ByteOrder::Big => le_value(s.reverse()),
    }
}

/// The `n` low bytes of `v`, least significant first.
pub open spec fn le_bytes(v: nat, n: nat) -> Seq<u8> {
    Seq::new(n, |i: int| ((v / pow256(i as nat)) % 256) as u8)
}

/// The `n` low bytes of `v` in the given byte order.
pub open spec fn bytes_in(order: ByteOrder, v: nat, n: nat) -> Seq<u8> {
    match order {
        ByteOrder::Little => le_bytes(v, n),
        ByteOrder::Big => le_bytes(v, n).reverse(),
    }
}

pub proof fn lemma_pow256_positive(n: nat)
    ensures
        pow256(n) > 0,
    decreases n,
{
    if n > 0 {
        lemma_pow256_positive((n - 1) as nat);
    }
}

pub proof fn lemma_pow256_monotone(m: nat, n: nat)
    requires
        m <= n,
    ensures
        pow256(m) <= pow256(n),
    decreases n,
{
    if m < n {
        lemma_pow256_monotone(m, (n - 1) as nat);
    }
}

/// A value read from at most sixteen bytes fits in a `u128`.
pub proof fn lemma_pow256_u128(n: nat)
    requires
        n <= 16,
    ensures
        pow256(n) <= pow256(16),
        pow256(16) == u128::MAX + 1,
{
    lemma_pow256_monotone(n, 16);
    reveal_with_fuel(pow256, 17);
}

pub proof fn lemma_le_value_bound(s: Seq<u8>)
    ensures
        le_value(s) < pow256(s.len()),
    decreases s.len(),
{
    if s.len() > 0 {
        lemma_le_value_bound(s.drop_first());
    }
}

/// Reading back the low bytes of a value that fits in them gives the value.
pub proof fn lemma_le_round_trip(v: nat, n: nat)
    requires
        v < pow256(n),
    ensures
        le_value(le_bytes(v, n)) == v,
    decreases n,
{
    if n == 0 {
    } else {
        let q = v / 256;
        assert(q < pow256((n - 1) as nat)) by {
            lemma_fundamental_div_mod(v as int, 256);
        }
        lemma_le_round_trip(q, (n - 1) as nat);
        assert forall|i: int| 0 <= i < n - 1 implies #[trigger] le_bytes(v, n).drop_first()[i]
            == le_bytes(q, (n - 1) as nat)[i] by {
            lemma_pow256_positive(i as nat);
            lemma_div_denominator(v as int, 256, pow256(i as nat) as int);
        }
        assert(le_bytes(v, n).drop_first() =~= le_bytes(q, (n - 1) as nat));
        lemma_fundamental_div_mod(v as int, 256);
        assert(pow256(0) == 1);
        assert(v / 1 == v);
        assert(le_bytes(v, n)[0] == v % 256);
    }
}

/// The round trip in either byte order.
pub proof fn lemma_round_trip_in(order: ByteOrder, v: nat, n: nat)
    requires
        v < pow256(n),
    ensures
        value_in(order, bytes_in(order, v, n)) == v,
        bytes_in(order, v, n).len() == n,
{
    lemma_le_round_trip(v, n);
    assert(le_bytes(v, n).reverse().reverse() =~= le_bytes(v, n));
}

/// Reads a `kind`-wide number at `pos` in the given byte order.
pub(crate) fn read_uint(data: &Vec<u8>, pos: usize, kind: PrimKind, order: ByteOrder) -> (r: u128)
    requires
        pos + kind.spec_width() <= data@.len(),
    ensures
        r == value_in(order, data@.subrange(pos as int, pos + kind.spec_width())),
{
    let w = kind.width();
    let len = data.len();
    proof {
        lemma_pow256_u128(w as nat);
    }
    let mut acc: u128 = 0;
    match order {
        ByteOrder::Little => {
            let mut i: usize = w;
            while i > 0
                invariant
                    i <= w,
                    w == kind.spec_width(),
                    w <= 16,
                    pos + w <= len,
                    len == data@.len(),
                    pow256(16) == u128::MAX + 1,
                    acc == le_value(data@.subrange(pos + i, pos + w)),
                decreases i,
            {
                let ghost tail = data@.subrange(pos + i, pos + w);
                let ghost next = data@.subrange(pos + i - 1, pos + w);
                proof {
                    assert(next.drop_first() =~= tail);
                    lemma_le_value_bound(tail);
                    lemma_pow256_monotone((w - i + 1) as nat, 16);
                }
                acc = acc * 256 + data[pos + i - 1] as u128;
                i = i - 1;
            }
            assert(data@.subrange(pos as int, pos + w) =~= data@.subrange(pos + i, pos + w));
        },
        ByteOrder::Big => {
            let mut i: usize = 0;
            while i < w
                invariant
                    i <= w,
                    w == kind.spec_width(),
                    w <= 16,
                    pos + w <= len,
                    len == data@.len(),
                    pow256(16) == u128::MAX + 1,
                    acc == le_value(data@.subrange(pos as int, pos + i).reverse()),
                decreases w - i,
            {
                let ghost head = data@.subrange(pos as int, pos + i);
                let ghost next = data@.subrange(pos as int, pos + i + 1);
                proof {
                    assert(next.reverse().drop_first() =~= head.reverse());
                    lemma_le_value_bound(head.reverse());
                    lemma_pow256_monotone((i + 1) as nat, 16);
                }
                acc = acc * 256 + data[pos + i] as u128;
                i = i + 1;
            }
        },
    }
    acc
}

/// The `n` low bytes of `v`, least significant first, as a vector.
fn low_bytes(v: u128, n: usize) -> (r: Vec<u8>)
    requires
        n <= 16,
    ensures
        r@ == le_bytes(v as nat, n as nat),
{
    let mut out: Vec<u8> = Vec::new();
    let mut rest: u128 = v;
    let mut i: usize = 0;
    assert(pow256(0) == 1);
    while i < n
        invariant
            i <= n,
            rest == v as nat / pow256(i as nat),
            out@ == le_bytes(v as nat, i as nat),
        decreases n - i,
    {
        proof {
            lemma_pow256_positive(i as nat);
            lemma_div_denominator(v as int, pow256(i as nat) as int, 256);
        }
        out.push((rest % 256) as u8);
        rest = rest / 256;
        assert(out@ =~= le_bytes(v as nat, (i + 1) as nat));
        i = i + 1;
    }
    out
}

/// Appends the `kind`-wide image of `bits` in the given byte order.
pub(crate) fn write_uint(out: &mut Vec<u8>, bits: u128, kind: PrimKind, order: ByteOrder)
    requires
        bits < pow256(kind.spec_width()),
    ensures
        final(out)@ == old(out)@ + bytes_in(order, bits as nat, kind.spec_width()),
{
    let w = kind.width();
    let img = low_bytes(bits, w);
    let ghost start = out@;
    let mut j: usize = 0;
    while j < w
        invariant
            j <= w,
            w == kind.spec_width(),
            img@.len() == w,
            out@ == start + bytes_in(order, bits as nat, w as nat).subrange(0, j as int),
            img@ == le_bytes(bits as nat, w as nat),
        decreases w - j,
    {
        let b = match order {
            ByteOrder::Little => img[j],
            ByteOrder::Big => img[w - 1 - j],
        };
        out.push(b);
        assert(out@ =~= start + bytes_in(order, bits as nat, w as nat).subrange(0, j + 1));
        j = j + 1;
    }
    assert(bytes_in(order, bits as nat, w as nat).subrange(0, w as int) =~= bytes_in(
        order,
        bits as nat,
        w as nat,
    ));
}

} // verus!
