//! Cutting the queued bytes into link-layer write units.
use vstd::arithmetic::div_mod::{lemma_fundamental_div_mod, lemma_fundamental_div_mod_converse};
use vstd::arithmetic::mul::lemma_mul_inequality;
use vstd::prelude::*;
use vstd::slice::{slice_subrange, slice_to_vec};

verus! {

/// Largest number of bytes in one write to the printer.
pub const TX_UNIT: usize = 20;

/// How a unit is written: acknowledged by the peer, or not.
#[derive(Clone, Copy, Debug, PartialEq, Eq, Structural)]
pub enum WriteMode {
    WithResponse,
    WithoutResponse,
}

/// `len / unit`, rounded up.
pub open spec fn ceil_div(len: nat, unit: nat) -> nat {
    ((len + unit - 1) / (unit as int)) as nat
}

/// Where unit `i` ends: a full unit later, or at the end of the buffer.
pub open spec fn chunk_end(len: nat, unit: nat, i: int) -> int {
    if (i + 1) * unit < len {
        (i + 1) * unit
    } else {
        len as int
    }
}

/// A buffer cut into consecutive units of `unit` bytes, the last one
/// possibly shorter.
pub open spec fn chunk_spec(b: Seq<u8>, unit: nat) -> Seq<Seq<u8>> {
    Seq::new(ceil_div(b.len(), unit), |i: int| b.subrange(i * unit, chunk_end(b.len(), unit, i)))
}

/// Byte sequences joined in order.
pub open spec fn concat(s: Seq<Seq<u8>>) -> Seq<u8>
    decreases s.len(),
{
    if s.len() == 0 {
        Seq::empty()
    } else {
        concat(s.drop_last()) + s.last()
    }
}

/// The mode for a flush of `unit_count` units.
pub open spec fn mode_for(unit_count: nat) -> WriteMode {
    if unit_count > 1 {
        WriteMode::WithoutResponse
    } else {
        WriteMode::WithResponse
    }
}

proof fn lemma_ceil_div(len: nat, unit: nat)
    requires
        unit > 0,
    ensures
        ceil_div(len, unit) * unit >= len,
        forall|i: int| 0 <= i < ceil_div(len, unit) ==> #[trigger] (i * unit) < len,
{
    let q = len as int / unit as int;
    let r = len as int % unit as int;
    lemma_fundamental_div_mod(len as int, unit as int);
    assert(unit * q == q * unit) by (nonlinear_arith);
    if r == 0 {
        lemma_fundamental_div_mod_converse(len + unit - 1, unit as int, q, unit - 1);
        assert forall|i: int| 0 <= i < ceil_div(len, unit) implies #[trigger] (i * unit) < len by {
            lemma_mul_inequality(i, q - 1, unit as int);
            assert((q - 1) * unit == q * unit - unit) by (nonlinear_arith);
        }
    } else {
        assert((q + 1) * unit == q * unit + unit) by (nonlinear_arith);
        lemma_fundamental_div_mod_converse(len + unit - 1, unit as int, q + 1, r - 1);
        assert forall|i: int| 0 <= i < ceil_div(len, unit) implies #[trigger] (i * unit) < len by {
            lemma_mul_inequality(i, q, unit as int);
        }
    }
}

proof fn lemma_concat_prefix(b: Seq<u8>, unit: nat, k: nat)
    requires
        unit > 0,
        k <= ceil_div(b.len(), unit),
    ensures
        concat(chunk_spec(b, unit).take(k as int)) == b.take(
            if k * unit < b.len() {
                (k * unit) as int
            } else {
                b.len() as int
            },
        ),
    decreases k,
{
    lemma_ceil_div(b.len(), unit);
    let cs = chunk_spec(b, unit);
    if k == 0 {
        assert(cs.take(0) =~= Seq::<Seq<u8>>::empty());
        assert(b.take(0) =~= Seq::<u8>::empty());
    } else {
        let i: int = k - 1;
        lemma_concat_prefix(b, unit, (k - 1) as nat);
        assert(cs.take(k as int).drop_last() =~= cs.take(i));
        assert(i * unit < b.len());
        assert(k * unit == i * unit + unit) by (nonlinear_arith)
            requires
                i == k - 1,
        ;
        assert((i + 1) * unit == k * unit) by (nonlinear_arith)
            requires
                i == k - 1,
        ;
        assert(cs.take(k as int).last() == b.subrange(i * unit, chunk_end(b.len(), unit, i)));
        assert(concat(cs.take(k as int)) == concat(cs.take(i)) + cs.take(k as int).last());
        assert(b.take(i * unit) + b.subrange(i * unit, chunk_end(b.len(), unit, i)) =~= b.take(
            chunk_end(b.len(), unit, i),
        ));
    }
}

/// Cutting a buffer into units: the units joined in order give the buffer
/// back, each holds at least one and at most `unit` bytes, and there are
/// `len / unit` of them, rounded up.
pub proof fn lemma_chunks_conserve(b: Seq<u8>, unit: nat)
    requires
        unit > 0,
    ensures
        concat(chunk_spec(b, unit)) == b,
        forall|i: int|
            0 <= i < chunk_spec(b, unit).len() ==> 1 <= (#[trigger] chunk_spec(b, unit)[i]).len()
                <= unit,
        chunk_spec(b, unit).len() == (b.len() + unit - 1) / (unit as int),
{
    let cs = chunk_spec(b, unit);
    let n = cs.len();
    lemma_ceil_div(b.len(), unit);
    lemma_concat_prefix(b, unit, n);
    assert(cs.take(n as int) =~= cs);
    assert(b.take(b.len() as int) =~= b);
    assert forall|i: int| 0 <= i < n implies 1 <= (#[trigger] cs[i]).len() <= unit by {
        assert(i * unit < b.len());
        assert((i + 1) * unit == i * unit + unit) by (nonlinear_arith);
    }
}

/// Cuts `buffer` into consecutive units of `unit` bytes, the last one
/// possibly shorter.
pub fn chunk(buffer: &[u8], unit: usize) -> (r: Vec<Vec<u8>>)
    requires
        unit > 0,
    ensures
        r@.map_values(|c: Vec<u8>| c@) == chunk_spec(buffer@, unit as nat),
{
    let len = buffer.len();
    let ghost n = ceil_div(len as nat, unit as nat);
    let ghost cs = chunk_spec(buffer@, unit as nat);
    proof {
        lemma_ceil_div(len as nat, unit as nat);
    }
    let mut out: Vec<Vec<u8>> = Vec::new();
    let mut start: usize = 0;
    while start < len
        invariant
            unit > 0,
            len == buffer@.len(),
            n == ceil_div(len as nat, unit as nat),
            cs == chunk_spec(buffer@, unit as nat),
            n * unit >= len,
            forall|i: int| 0 <= i < n ==> #[trigger] (i * unit) < len,
            out@.len() <= n,
            start == if out@.len() < n {
                out@.len() * unit
            } else {
                len as int
            },
            forall|k: int| 0 <= k < out@.len() ==> (#[trigger] out@[k])@ == cs[k],
        decreases len - start,
    {
        let ghost i: int = out@.len() as int;
        assert(i < n);
        assert((i + 1) * unit == i * unit + unit) by (nonlinear_arith);
        let end: usize = if len - start > unit {
            start + unit
        } else {
            len
        };
        assert(end == chunk_end(len as nat, unit as nat, i));
        let piece = slice_to_vec(slice_subrange(buffer, start, end));
        out.push(piece);
        start = end;
    }
    assert(out@.map_values(|c: Vec<u8>| c@) =~= cs);
    out
}

/// One acknowledged write where everything fits in one unit; else
/// unacknowledged writes, paced by the caller.
pub fn write_mode(unit_count: usize) -> (r: WriteMode)
    ensures
        r == mode_for(unit_count as nat),
{
    if unit_count > 1 {
        WriteMode::WithoutResponse
    } else {
        WriteMode::WithResponse
    }
}

} // verus!
