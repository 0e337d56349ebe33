//! Encoding of one printed row: a packed bitmap, or a run-length stream
//! when that is not larger.
use crate::protocol::{LINE_BYTES, PIXELS_PER_LINE};
use vstd::prelude::*;

verus! {

/// Bit `k` of a byte, counting from the least significant.
pub open spec fn bit_of(b: u8, k: int) -> bool {
    (b >> (k as u8)) & 1u8 == 1u8
}

/// The pixels that a packed bitmap stands for: pixel `x` is bit `x % 8`
/// of byte `x / 8`, and a set bit means ink.
pub open spec fn unpack(bytes: Seq<u8>) -> Seq<bool> {
    Seq::new(8 * bytes.len(), |x: int| bit_of(bytes[x / 8], x % 8))
}

proof fn lemma_set_bit(b: u8, v: u8, j: u8, k: u8)
    by (bit_vector)
    requires
        v <= 1,
        j < 8,
        k < 8,
    ensures
        (((b | (v << j)) >> k) & 1u8 == 1u8) == if k == j {
            ((b >> k) & 1u8 == 1u8) || v == 1
        } else {
            (b >> k) & 1u8 == 1u8
        },
{
}

proof fn lemma_zero_bits(k: u8)
    by (bit_vector)
    requires
        k < 8,
    ensures
        (0u8 >> k) & 1u8 == 0u8,
{
}

/// Packs a row of ink values, least significant bit first within each byte.
pub fn pack_row(ink: &[bool]) -> (r: [u8; LINE_BYTES])
    requires
        ink@.len() == PIXELS_PER_LINE,
    ensures
        unpack(r@) == ink@,
{
    let mut data = [0u8;LINE_BYTES];
    assert forall|p: int| 0 <= p < PIXELS_PER_LINE implies !bit_of(#[trigger] data@[p / 8], p % 8) by {
        lemma_zero_bits((p % 8) as u8);
    }
    let mut x: usize = 0;
    while x < PIXELS_PER_LINE
        invariant
            ink@.len() == PIXELS_PER_LINE,
            x <= PIXELS_PER_LINE,
            forall|p: int| 0 <= p < x ==> bit_of(#[trigger] data@[p / 8], p % 8) == ink@[p],
            forall|p: int| x <= p < PIXELS_PER_LINE ==> !bit_of(#[trigger] data@[p / 8], p % 8),
        decreases PIXELS_PER_LINE - x,
    {
        let val: u8 = if ink[x] {
            1
        } else {
            0
        };
        let i: usize = x / 8;
        let j: u8 = (x % 8) as u8;
        let current: u8 = data[i];
        let next: u8 = current | (val << j);
        let ghost old_data = data@;
        data[i] = next;
        assert forall|p: int| 0 <= p < PIXELS_PER_LINE && p / 8 == i implies bit_of(
            #[trigger] data@[p / 8],
            p % 8,
        ) == if p % 8 == j {
            bit_of(current, p % 8) || val == 1
        } else {
            bit_of(current, p % 8)
        } by {
            lemma_set_bit(current, val, j, (p % 8) as u8);
        }
        assert forall|p: int| 0 <= p < PIXELS_PER_LINE && p / 8 != i implies #[trigger] data@[p / 8]
            == old_data[p / 8] by {}
        x = x + 1;
    }
    assert(unpack(data@) =~= ink@);
    data
}

/// The ink value that a run-length code stands for: its top bit.
pub open spec fn code_ink(c: u8) -> bool {
    c >= 128
}

/// How many pixels a run-length code stands for: its low seven bits.
pub open spec fn code_len(c: u8) -> nat {
    (c % 128) as nat
}

/// The code for `n` pixels of one value, `n` at most 127.
pub open spec fn code(v: bool, n: nat) -> u8 {
    ((if v {
        128int
    } else {
        0int
    }) + n) as u8
}

/// `n` pixels of value `v`.
pub open spec fn run(v: bool, n: nat) -> Seq<bool> {
    Seq::new(n, |_i: int| v)
}

/// The pixels that a run-length stream stands for.
pub open spec fn expand(codes: Seq<u8>) -> Seq<bool>
    decreases codes.len(),
{
    if codes.len() == 0 {
        Seq::empty()
    } else {
        expand(codes.drop_last()) + run(code_ink(codes.last()), code_len(codes.last()))
    }
}

/// A stream in the one form the encoder writes: every code counts at least
/// one pixel, and a code is followed by one of the same value only when it
/// is full (127 pixels).
pub open spec fn canonical(codes: Seq<u8>) -> bool {
    &&& forall|i: int| 0 <= i < codes.len() ==> code_len(#[trigger] codes[i]) >= 1
    &&& forall|i: int|
        0 <= i < codes.len() - 1 && code_ink(#[trigger] codes[i]) == code_ink(codes[i + 1])
            ==> code_len(codes[i]) == 127
}

/// The codes for one run of `n` pixels of value `v`: codes of 127 pixels
/// first, then one for the remainder, if any.
pub open spec fn run_codes(v: bool, n: nat) -> Seq<u8>
    decreases n,
{
    if n == 0 {
        Seq::empty()
    } else if n > 127 {
        seq![code(v, 127)] + run_codes(v, (n - 127) as nat)
    } else {
        seq![code(v, n)]
    }
}

/// The state of a left-to-right scan of a row: the codes of the runs that
/// are closed, the value of the open run and its length.
pub open spec fn rle_scan(s: Seq<bool>) -> (Seq<u8>, bool, nat)
    decreases s.len(),
{
    if s.len() == 0 {
        (Seq::empty(), false, 0)
    } else {
        let st = rle_scan(s.drop_last());
        if st.2 > 0 && st.1 == s.last() {
            (st.0, st.1, st.2 + 1)
        } else {
            (st.0 + run_codes(st.1, st.2), s.last(), 1)
        }
    }
}

/// The run-length stream of a row: each maximal run of equal pixels, in
/// order, as its codes.
pub open spec fn rle_encode(s: Seq<bool>) -> Seq<u8> {
    let st = rle_scan(s);
    st.0 + run_codes(st.1, st.2)
}

proof fn lemma_code_bits(v: u8, n: u8)
    by (bit_vector)
    requires
        v <= 1,
        n < 128,
    ensures
        (v << 7u8) | n == v * 128 + n,
{
}

/// Codes for `counter` pixels of value `val` (0 or 1).
pub fn rle_bytes(val: u8, counter: u32) -> (r: Vec<u8>)
    requires
        val <= 1,
    ensures
        r@ == run_codes(val == 1, counter as nat),
{
    let mut compressed: Vec<u8> = Vec::new();
    let mut rest: u32 = counter;
    if rest > 0 {
        while rest > 127
            invariant
                val <= 1,
                rest > 0,
                compressed@ + run_codes(val == 1, rest as nat) == run_codes(
                    val == 1,
                    counter as nat,
                ),
            decreases rest,
        {
            proof {
                lemma_code_bits(val, 127);
            }
            let code = (val << 7) | 127;
            let ghost before = compressed@;
            compressed.push(code);
            rest = rest - 127;
            assert(before + run_codes(val == 1, (rest + 127) as nat) =~= compressed@
                + run_codes(val == 1, rest as nat));
        }
        proof {
            lemma_code_bits(val, rest as u8);
        }
        let code = (val << 7) | (rest as u8);
        compressed.push(code);
    }
    compressed
}

proof fn lemma_expand_concat(a: Seq<u8>, b: Seq<u8>)
    ensures
        expand(a + b) == expand(a) + expand(b),
    decreases b.len(),
{
    if b.len() == 0 {
        assert(a + b =~= a);
        assert(expand(a) + expand(b) =~= expand(a));
    } else {
        lemma_expand_concat(a, b.drop_last());
        assert((a + b).drop_last() =~= a + b.drop_last());
        assert((a + b).last() == b.last());
        assert(expand(a + b) =~= expand(a) + expand(b));
    }
}

proof fn lemma_single_code(v: bool, n: nat)
    requires
        1 <= n <= 127,
    ensures
        code_ink(code(v, n)) == v,
        code_len(code(v, n)) == n,
        expand(seq![code(v, n)]) == run(v, n),
{
    let one = seq![code(v, n)];
    assert(one.drop_last() =~= Seq::<u8>::empty());
    assert(expand(one.drop_last()) =~= Seq::<bool>::empty());
    assert(one.last() == code(v, n));
    assert(expand(one) =~= run(v, n));
}

proof fn lemma_run_codes(v: bool, n: nat)
    ensures
        expand(run_codes(v, n)) == run(v, n),
        canonical(run_codes(v, n)),
        forall|i: int| 0 <= i < run_codes(v, n).len() ==> code_ink(#[trigger] run_codes(v, n)[i]) == v,
        n > 0 ==> run_codes(v, n).len() > 0,
    decreases n,
{
    let rc = run_codes(v, n);
    if n == 0 {
        assert(run(v, n) =~= Seq::<bool>::empty());
    } else if n > 127 {
        let rest = run_codes(v, (n - 127) as nat);
        lemma_run_codes(v, (n - 127) as nat);
        lemma_single_code(v, 127);
        lemma_expand_concat(seq![code(v, 127)], rest);
        assert(run(v, 127) + run(v, (n - 127) as nat) =~= run(v, n));
        assert forall|i: int| 0 <= i < rc.len() implies code_len(#[trigger] rc[i]) >= 1 by {
            if i > 0 {
                assert(rc[i] == rest[i - 1]);
            }
        }
        assert forall|i: int|
            0 <= i < rc.len() - 1 && code_ink(#[trigger] rc[i]) == code_ink(rc[i + 1]) implies code_len(
            rc[i],
        ) == 127 by {
            if i > 0 {
                assert(rc[i] == rest[i - 1]);
                assert(rc[i + 1] == rest[i]);
            }
        }
        assert forall|i: int| 0 <= i < rc.len() implies code_ink(#[trigger] rc[i]) == v by {
            if i > 0 {
                assert(rc[i] == rest[i - 1]);
            }
        }
    } else {
        lemma_single_code(v, n);
    }
}

proof fn lemma_canonical_concat(a: Seq<u8>, b: Seq<u8>)
    requires
        canonical(a),
        canonical(b),
        a.len() > 0 && b.len() > 0 ==> code_ink(a.last()) != code_ink(b[0]) || code_len(a.last())
            == 127,
    ensures
        canonical(a + b),
{
    let c = a + b;
    assert forall|i: int| 0 <= i < c.len() implies code_len(#[trigger] c[i]) >= 1 by {
        if i >= a.len() {
            assert(c[i] == b[i - a.len()]);
        }
    }
    assert forall|i: int|
        0 <= i < c.len() - 1 && code_ink(#[trigger] c[i]) == code_ink(c[i + 1]) implies code_len(c[i])
        == 127 by {
        if i >= a.len() {
            assert(c[i] == b[i - a.len()]);
            assert(c[i + 1] == b[i + 1 - a.len()]);
        } else if i == a.len() - 1 {
            assert(c[i + 1] == b[0]);
        }
    }
}

proof fn lemma_rle_scan(s: Seq<bool>)
    ensures
        expand(rle_scan(s).0) + run(rle_scan(s).1, rle_scan(s).2) == s,
        canonical(rle_scan(s).0),
        rle_scan(s).2 > 0 && rle_scan(s).0.len() > 0 ==> code_ink(rle_scan(s).0.last()) != rle_scan(
            s,
        ).1,
        s.len() > 0 <==> rle_scan(s).2 > 0,
    decreases s.len(),
{
    let st = rle_scan(s);
    if s.len() == 0 {
        assert(expand(st.0) + run(st.1, st.2) =~= s);
    } else {
        let sp = s.drop_last();
        let prev = rle_scan(sp);
        lemma_rle_scan(sp);
        assert(sp.push(s.last()) =~= s);
        if prev.2 > 0 && prev.1 == s.last() {
            assert(run(prev.1, prev.2 + 1) =~= run(prev.1, prev.2).push(s.last()));
            assert(expand(st.0) + run(st.1, st.2) =~= (expand(prev.0) + run(prev.1, prev.2)).push(
                s.last(),
            ));
        } else {
            let rc = run_codes(prev.1, prev.2);
            lemma_run_codes(prev.1, prev.2);
            lemma_expand_concat(prev.0, rc);
            if prev.2 > 0 {
                lemma_canonical_concat(prev.0, rc);
                assert(st.0.last() == rc[rc.len() - 1]);
            } else {
                assert(st.0 =~= prev.0);
                assert(rc =~= Seq::<u8>::empty());
            }
            assert(run(st.1, 1) =~= seq![s.last()]);
            assert(expand(st.0) + run(st.1, st.2) =~= (expand(prev.0) + run(prev.1, prev.2)).push(
                s.last(),
            ));
        }
    }
}

/// Expanding the run-length stream of a row gives the row back, and the
/// stream is in canonical form.
pub proof fn lemma_rle_round_trip(ink: Seq<bool>)
    ensures
        expand(rle_encode(ink)) == ink,
        canonical(rle_encode(ink)),
{
    let st = rle_scan(ink);
    let rc = run_codes(st.1, st.2);
    lemma_rle_scan(ink);
    lemma_run_codes(st.1, st.2);
    lemma_expand_concat(st.0, rc);
    lemma_canonical_concat(st.0, rc);
}

/// Run-length stream of a row: each run of equal pixels, in order, as
/// codes of up to 127 pixels whose top bit is the ink value.
pub fn rle_compress(ink: &[bool]) -> (r: Vec<u8>)
    requires
        ink@.len() == PIXELS_PER_LINE,
    ensures
        r@ == rle_encode(ink@),
        expand(r@) == ink@,
        canonical(r@),
{
    let mut compressed: Vec<u8> = Vec::new();
    let mut counter: u32 = 0;
    let mut last_val: u8 = 2;
    let mut x: usize = 0;
    while x < PIXELS_PER_LINE
        invariant
            ink@.len() == PIXELS_PER_LINE,
            x <= PIXELS_PER_LINE,
            counter <= x,
            last_val <= 2,
            counter > 0 ==> last_val <= 1,
            rle_scan(ink@.take(x as int)) == (compressed@, last_val == 1, counter as nat),
        decreases PIXELS_PER_LINE - x,
    {
        let val: u8 = if ink[x] {
            1
        } else {
            0
        };
        assert(ink@.take(x + 1).drop_last() =~= ink@.take(x as int));
        if counter > 0 && val == last_val {
            counter = counter + 1;
        } else {
            if counter > 0 {
                let mut codes = rle_bytes(last_val, counter);
                compressed.append(&mut codes);
            } else {
                assert(compressed@ + run_codes(last_val == 1, 0) =~= compressed@);
            }
            counter = 1;
        }
        last_val = val;
        x = x + 1;
    }
    assert(ink@.take(PIXELS_PER_LINE as int) =~= ink@);
    if counter > 0 {
        let mut codes = rle_bytes(last_val, counter);
        compressed.append(&mut codes);
    }
    assert(compressed@ =~= rle_encode(ink@));
    proof {
        lemma_rle_round_trip(ink@);
    }
    compressed
}

/// What a row is sent as: whether the buffer holds a run-length stream,
/// how many of its bytes count, and the buffer. The stream is used where
/// compression is asked for and the stream fits in a row's bytes; else the
/// packed bitmap is.
pub open spec fn encodes_line(
    ink: Seq<bool>,
    use_compression: bool,
    compressed: bool,
    len: usize,
    data: Seq<u8>,
) -> bool {
    let codes = rle_encode(ink);
    if use_compression && codes.len() <= LINE_BYTES {
        &&& compressed
        &&& len == codes.len()
        &&& data.take(len as int) == codes
        &&& forall|k: int| len <= k < data.len() ==> data[k] == 0
    } else {
        &&& !compressed
        &&& len == LINE_BYTES
        &&& unpack(data) == ink
    }
}

/// A row as a packed bitmap.
pub fn encode_line_uncompressed(ink: &[bool]) -> (r: (usize, [u8; LINE_BYTES]))
    requires
        ink@.len() == PIXELS_PER_LINE,
    ensures
        r.0 == LINE_BYTES,
        unpack(r.1@) == ink@,
{
    (LINE_BYTES, pack_row(ink))
}

/// A row as a run-length stream, or as the packed bitmap where the stream
/// would be longer than the bitmap.
pub fn encode_line_compressed(ink: &[bool]) -> (r: (bool, usize, [u8; LINE_BYTES]))
    requires
        ink@.len() == PIXELS_PER_LINE,
    ensures
        r.1 <= LINE_BYTES,
        encodes_line(ink@, true, r.0, r.1, r.2@),
{
    let compressed = rle_compress(ink);
    if compressed.len() > LINE_BYTES {
        let (len, data) = encode_line_uncompressed(ink);
        (false, len, data)
    } else {
        let len = compressed.len();
        let mut data = [0u8;LINE_BYTES];
        let mut i: usize = 0;
        while i < len
            invariant
                len == compressed@.len(),
                len <= LINE_BYTES,
                i <= len,
                forall|k: int| 0 <= k < i ==> data@[k] == compressed@[k],
                forall|k: int| i <= k < LINE_BYTES ==> data@[k] == 0,
            decreases len - i,
        {
            data[i] = compressed[i];
            i = i + 1;
        }
        assert(data@.take(len as int) =~= compressed@);
        (true, len, data)
    }
}

/// A row as it is sent: compressed where asked for and not larger.
pub fn encode_line(ink: &[bool], use_compression: bool) -> (r: (bool, usize, [u8; LINE_BYTES]))
    requires
        ink@.len() == PIXELS_PER_LINE,
    ensures
        r.1 <= LINE_BYTES,
        encodes_line(ink@, use_compression, r.0, r.1, r.2@),
{
    if use_compression {
        encode_line_compressed(ink)
    } else {
        let (len, data) = encode_line_uncompressed(ink);
        (false, len, data)
    }
}

} // verus!
