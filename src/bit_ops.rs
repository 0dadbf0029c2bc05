//! The bit-level model of a packed buffer and the primitive reads and writes
//! on it.
//!
//! Bit `i` of a buffer is bit `i % 8` (counting from the least significant
//! end) of byte `i / 8`. A number stored over `n` bits has its least
//! significant digit first.
use vstd::arithmetic::div_mod::*;
use vstd::arithmetic::power2::*;
use vstd::prelude::*;

verus! {

/// Bit `i` of a byte sequence.
pub open spec fn bit_of(bytes: Seq<u8>, i: int) -> bool {
    (bytes[i / 8] >> ((i % 8) as u8)) & 1u8 == 1u8
}

/// The `n` bits of `bytes` that start at bit `offset`.
pub open spec fn window(bytes: Seq<u8>, offset: int, n: int) -> Seq<bool> {
    Seq::new(n as nat, |k: int| bit_of(bytes, offset + k))
}

/// The number whose binary digits, least significant first, are `bits`.
pub open spec fn nat_of(bits: Seq<bool>) -> nat
    decreases bits.len(),
{
    if bits.len() == 0 {
        0
    } else {
        (if bits[0] {
            1nat
        } else {
            0nat
        }) + 2 * nat_of(bits.subrange(1, bits.len() as int))
    }
}

/// The first `n` binary digits of `v`, least significant first.
pub open spec fn digits_of(v: nat, n: nat) -> Seq<bool> {
    Seq::new(n, |k: int| (v / pow2(k as nat)) % 2 == 1)
}

/// `n` bits starting at bit `offset` lie inside a buffer of `len` bytes, and
/// their end is a `usize`.
pub open spec fn in_buffer(len: nat, offset: nat, n: nat) -> bool {
    offset + n <= 8 * len && offset + n <= usize::MAX
}

/// `new` has the length of `old` and the same bits outside `[offset, offset + n)`.
pub open spec fn same_outside(old: Seq<u8>, new: Seq<u8>, offset: int, n: int) -> bool {
    &&& new.len() == old.len()
    &&& forall|i: int|
        0 <= i < 8 * old.len() && !(offset <= i < offset + n) ==> #[trigger] bit_of(new, i)
            == bit_of(old, i)
}

proof fn lemma_byte_bit_set(x: u8, s: u8, t: u8)
    requires
        s < 8,
        t < 8,
        s != t,
    ensures
        ((x | (1u8 << s)) >> t) & 1u8 == (x >> t) & 1u8,
        ((x & !(1u8 << s)) >> t) & 1u8 == (x >> t) & 1u8,
{
    assert(((x | (1u8 << s)) >> t) & 1u8 == (x >> t) & 1u8) by (bit_vector)
        requires
            s < 8,
            t < 8,
            s != t,
    ;
    assert(((x & !(1u8 << s)) >> t) & 1u8 == (x >> t) & 1u8) by (bit_vector)
        requires
            s < 8,
            t < 8,
            s != t,
    ;
}

proof fn lemma_byte_bit_own(x: u8, s: u8)
    requires
        s < 8,
    ensures
        ((x | (1u8 << s)) >> s) & 1u8 == 1u8,
        ((x & !(1u8 << s)) >> s) & 1u8 == 0u8,
{
    assert(((x | (1u8 << s)) >> s) & 1u8 == 1u8) by (bit_vector)
        requires
            s < 8,
    ;
    assert(((x & !(1u8 << s)) >> s) & 1u8 == 0u8) by (bit_vector)
        requires
            s < 8,
    ;
}

/// The digits of `v` read back give `v` modulo `2^n`.
pub proof fn lemma_nat_of_digits(v: nat, n: nat)
    ensures
        nat_of(digits_of(v, n)) == v % pow2(n),
    decreases n,
{
    if n == 0 {
        lemma2_to64();
        assert(v % 1 == 0);
    } else {
        let d = digits_of(v, n);
        let tail = d.subrange(1, n as int);
        assert forall|k: int| 0 <= k < n - 1 implies tail[k] == digits_of(v / 2, (n - 1) as nat)[k] by {
            lemma_pow2_unfold((k + 1) as nat);
            lemma_pow2_pos(k as nat);
            lemma_div_denominator(v as int, 2, pow2(k as nat) as int);
        }
        assert(tail =~= digits_of(v / 2, (n - 1) as nat));
        lemma_nat_of_digits(v / 2, (n - 1) as nat);
        lemma2_to64();
        assert(pow2(0) == 1);
        assert(v / 1 == v);
        assert(d[0] == (v % 2 == 1));
        lemma_pow2_unfold(n);
        lemma_pow2_pos((n - 1) as nat);
        lemma_mod_breakdown(v as int, 2, pow2((n - 1) as nat) as int);
    }
}

/// A number read from `n` bits is below `2^n`.
pub proof fn lemma_nat_of_bound(bits: Seq<bool>)
    ensures
        nat_of(bits) < pow2(bits.len()),
    decreases bits.len(),
{
    if bits.len() == 0 {
        lemma2_to64();
    } else {
        lemma_nat_of_bound(bits.subrange(1, bits.len() as int));
        lemma_pow2_unfold(bits.len());
    }
}

/// Bits of one window that lie outside the changed range are unchanged.
pub proof fn lemma_window_kept(old: Seq<u8>, new: Seq<u8>, offset: int, n: int, o: int, m: int)
    requires
        same_outside(old, new, offset, n),
        0 <= o,
        0 <= m,
        o + m <= 8 * old.len(),
        o + m <= offset || offset + n <= o,
    ensures
        window(new, o, m) == window(old, o, m),
{
    assert forall|k: int| 0 <= k < m implies window(new, o, m)[k] == window(old, o, m)[k] by {
        assert(bit_of(new, o + k) == bit_of(old, o + k));
    }
    assert(window(new, o, m) =~= window(old, o, m));
}

/// Appending bytes does not change the bits already there.
pub proof fn lemma_window_prefix(old: Seq<u8>, new: Seq<u8>, o: int, m: int)
    requires
        old.len() <= new.len(),
        forall|j: int| 0 <= j < old.len() ==> new[j] == old[j],
        0 <= o,
        0 <= m,
        o + m <= 8 * old.len(),
    ensures
        window(new, o, m) == window(old, o, m),
{
    assert(window(new, o, m) =~= window(old, o, m));
}

/// The parts of a window are windows.
pub proof fn lemma_window_split(bytes: Seq<u8>, offset: int, n: int, a: int, b: int)
    requires
        0 <= a <= b <= n,
    ensures
        window(bytes, offset, n).subrange(a, b) == window(bytes, offset + a, b - a),
{
    assert(window(bytes, offset, n).subrange(a, b) =~= window(bytes, offset + a, b - a));
}

/// A change confined to a range is confined to any range around it.
pub proof fn lemma_same_outside_widen(
    old: Seq<u8>,
    new: Seq<u8>,
    offset: int,
    n: int,
    o: int,
    m: int,
)
    requires
        same_outside(old, new, offset, n),
        o <= offset,
        offset + n <= o + m,
    ensures
        same_outside(old, new, o, m),
{
}

/// Two changes inside one range stay inside it.
pub proof fn lemma_same_outside_trans(a: Seq<u8>, b: Seq<u8>, c: Seq<u8>, offset: int, n: int)
    requires
        same_outside(a, b, offset, n),
        same_outside(b, c, offset, n),
    ensures
        same_outside(a, c, offset, n),
{
}

proof fn lemma_bit_is_zero_or_one(a: u8, t: u8)
    ensures
        ((a >> t) & 1u8) == 1u8 || ((a >> t) & 1u8) == 0u8,
{
    assert(((a >> t) & 1u8) == 1u8 || ((a >> t) & 1u8) == 0u8) by (bit_vector);
}

proof fn lemma_byte_from_bits(a: u8, b: u8)
    requires
        forall|t: u8| t < 8 ==> #[trigger] ((a >> t) & 1u8) == (b >> t) & 1u8,
    ensures
        a == b,
{
    assert((a >> 0u8) & 1u8 == (b >> 0u8) & 1u8);
    assert((a >> 1u8) & 1u8 == (b >> 1u8) & 1u8);
    assert((a >> 2u8) & 1u8 == (b >> 2u8) & 1u8);
    assert((a >> 3u8) & 1u8 == (b >> 3u8) & 1u8);
    assert((a >> 4u8) & 1u8 == (b >> 4u8) & 1u8);
    assert((a >> 5u8) & 1u8 == (b >> 5u8) & 1u8);
    assert((a >> 6u8) & 1u8 == (b >> 6u8) & 1u8);
    assert((a >> 7u8) & 1u8 == (b >> 7u8) & 1u8);
    assert(a == b) by (bit_vector)
        requires
            (a >> 0u8) & 1u8 == (b >> 0u8) & 1u8,
            (a >> 1u8) & 1u8 == (b >> 1u8) & 1u8,
            (a >> 2u8) & 1u8 == (b >> 2u8) & 1u8,
            (a >> 3u8) & 1u8 == (b >> 3u8) & 1u8,
            (a >> 4u8) & 1u8 == (b >> 4u8) & 1u8,
            (a >> 5u8) & 1u8 == (b >> 5u8) & 1u8,
            (a >> 6u8) & 1u8 == (b >> 6u8) & 1u8,
            (a >> 7u8) & 1u8 == (b >> 7u8) & 1u8,
    ;
}

/// A change confined to `n` bits at `offset` leaves every byte outside the
/// bytes those bits touch as it was.
pub proof fn lemma_bytes_kept(old: Seq<u8>, new: Seq<u8>, offset: int, n: int)
    requires
        same_outside(old, new, offset, n),
        0 <= offset,
        0 < n,
    ensures
        forall|j: int|
            0 <= j < old.len() && !(offset / 8 <= j <= (offset + n - 1) / 8) ==> #[trigger] new[j]
                == old[j],
{
    assert forall|j: int|
        0 <= j < old.len() && !(offset / 8 <= j <= (offset + n - 1) / 8) implies #[trigger] new[j]
        == old[j] by {
        assert forall|t: u8| t < 8 implies #[trigger] ((new[j] >> t) & 1u8) == (old[j] >> t) & 1u8 by {
            let i = 8 * j + t;
            assert(i / 8 == j);
            assert(i % 8 == t);
            assert(bit_of(new, i) == bit_of(old, i));
            lemma_bit_is_zero_or_one(new[j], t);
            lemma_bit_is_zero_or_one(old[j], t);
        }
        lemma_byte_from_bits(new[j], old[j]);
    }
}

/// Reads bit `i` of `slice`.
pub fn get_bit(slice: &[u8], i: usize) -> (r: bool)
    requires
        i < 8 * slice@.len(),
    ensures
        r == bit_of(slice@, i as int),
{
    let byte = slice[i / 8];
    let shift = (i % 8) as u8;
    (byte >> shift) & 1u8 == 1u8
}

/// Sets bit `i` of `slice` to `b`, leaving every other bit and every other
/// byte as it was.
pub fn set_bit(slice: &mut [u8], i: usize, b: bool)
    requires
        i < 8 * old(slice)@.len(),
    ensures
        final(slice)@.len() == old(slice)@.len(),
        bit_of(final(slice)@, i as int) == b,
        same_outside(old(slice)@, final(slice)@, i as int, 1),
        forall|j: int| 0 <= j < old(slice)@.len() && j != i / 8 ==> final(slice)@[j] == old(slice)@[j],
{
    let idx = i / 8;
    let shift = (i % 8) as u8;
    let byte = slice[idx];
    let mask = 1u8 << shift;
    let new_byte = if b {
        byte | mask
    } else {
        byte & !mask
    };
    slice[idx] = new_byte;
    proof {
        lemma_byte_bit_own(byte, shift);
        assert forall|j: int| 0 <= j < 8 * old(slice)@.len() && j != i implies #[trigger] bit_of(
            slice@,
            j,
        ) == bit_of(old(slice)@, j) by {
            if j / 8 == idx as int {
                lemma_byte_bit_set(byte, shift, (j % 8) as u8);
            }
        }
    }
}

/// Bit `t` of a scratch integer.
pub open spec fn scratch_bit(s: u128, t: int) -> bool {
    (s >> (t as u128)) & 1u128 == 1u128
}

proof fn lemma_load_low(s: u128, b: u8, j: u128, t: u128)
    requires
        j < 9,
        t < 8 * j,
    ensures
        (((s | ((b as u128) << (8 * j))) >> t) & 1u128 == 1u128) == ((s >> t) & 1u128 == 1u128),
{
    assert((((s | ((b as u128) << (8 * j))) >> t) & 1u128 == 1u128) == ((s >> t) & 1u128 == 1u128))
        by (bit_vector)
        requires
            j < 9,
            t < 8 * j,
    ;
}

proof fn lemma_load_new(s: u128, b: u8, j: u128, t: u128, w: u8)
    requires
        j < 9,
        8 * j <= t < 8 * j + 8,
        w == t - 8 * j,
        s >> (8 * j) == 0,
    ensures
        (((s | ((b as u128) << (8 * j))) >> t) & 1u128 == 1u128) == ((b >> w) & 1u8 == 1u8),
{
    assert((((s | ((b as u128) << (8 * j))) >> t) & 1u128 == 1u128) == ((b >> w) & 1u8 == 1u8))
        by (bit_vector)
        requires
            j < 9,
            8 * j <= t < 8 * j + 8,
            w == t - 8 * j,
            s >> (8 * j) == 0,
    ;
}

proof fn lemma_load_high(s: u128, b: u8, j: u128)
    requires
        j < 9,
        s >> (8 * j) == 0,
    ensures
        (s | ((b as u128) << (8 * j))) >> (8 * j + 8) == 0,
{
    assert((s | ((b as u128) << (8 * j))) >> (8 * j + 8) == 0) by (bit_vector)
        requires
            j < 9,
            s >> (8 * j) == 0,
    ;
}

proof fn lemma_extract(s: u128, sh: u128, n: u64, m: u64, k: u64, u: u128)
    requires
        sh < 8,
        1 <= n <= 64,
        n < 64 ==> m == vstd::prelude::sub(1u64 << n, 1u64),
        n == 64 ==> m == 0xffff_ffff_ffff_ffffu64,
        k < n,
        u == sh + k,
    ensures
        (((((s >> sh) & (m as u128)) as u64) >> k) & 1u64 == 1u64) == ((s >> u) & 1u128 == 1u128),
        (((s >> sh) & (m as u128)) as u64) <= m,
{
    assert((((((s >> sh) & (m as u128)) as u64) >> k) & 1u64 == 1u64) == ((s >> u) & 1u128 == 1u128))
        by (bit_vector)
        requires
            sh < 8,
            1 <= n <= 64,
            n < 64 ==> m == vstd::prelude::sub(1u64 << n, 1u64),
            n == 64 ==> m == 0xffff_ffff_ffff_ffffu64,
            k < n,
            u == sh + k,
    ;
    assert((((s >> sh) & (m as u128)) as u64) <= m) by (bit_vector);
}

proof fn lemma_merge(s: u128, sh: u128, n: u64, m: u64, value: u64, u: u128, k: u64)
    requires
        sh < 8,
        1 <= n <= 64,
        n < 64 ==> m == vstd::prelude::sub(1u64 << n, 1u64),
        n == 64 ==> m == 0xffff_ffff_ffff_ffffu64,
        value <= m,
        u < 128,
        sh <= u ==> k == u - sh,
    ensures
        sh <= u < sh + (n as u128) ==> (((((s & !((m as u128) << sh)) | ((value as u128) << sh))
            >> u) & 1u128 == 1u128) == ((value >> k) & 1u64 == 1u64)),
        !(sh <= u < sh + (n as u128)) ==> (((((s & !((m as u128) << sh)) | ((value as u128) << sh))
            >> u) & 1u128 == 1u128) == ((s >> u) & 1u128 == 1u128)),
{
    assert(sh <= u < sh + (n as u128) ==> (((((s & !((m as u128) << sh)) | ((value as u128) << sh))
        >> u) & 1u128 == 1u128) == ((value >> k) & 1u64 == 1u64))) by (bit_vector)
        requires
            sh < 8,
            1 <= n <= 64,
            n < 64 ==> m == vstd::prelude::sub(1u64 << n, 1u64),
            n == 64 ==> m == 0xffff_ffff_ffff_ffffu64,
            value <= m,
            u < 128,
            sh <= u ==> k == u - sh,
    ;
    assert(!(sh <= u < sh + (n as u128)) ==> (((((s & !((m as u128) << sh)) | ((value as u128)
        << sh)) >> u) & 1u128 == 1u128) == ((s >> u) & 1u128 == 1u128))) by (bit_vector)
        requires
            sh < 8,
            1 <= n <= 64,
            n < 64 ==> m == vstd::prelude::sub(1u64 << n, 1u64),
            n == 64 ==> m == 0xffff_ffff_ffff_ffffu64,
            value <= m,
            u < 128,
    ;
}

proof fn lemma_store(x: u128, j: u128, t: u8, u: u128)
    requires
        j < 9,
        t < 8,
        u == 8 * j + t,
    ensures
        ((((x >> (8 * j)) as u8) >> t) & 1u8 == 1u8) == ((x >> u) & 1u128 == 1u128),
{
    assert(((((x >> (8 * j)) as u8) >> t) & 1u8 == 1u8) == ((x >> u) & 1u128 == 1u128)) by (bit_vector)
        requires
            j < 9,
            t < 8,
            u == 8 * j + t,
    ;
}

proof fn lemma_u64_bit_is_digit(v: u64, k: u64)
    requires
        k < 64,
    ensures
        ((v >> k) & 1u64 == 1u64) == ((v as nat / pow2(k as nat)) % 2 == 1),
{
    vstd::bits::lemma_u64_shr_is_div(v, k);
    let x = v >> k;
    assert((x & 1u64 == 1u64) == (x % 2 == 1)) by (bit_vector);
}

/// The mask of the low `n` bits, for `1 <= n <= 64`.
fn low_mask(n: usize) -> (m: u64)
    requires
        1 <= n <= 64,
    ensures
        m == pow2(n as nat) - 1,
        n < 64 ==> m == vstd::prelude::sub(1u64 << n as u64, 1u64),
        n == 64 ==> m == 0xffff_ffff_ffff_ffffu64,
{
    if n == 64 {
        proof {
            lemma2_to64_rest();
        }
        u64::MAX
    } else {
        proof {
            vstd::bits::lemma_u64_pow2_no_overflow(n as nat);
            vstd::bits::lemma_u64_shl_is_mul(1, n as u64);
        }
        (1u64 << n as u64) - 1
    }
}

/// Loads the `count` bytes from byte `first` on into a zero-initialised
/// scratch integer, the first byte lowest.
fn load_scratch(slice: &[u8], first: usize, count: usize) -> (s: u128)
    requires
        count <= 9,
        first <= usize::MAX / 8,
        first + count <= slice@.len(),
    ensures
        forall|t: int| 0 <= t < 8 * count ==> #[trigger] scratch_bit(s, t) == bit_of(slice@, 8 * first + t),
{
    let mut s: u128 = 0;
    let mut j: usize = 0;
    proof {
        assert(s >> 0u128 == 0) by (bit_vector)
            requires
                s == 0,
        ;
    }
    while j < count
        invariant
            j <= count <= 9,
            first <= usize::MAX / 8,
            first + count <= slice@.len(),
            s >> (8 * j) as u128 == 0,
            forall|t: int| 0 <= t < 8 * j ==> #[trigger] scratch_bit(s, t) == bit_of(slice@, 8 * first + t),
        decreases count - j,
    {
        let b = slice[first + j];
        let next = s | ((b as u128) << (8 * j) as u128);
        proof {
            assert forall|t: int| 0 <= t < 8 * (j + 1) implies #[trigger] scratch_bit(next, t) == bit_of(
                slice@,
                8 * first + t,
            ) by {
                if t < 8 * j {
                    lemma_load_low(s, b, j as u128, t as u128);
                    assert(scratch_bit(s, t) == bit_of(slice@, 8 * first + t));
                } else {
                    lemma_load_new(s, b, j as u128, t as u128, (t - 8 * j) as u8);
                    assert((8 * first + t) / 8 == first + j);
                    assert((8 * first + t) % 8 == t - 8 * j);
                }
            }
            lemma_load_high(s, b, j as u128);
        }
        s = next;
        j = j + 1;
    }
    s
}

/// Stores `value` over the `n` bits that start at bit `offset`, leaving every
/// other bit as it was: the touched bytes are loaded into a scratch integer,
/// the field's bits are cleared with a mask shifted into place, the shifted
/// value is or-ed in, and the scratch integer is written back.
pub fn write_bits(slice: &mut [u8], offset: usize, n: usize, value: u64)
    requires
        n <= 64,
        in_buffer(old(slice)@.len(), offset as nat, n as nat),
        value < pow2(n as nat),
    ensures
        final(slice)@.len() == old(slice)@.len(),
        nat_of(window(final(slice)@, offset as int, n as int)) == value,
        same_outside(old(slice)@, final(slice)@, offset as int, n as int),
{
    if n == 0 {
        proof {
            lemma2_to64();
            assert(window(slice@, offset as int, 0).len() == 0);
        }
        return ;
    }
    let ghost old_bytes = slice@;
    let first = offset / 8;
    let shift = offset % 8;
    let count = (shift + n + 7) / 8;
    let s = load_scratch(slice, first, count);
    let m = low_mask(n);
    let merged = (s & !((m as u128) << shift as u128)) | ((value as u128) << shift as u128);
    let mut j: usize = 0;
    while j < count
        invariant
            j <= count <= 9,
            first <= usize::MAX / 8,
            first + count <= old_bytes.len(),
            slice@.len() == old_bytes.len(),
            forall|i: int|
                0 <= i < old_bytes.len() && !(first <= i < first + j) ==> #[trigger] slice@[i]
                    == old_bytes[i],
            forall|jj: int| 0 <= jj < j ==> #[trigger] slice@[first + jj] == #[verifier::truncate] ((merged >> (8 * jj) as u128) as u8),
        decreases count - j,
    {
        slice[first + j] = #[verifier::truncate] ((merged >> (8 * j) as u128) as u8);
        j = j + 1;
    }
    proof {
        assert forall|i: int| 0 <= i < 8 * old_bytes.len() implies #[trigger] bit_of(slice@, i) == if offset
            <= i < offset + n {
            (value as nat / pow2((i - offset) as nat)) % 2 == 1
        } else {
            bit_of(old_bytes, i)
        } by {
            if 8 * first <= i < 8 * (first + count) {
                let jj = i / 8 - first;
                let t = i % 8;
                let u = i - 8 * first;
                let byte = slice@[first + jj];
                assert(byte == #[verifier::truncate] ((merged >> (8 * jj) as u128) as u8));
                lemma_store(merged, jj as u128, t as u8, u as u128);
                assert(8 * jj + t == u);
                assert(bit_of(slice@, i) == (((byte >> (t as u8)) & 1u8) == 1u8));
                assert(bit_of(slice@, i) == scratch_bit(merged, u));
                lemma_merge(s, shift as u128, n as u64, m, value, u as u128, (u - shift) as u64);
                if offset <= i < offset + n {
                    lemma_u64_bit_is_digit(value, (u - shift) as u64);
                    assert(u - shift == i - offset);
                } else {
                    assert(scratch_bit(merged, u) == scratch_bit(s, u));
                    assert(scratch_bit(s, u) == bit_of(old_bytes, 8 * first + u));
                }
            } else {
                assert(slice@[i / 8] == old_bytes[i / 8]);
            }
        }
        assert(window(slice@, offset as int, n as int) =~= digits_of(value as nat, n as nat));
        lemma_nat_of_digits(value as nat, n as nat);
        lemma_pow2_pos(n as nat);
        lemma_small_mod(value as nat, pow2(n as nat));
    }
}

/// Reads the number stored over the `n` bits that start at bit `offset`: the
/// touched bytes are loaded into a scratch integer, shifted down and masked.
pub fn read_bits(slice: &[u8], offset: usize, n: usize) -> (r: u64)
    requires
        n <= 64,
        in_buffer(slice@.len(), offset as nat, n as nat),
    ensures
        r == nat_of(window(slice@, offset as int, n as int)),
{
    if n == 0 {
        proof {
            assert(window(slice@, offset as int, 0).len() == 0);
        }
        return 0;
    }
    let first = offset / 8;
    let shift = offset % 8;
    let count = (shift + n + 7) / 8;
    let s = load_scratch(slice, first, count);
    let m = low_mask(n);
    let v = #[verifier::truncate] (((s >> shift as u128) & (m as u128)) as u64);
    proof {
        assert forall|k: int| 0 <= k < n implies #[trigger] window(slice@, offset as int, n as int)[k]
            == digits_of(v as nat, n as nat)[k] by {
            lemma_extract(s, shift as u128, n as u64, m, k as u64, (shift + k) as u128);
            lemma_u64_bit_is_digit(v, k as u64);
            assert(((v >> (k as u64)) & 1u64 == 1u64) == scratch_bit(s, shift + k));
            assert(scratch_bit(s, shift + k) == bit_of(slice@, 8 * first + shift + k));
            assert(8 * first + shift + k == offset + k);
        }
        assert(window(slice@, offset as int, n as int) =~= digits_of(v as nat, n as nat));
        lemma_extract(s, shift as u128, n as u64, m, 0, shift as u128);
        lemma_nat_of_digits(v as nat, n as nat);
        lemma_pow2_pos(n as nat);
        lemma_small_mod(v as nat, pow2(n as nat));
    }
    v
}

} // verus!
