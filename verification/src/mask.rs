//! Which layers of a hybrid model have full attention.
//!
//! A model of at most 64 layers keeps this in a mask: bit `i` is set where layer `i` has full
//! attention, and clear where it has linear attention.

use vstd::arithmetic::power2::pow2;
use vstd::prelude::*;

verus! {

/// How many layers a mask can describe.
pub const MAX_LAYERS: usize = 64;

/// Whether layer `i` has full attention.
pub open spec fn is_full(mask: u64, i: int) -> bool {
    (mask >> (i as u64)) & 1 == 1
}

/// How many of the layers before layer `n` have full attention.
pub open spec fn full_before(mask: u64, n: int) -> nat
    decreases n,
{
    if n <= 0 {
        0
    } else if is_full(mask, n - 1) {
        full_before(mask, n - 1) + 1
    } else {
        full_before(mask, n - 1)
    }
}

/// How many of the layers before layer `n` have linear attention.
pub open spec fn linear_before(mask: u64, n: int) -> nat {
    (n - full_before(mask, n)) as nat
}

/// Whether the mask speaks of no layer from `n` on.
pub open spec fn within(mask: u64, n: int) -> bool {
    n == MAX_LAYERS || mask >> (n as u64) == 0
}

/// Whether layer `i` has full attention.
pub fn has_full_attention(mask: u64, i: usize) -> (full: bool)
    requires
        i < MAX_LAYERS,
    ensures
        full == is_full(mask, i as int),
{
    let bit: u64 = (mask >> (i as u64)) & 1;
    assert(bit == 0 || bit == 1) by (bit_vector)
        requires
            bit == (mask >> (i as u64)) & 1,
    ;
    bit != 0
}

/// How many of the layers before layer `n` have full attention.
pub fn count_full(mask: u64, n: usize) -> (count: usize)
    requires
        n <= MAX_LAYERS,
    ensures
        count == full_before(mask, n as int),
        count <= n,
{
    let mut count: usize = 0;
    for i in 0..n
        invariant
            n <= MAX_LAYERS,
            count == full_before(mask, i as int),
            count <= i,
    {
        if has_full_attention(mask, i) {
            count += 1;
        }
    }
    count
}

/// There are no more layers of a kind than there are layers.
pub proof fn lemma_full_before_bounds(mask: u64, n: int)
    requires
        0 <= n,
    ensures
        full_before(mask, n) <= n,
    decreases n,
{
    if n > 0 {
        lemma_full_before_bounds(mask, n - 1);
    }
}

/// The counts grow with the layers.
pub proof fn lemma_counts_grow(mask: u64, i: int, n: int)
    requires
        0 <= i <= n,
    ensures
        full_before(mask, i) <= full_before(mask, n),
        linear_before(mask, i) <= linear_before(mask, n),
        i < n && is_full(mask, i) ==> full_before(mask, i) < full_before(mask, n),
        i < n && !is_full(mask, i) ==> linear_before(mask, i) < linear_before(mask, n),
    decreases n - i,
{
    lemma_full_before_bounds(mask, i);
    lemma_full_before_bounds(mask, n);
    if i < n {
        lemma_full_before_bounds(mask, i + 1);
        lemma_counts_grow(mask, i + 1, n);
    }
}

/// The mask with bit `i` set as well.
pub open spec fn with_layer(mask: u64, i: int) -> u64 {
    mask | (1u64 << (i as u64))
}

/// Setting a bit changes no other bit.
pub proof fn lemma_with_layer(mask: u64, i: int, j: int)
    requires
        0 <= i < MAX_LAYERS,
        0 <= j < MAX_LAYERS,
    ensures
        is_full(with_layer(mask, i), j) == (i == j || is_full(mask, j)),
{
    let a = i as u64;
    let b = j as u64;
    assert(((mask | (1u64 << a)) >> b) & 1 == 1 <==> (a == b || (mask >> b) & 1 == 1)) by (bit_vector)
        requires
            a < 64,
            b < 64,
    ;
}

/// A mask of the layers before layer `n` is one of the layers before the next one too, with the bit
/// of layer `n` set or not.
pub proof fn lemma_within_grows(mask: u64, n: int)
    requires
        0 <= n < MAX_LAYERS,
        within(mask, n),
    ensures
        within(mask, n + 1),
        within(with_layer(mask, n), n + 1),
{
    let a = n as u64;
    let b = (n + 1) as u64;
    assert(mask >> a == 0 && b < 64 ==> mask >> b == 0 && (mask | (1u64 << a)) >> b == 0) by (bit_vector)
        requires
            a < 64,
            b == a + 1,
    ;
}

/// Two masks that agree on every layer are the same.
pub proof fn law_masks_are_their_bits(a: u64, b: u64)
    requires
        forall|i: int| 0 <= i < MAX_LAYERS ==> is_full(a, i) == is_full(b, i),
    ensures
        a == b,
{
    if a != b {
        let d = a ^ b;
        assert(d != 0) by (bit_vector)
            requires
                a != b,
                d == a ^ b,
        ;
        let k = lemma_some_bit(d, 64);
        let kk = k as u64;
        assert(is_full(a, k) == is_full(b, k));
        assert(false) by (bit_vector)
            requires
                kk < 64,
                ((a ^ b) >> kk) & 1 == 1,
                ((a >> kk) & 1 == 1) == ((b >> kk) & 1 == 1),
        ;
    }
}

proof fn lemma_some_bit(d: u64, n: u64) -> (k: int)
    requires
        n <= 64,
        d != 0,
        n == 64 || d >> n == 0,
    ensures
        0 <= k < n,
        is_full(d, k),
    decreases n,
{
    if n == 0 {
        assert(d >> 0u64 == d) by (bit_vector);
        0
    } else {
        let m = (n - 1) as u64;
        if (d >> m) & 1 == 1 {
            m as int
        } else {
            assert(d >> m == 0) by (bit_vector)
                requires
                    m < 64,
                    m == 63 || d >> ((m + 1) as u64) == 0,
                    (d >> m) & 1 != 1,
            ;
            lemma_some_bit(d, m)
        }
    }
}

/// Bit `i` of a mask is its binary digit with the weight of two to the power of `i`.
pub proof fn law_bits_are_binary_digits(mask: u64, i: int)
    requires
        0 <= i < MAX_LAYERS,
    ensures
        is_full(mask, i) <==> (mask as nat / pow2(i as nat)) % 2 == 1,
{
    let k = i as u64;
    let shifted = mask >> k;
    vstd::bits::lemma_u64_shr_is_div(mask, k);
    assert(shifted & 1 == shifted % 2) by (bit_vector);
}

/// The layers before layer `n` for which the mask has a bit.
pub open spec fn full_layers(mask: u64, n: int) -> Set<int> {
    Set::new(|i: int| 0 <= i < n && is_full(mask, i))
}

/// The counts are those of the layers of each kind, and every layer is of one kind.
pub proof fn law_counts_are_of_layers(mask: u64, n: int)
    requires
        0 <= n,
    ensures
        full_layers(mask, n).finite(),
        full_layers(mask, n).len() == full_before(mask, n),
        full_before(mask, n) + linear_before(mask, n) == n,
    decreases n,
{
    lemma_full_before_bounds(mask, n);
    if n == 0 {
        assert(full_layers(mask, 0) =~= Set::empty());
    } else {
        law_counts_are_of_layers(mask, n - 1);
        if is_full(mask, n - 1) {
            assert(full_layers(mask, n) =~= full_layers(mask, n - 1).insert(n - 1));
        } else {
            assert(full_layers(mask, n) =~= full_layers(mask, n - 1));
        }
    }
}

/// Layers of one kind have different numbers among the layers of their kind, in the order of the
/// layers, and all of these numbers are below the count of their kind.
pub proof fn law_layers_of_a_kind_have_their_own_numbers(mask: u64, i: int, j: int, n: int)
    requires
        0 <= i < j < n,
    ensures
        is_full(mask, i) && is_full(mask, j) ==> full_before(mask, i) < full_before(mask, j) < full_before(mask, n),
        !is_full(mask, i) && !is_full(mask, j) ==> linear_before(mask, i) < linear_before(mask, j) < linear_before(
            mask,
            n,
        ),
{
    lemma_counts_grow(mask, i, j);
    lemma_counts_grow(mask, j, n);
}

/// A mask speaks of no layer from `n` on where it has no bit from `n` on.
pub proof fn law_within_means_no_later_bits(mask: u64, n: int)
    requires
        0 <= n <= MAX_LAYERS,
    ensures
        within(mask, n) <==> forall|i: int| n <= i < MAX_LAYERS ==> !#[trigger] is_full(mask, i),
{
    if n < MAX_LAYERS {
        let a = n as u64;
        if mask >> a == 0 {
            assert forall|i: int| n <= i < MAX_LAYERS implies !#[trigger] is_full(mask, i) by {
                let b = i as u64;
                assert((mask >> b) & 1 == 0) by (bit_vector)
                    requires
                        mask >> a == 0,
                        a <= b < 64,
                ;
            }
        } else {
            let d = mask >> a;
            let k = lemma_some_bit(d, 64);
            let b = k as u64;
            assert(a + b < 64 && (mask >> ((a + b) as u64)) & 1 == 1) by (bit_vector)
                requires
                    d == mask >> a,
                    (d >> b) & 1 == 1,
                    a < 64,
                    b < 64,
            ;
            assert(is_full(mask, n + k));
        }
    }
}

} // verus!
