//! What a hybrid model remembers of the positions it has seen.
//!
//! A layer with full attention keeps the keys and values of every position. A layer with linear
//! attention keeps the last inputs of its convolution, in a ring, and a recurrent state. The
//! numbers that are kept are of a type `T`; this module only moves them.

use super::shape::Shape;
use super::size;
use vstd::prelude::*;

verus! {

/// `n` times the same number.
pub open spec fn repeated<T>(number: T, n: nat) -> Seq<T> {
    Seq::new(n, |i: int| number)
}

/// `n` times the same number.
pub fn repeat<T: Copy>(number: T, n: usize) -> (numbers: Vec<T>)
    ensures
        numbers@ == repeated(number, n as nat),
{
    let mut numbers: Vec<T> = Vec::new();
    for i in 0..n
        invariant
            numbers@ == repeated(number, i as nat),
    {
        numbers.push(number);
    }
    numbers
}

/// Sets every number.
pub fn fill<T: Copy>(numbers: &mut Vec<T>, number: T)
    ensures
        final(numbers)@ == repeated(number, old(numbers)@.len()),
{
    let n: usize = numbers.len();
    for i in 0..n
        invariant
            numbers@.len() == n,
            n == old(numbers)@.len(),
            forall|k: int| 0 <= k < i ==> #[trigger] numbers@[k] == number,
    {
        numbers[i] = number;
    }
}

/// The numbers with `row` in place of those from `at` on.
pub open spec fn overwritten<T>(numbers: Seq<T>, at: int, row: Seq<T>) -> Seq<T> {
    Seq::new(numbers.len(), |i: int| if at <= i < at + row.len() { row[i - at] } else { numbers[i] })
}

/// Puts `row` in place of the numbers from `at` on.
pub fn overwrite<T: Copy>(numbers: &mut Vec<T>, at: usize, row: &[T])
    requires
        at + row@.len() <= old(numbers)@.len(),
    ensures
        final(numbers)@ == overwritten(old(numbers)@, at as int, row@),
{
    let n: usize = numbers.len();
    for i in 0..row.len()
        invariant
            at + row@.len() <= n,
            n == old(numbers)@.len(),
            numbers@ == overwritten(old(numbers)@, at as int, row@.take(i as int)),
    {
        numbers[at + i] = row[i];
        assert(numbers@ =~= overwritten(old(numbers)@, at as int, row@.take(i + 1)));
    }
    assert(row@.take(row@.len() as int) =~= row@);
}

/// Where the keys, and the values, of a position of the full attention layer `slot` lie.
pub open spec fn kv_place(seq_len: nat, kv_dim: nat, slot: nat, pos: nat) -> nat {
    slot * seq_len * kv_dim + pos * kv_dim
}

/// The places of two positions do not overlap, and lie within those of all layers.
pub proof fn law_kv_places_apart(
    n_full: nat,
    seq_len: nat,
    kv_dim: nat,
    slot: nat,
    pos: nat,
    other_slot: nat,
    other: nat,
)
    requires
        slot < n_full,
        other_slot < n_full,
        pos < seq_len,
        other < seq_len,
    ensures
        kv_place(seq_len, kv_dim, slot, pos) + kv_dim <= n_full * seq_len * kv_dim,
        (slot, pos) != (other_slot, other) ==> kv_place(seq_len, kv_dim, slot, pos) + kv_dim <= kv_place(
            seq_len,
            kv_dim,
            other_slot,
            other,
        ) || kv_place(seq_len, kv_dim, other_slot, other) + kv_dim <= kv_place(seq_len, kv_dim, slot, pos),
{
    lemma_kv_place(n_full, seq_len, kv_dim, slot, pos);
    if slot < other_slot || (slot == other_slot && pos < other) {
        lemma_kv_order(seq_len, kv_dim, slot, pos, other_slot, other);
    } else if (slot, pos) != (other_slot, other) {
        lemma_kv_order(seq_len, kv_dim, other_slot, other, slot, pos);
    }
}

/// What is stored for a position is read back for it, and what any other position has stays.
pub proof fn law_kv_reads_back<T>(
    numbers: Seq<T>,
    n_full: nat,
    seq_len: nat,
    slot: nat,
    pos: nat,
    row: Seq<T>,
    other_slot: nat,
    other: nat,
)
    requires
        numbers.len() == n_full * seq_len * row.len(),
        slot < n_full,
        other_slot < n_full,
        pos < seq_len,
        other < seq_len,
    ensures
        ({
            let place = kv_place(seq_len, row.len(), other_slot, other) as int;
            let after = overwritten(numbers, kv_place(seq_len, row.len(), slot, pos) as int, row);
            after.subrange(place, place + row.len()) == if (slot, pos) == (other_slot, other) {
                row
            } else {
                numbers.subrange(place, place + row.len())
            }
        }),
{
    let kv_dim = row.len();
    law_kv_places_apart(n_full, seq_len, kv_dim, slot, pos, other_slot, other);
    law_kv_places_apart(n_full, seq_len, kv_dim, other_slot, other, slot, pos);
    let place = kv_place(seq_len, kv_dim, other_slot, other) as int;
    let after = overwritten(numbers, kv_place(seq_len, kv_dim, slot, pos) as int, row);
    if (slot, pos) == (other_slot, other) {
        assert(after.subrange(place, place + kv_dim) =~= row);
    } else {
        assert(after.subrange(place, place + kv_dim) =~= numbers.subrange(place, place + kv_dim));
    }
}

/// What goes into the place of a position fits where the caches fit.
pub proof fn lemma_kv_parts(n_full: nat, seq_len: nat, kv_dim: nat, slot: nat, pos: nat)
    requires
        slot < n_full,
        pos < seq_len,
    ensures
        kv_place(seq_len, kv_dim, slot, pos) + kv_dim <= n_full * seq_len * kv_dim,
        slot * seq_len * kv_dim <= n_full * seq_len * kv_dim,
        pos * kv_dim <= n_full * seq_len * kv_dim,
        kv_dim > 0 ==> slot * seq_len <= n_full * seq_len * kv_dim,
{
    lemma_kv_place(n_full, seq_len, kv_dim, slot, pos);
    if kv_dim > 0 {
        let rows = n_full * seq_len;
        assert(rows <= rows * kv_dim) by (nonlinear_arith)
            requires
                kv_dim >= 1,
        ;
    }
}

proof fn lemma_kv_place(n_full: nat, seq_len: nat, kv_dim: nat, slot: nat, pos: nat)
    by (nonlinear_arith)
    requires
        slot < n_full,
        pos < seq_len,
    ensures
        slot * seq_len * kv_dim + pos * kv_dim + kv_dim <= n_full * seq_len * kv_dim,
        slot * seq_len * kv_dim <= n_full * seq_len * kv_dim,
        pos * kv_dim <= n_full * seq_len * kv_dim,
        slot * seq_len <= n_full * seq_len,
{
    let row = slot * seq_len + pos;
    assert(row + 1 <= n_full * seq_len) by {
        assert((slot + 1) * seq_len <= n_full * seq_len);
    }
    assert((row + 1) * kv_dim <= n_full * seq_len * kv_dim);
    assert((row + 1) * kv_dim == slot * seq_len * kv_dim + pos * kv_dim + kv_dim);
    assert(0 <= pos * kv_dim);
    assert(0 <= slot * seq_len * kv_dim);
    assert(slot * seq_len <= n_full * seq_len);
}

/// The places of positions lie in the order of the layers, and of the positions within a layer.
pub proof fn lemma_kv_order(seq_len: nat, kv_dim: nat, slot: nat, pos: nat, other_slot: nat, other: nat)
    by (nonlinear_arith)
    requires
        pos < seq_len,
        other < seq_len,
    ensures
        slot < other_slot || (slot == other_slot && pos < other) ==> slot * seq_len * kv_dim + pos * kv_dim + kv_dim <= other_slot * seq_len * kv_dim + other * kv_dim,
{
    let row = slot * seq_len + pos;
    let other_row = other_slot * seq_len + other;
    if slot < other_slot || (slot == other_slot && pos < other) {
        assert(row + 1 <= other_row) by {
            if slot < other_slot {
                assert((slot + 1) * seq_len <= other_slot * seq_len);
            }
        }
        assert((row + 1) * kv_dim <= other_row * kv_dim);
        assert((row + 1) * kv_dim == slot * seq_len * kv_dim + pos * kv_dim + kv_dim);
        assert(other_row * kv_dim == other_slot * seq_len * kv_dim + other * kv_dim);
    }
}

/// The ring of a convolution with the input of position `pos` put in place of the oldest one.
pub open spec fn ring_pushed<T>(ring: Seq<T>, kernel: nat, pos: nat, row: Seq<T>) -> Seq<T> {
    overwritten(ring, pos as int % kernel as int * row.len(), row)
}

/// Which slot of the ring tap `t` of the convolution reads at position `pos`.
pub open spec fn tap_slot(kernel: nat, pos: nat, t: nat) -> int {
    (pos + 1 + t) as int % kernel as int
}

/// What tap `t` of channel `ch` reads at position `pos`, with inputs of `stride` numbers.
pub open spec fn tapped<T>(ring: Seq<T>, kernel: nat, stride: nat, pos: nat, t: nat, ch: nat) -> T {
    ring[tap_slot(kernel, pos, t) * stride + ch]
}

/// The ring after the inputs `rows` of the positions from zero on.
pub open spec fn ring_after<T>(rows: Seq<Seq<T>>, kernel: nat, stride: nat, zero: T) -> Seq<T>
    decreases rows.len(),
{
    if rows.len() == 0 {
        repeated(zero, stride * kernel)
    } else {
        ring_pushed(
            ring_after(rows.drop_last(), kernel, stride, zero),
            kernel,
            (rows.len() - 1) as nat,
            rows.last(),
        )
    }
}

proof fn lemma_slots_apart(kernel: int, a: int, b: int)
    by (nonlinear_arith)
    requires
        0 < kernel,
        0 < a - b < kernel,
    ensures
        a % kernel != b % kernel,
{
    if a % kernel == b % kernel {
        let k = a / kernel - b / kernel;
        assert(a == kernel * (a / kernel) + a % kernel);
        assert(b == kernel * (b / kernel) + b % kernel);
        assert(a - b == kernel * k);
        assert(k >= 1 ==> kernel * k >= kernel);
        assert(k <= 0 ==> kernel * k <= 0);
    }
}

proof fn lemma_slot_range(kernel: int, stride: int, slot: int, other: int, ch: int)
    by (nonlinear_arith)
    requires
        0 <= slot < kernel,
        0 <= other < kernel,
        0 <= ch < stride,
    ensures
        0 <= slot * stride + ch < stride * kernel,
        slot * stride + stride <= stride * kernel,
        slot < other ==> slot * stride + ch < other * stride,
        slot > other ==> slot * stride + ch >= other * stride + stride,
        slot == other ==> other * stride <= slot * stride + ch < other * stride + stride,
{
    assert((slot + 1) * stride <= kernel * stride);
    if slot < other {
        assert((slot + 1) * stride <= other * stride);
    }
    if slot > other {
        assert((other + 1) * stride <= slot * stride);
    }
}

proof fn lemma_ring_entry<T>(rows: Seq<Seq<T>>, kernel: nat, stride: nat, zero: T, p: int, ch: nat)
    requires
        0 < kernel,
        ch < stride,
        forall|i: int| 0 <= i < rows.len() ==> (#[trigger] rows[i]).len() == stride,
        rows.len() - kernel <= p < rows.len(),
    ensures
        ring_after(rows, kernel, stride, zero).len() == stride * kernel,
        ring_after(rows, kernel, stride, zero)[p % kernel as int * stride + ch] == if p >= 0 {
            rows[p][ch as int]
        } else {
            zero
        },
    decreases rows.len(),
{
    let slot = p % kernel as int;
    lemma_slot_range(kernel as int, stride as int, slot, slot, ch as int);
    if rows.len() > 0 {
        let last = rows.len() - 1;
        let written = last % kernel as int;
        lemma_slot_range(kernel as int, stride as int, slot, written, ch as int);
        lemma_slot_range(kernel as int, stride as int, written, slot, ch as int);
        if p == last {
            lemma_ring_entry(rows.drop_last(), kernel, stride, zero, p - 1, ch);
        } else {
            lemma_slots_apart(kernel as int, last, p);
            lemma_ring_entry(rows.drop_last(), kernel, stride, zero, p, ch);
        }
    }
}

/// The convolution sees its inputs in the order of their positions, the last one under the last
/// tap, and zeros for positions before the first one.
pub proof fn law_ring_is_chronological<T>(rows: Seq<Seq<T>>, kernel: nat, stride: nat, zero: T, t: nat, ch: nat)
    requires
        0 < rows.len(),
        forall|i: int| 0 <= i < rows.len() ==> (#[trigger] rows[i]).len() == stride,
        t < kernel,
        ch < stride,
    ensures
        ({
            let pos = (rows.len() - 1) as nat;
            let p = pos - (kernel - 1) + t;
            tapped(ring_after(rows, kernel, stride, zero), kernel, stride, pos, t, ch) == if p >= 0 {
                rows[p][ch as int]
            } else {
                zero
            }
        }),
{
    let pos = (rows.len() - 1) as nat;
    let p = pos - (kernel - 1) + t;
    assert(p % kernel as int == (p + kernel) % kernel as int) by {
        vstd::arithmetic::div_mod::lemma_mod_add_multiples_vanish(p, kernel as int);
    }
    lemma_ring_entry(rows, kernel, stride, zero, p, ch);
}

/// Puts the input of position `pos` in place of the oldest one of the ring.
pub fn push_ring<T: Copy>(ring: &mut Vec<T>, kernel: usize, pos: usize, row: &[T])
    requires
        0 < kernel,
        old(ring)@.len() == row@.len() * kernel,
    ensures
        final(ring)@ == ring_pushed(old(ring)@, kernel as nat, pos as nat, row@),
{
    let slot: usize = pos % kernel;
    proof {
        let stride = row@.len() as int;
        if stride > 0 {
            lemma_slot_range(kernel as int, stride, slot as int, slot as int, 0);
        } else {
            assert(slot * stride == 0) by (nonlinear_arith)
                requires
                    stride == 0,
            ;
        }
        assert(0 <= slot * stride) by (nonlinear_arith)
            requires
                0 <= slot,
                0 <= stride,
        ;
    }
    assert(ring.len() == ring@.len());
    overwrite(ring, slot * row.len(), row);
}

/// What tap `t` of channel `ch` reads at position `pos`.
pub fn tap<T: Copy>(ring: &Vec<T>, kernel: usize, stride: usize, pos: usize, t: usize, ch: usize) -> (number: T)
    requires
        t < kernel,
        ch < stride,
        ring@.len() == stride as nat * kernel as nat,
    ensures
        number == tapped(ring@, kernel as nat, stride as nat, pos as nat, t as nat, ch as nat),
{
    let newest: usize = pos % kernel;
    let wrap: usize = kernel - 1 - newest;
    let slot: usize = if t < wrap {
        newest + 1 + t
    } else {
        t - wrap
    };
    proof {
        lemma_tap_slot(kernel as int, pos as int, t as int);
        lemma_slot_range(kernel as int, stride as int, slot as int, slot as int, ch as int);
        assert(0 <= slot * stride) by (nonlinear_arith)
            requires
                0 <= slot,
                0 <= stride,
        ;
    }
    assert(ring.len() == ring@.len());
    ring[slot * stride + ch]
}

proof fn lemma_tap_slot(kernel: int, pos: int, t: int)
    requires
        0 <= t < kernel,
        0 <= pos,
    ensures
        ({
            let newest = pos % kernel;
            (pos + 1 + t) % kernel == if t < kernel - 1 - newest {
                newest + 1 + t
            } else {
                t - (kernel - 1 - newest)
            }
        }),
{
    let newest = pos % kernel;
    let q = pos / kernel;
    vstd::arithmetic::div_mod::lemma_fundamental_div_mod(pos, kernel);
    assert(kernel * q == q * kernel) by (nonlinear_arith);
    if t < kernel - 1 - newest {
        vstd::arithmetic::div_mod::lemma_fundamental_div_mod_converse(pos + 1 + t, kernel, q, newest + 1 + t);
    } else {
        assert(q * kernel + kernel == (q + 1) * kernel) by (nonlinear_arith);
        vstd::arithmetic::div_mod::lemma_fundamental_div_mod_converse(
            pos + 1 + t,
            kernel,
            q + 1,
            newest + 1 + t - kernel,
        );
    }
}

/// The length of the key cache, and of the value cache.
pub open spec fn kv_len(shape: Shape) -> nat {
    shape.n_full as nat * shape.seq_len as nat * shape.kv_dim as nat
}

/// The length of the ring of a convolution.
pub open spec fn ring_len(shape: Shape) -> nat {
    shape.linear_qkv_dim as nat * shape.conv_kernel_size as nat
}

/// The length of the recurrent state of a linear attention layer.
pub open spec fn state_len(shape: Shape) -> nat {
    shape.n_linear_v_heads as nat * shape.linear_k_head_dim as nat * shape.linear_v_head_dim as nat
}

/// Whether the lengths of all caches fit into a `usize`.
pub open spec fn caches_fit(shape: Shape) -> bool {
    &&& kv_len(shape) <= usize::MAX
    &&& ring_len(shape) <= usize::MAX
    &&& state_len(shape) <= usize::MAX
}

/// The contents of the caches of a model.
pub struct CacheState<T> {
    pub keys: Seq<T>,
    pub values: Seq<T>,
    pub rings: Seq<Seq<T>>,
    pub states: Seq<Seq<T>>,
}

impl<T> CacheState<T> {
    /// Caches that have seen no position.
    pub open spec fn fresh(shape: Shape, zero: T) -> CacheState<T> {
        CacheState {
            keys: repeated(zero, kv_len(shape)),
            values: repeated(zero, kv_len(shape)),
            rings: repeated(repeated(zero, ring_len(shape)), shape.n_linear as nat),
            states: repeated(repeated(zero, state_len(shape)), shape.n_linear as nat),
        }
    }

    /// Whether the caches have the lengths that the dimensions demand.
    pub open spec fn fits(self, shape: Shape) -> bool {
        &&& self.keys.len() == kv_len(shape)
        &&& self.values.len() == kv_len(shape)
        &&& self.rings.len() == shape.n_linear
        &&& self.states.len() == shape.n_linear
        &&& forall|i: int| 0 <= i < shape.n_linear ==> (#[trigger] self.rings[i]).len() == ring_len(shape)
        &&& forall|i: int| 0 <= i < shape.n_linear ==> (#[trigger] self.states[i]).len() == state_len(shape)
    }

    /// The caches with `zero` everywhere.
    pub open spec fn cleared(self, zero: T) -> CacheState<T> {
        CacheState {
            keys: repeated(zero, self.keys.len()),
            values: repeated(zero, self.values.len()),
            rings: Seq::new(self.rings.len(), |i: int| repeated(zero, self.rings[i].len())),
            states: Seq::new(self.states.len(), |i: int| repeated(zero, self.states[i].len())),
        }
    }

    /// The caches with the keys and values of one more position, at `place`.
    pub open spec fn stored(self, place: nat, keys: Seq<T>, values: Seq<T>) -> CacheState<T> {
        CacheState {
            keys: overwritten(self.keys, place as int, keys),
            values: overwritten(self.values, place as int, values),
            rings: self.rings,
            states: self.states,
        }
    }

    /// The caches with the input of one more position in the ring of linear attention layer `slot`.
    pub open spec fn pushed(self, slot: int, kernel: nat, pos: nat, row: Seq<T>) -> CacheState<T> {
        CacheState {
            keys: self.keys,
            values: self.values,
            rings: self.rings.update(slot, ring_pushed(self.rings[slot], kernel, pos, row)),
            states: self.states,
        }
    }
}

/// Caches that are cleared are as good as new, whatever they held.
pub proof fn law_cleared_is_fresh<T>(state: CacheState<T>, shape: Shape, zero: T)
    requires
        state.fits(shape),
    ensures
        state.cleared(zero) == CacheState::fresh(shape, zero),
{
    assert(state.cleared(zero).rings =~= CacheState::fresh(shape, zero).rings);
    assert(state.cleared(zero).states =~= CacheState::fresh(shape, zero).states);
}

/// Fresh caches have the lengths that the dimensions demand.
pub proof fn lemma_fresh_fits<T>(shape: Shape, zero: T)
    ensures
        CacheState::fresh(shape, zero).fits(shape),
{
}

/// The caches of a model.
#[derive(Debug)]
pub struct Caches<T> {
    pub full_attn_k_cache: Vec<T>,
    pub full_attn_v_cache: Vec<T>,
    pub delta_conv_states: Vec<Vec<T>>,
    pub delta_recurrent_states: Vec<Vec<T>>,
}

/// The contents of several lists.
pub open spec fn contents<T>(lists: Seq<Vec<T>>) -> Seq<Seq<T>> {
    Seq::new(lists.len(), |i: int| lists[i]@)
}

impl<T> View for Caches<T> {
    type V = CacheState<T>;

    open spec fn view(&self) -> CacheState<T> {
        CacheState {
            keys: self.full_attn_k_cache@,
            values: self.full_attn_v_cache@,
            rings: contents(self.delta_conv_states@),
            states: contents(self.delta_recurrent_states@),
        }
    }
}

fn repeat_lists<T: Copy>(number: T, len: usize, count: usize) -> (lists: Vec<Vec<T>>)
    ensures
        contents(lists@) == repeated(repeated(number, len as nat), count as nat),
{
    let mut lists: Vec<Vec<T>> = Vec::new();
    for i in 0..count
        invariant
            lists@.len() == i,
            forall|k: int| 0 <= k < i ==> (#[trigger] lists@[k])@ == repeated(number, len as nat),
    {
        lists.push(repeat(number, len));
    }
    lists
}

fn fill_lists<T: Copy>(lists: &mut Vec<Vec<T>>, number: T)
    ensures
        contents(final(lists)@) == Seq::new(
            old(lists)@.len(),
            |i: int| repeated(number, old(lists)@[i]@.len()),
        ),
{
    let n: usize = lists.len();
    for i in 0..n
        invariant
            n == old(lists)@.len(),
            lists@.len() == n,
            forall|k: int| 0 <= k < i ==> (#[trigger] lists@[k])@ == repeated(number, old(lists)@[k]@.len()),
            forall|k: int| i <= k < n ==> #[trigger] lists@[k] == old(lists)@[k],
    {
        fill(&mut lists[i], number);
    }
}

impl<T: Copy> Caches<T> {
    /// Caches that have seen no position.
    pub fn new(shape: &Shape, zero: T) -> (caches: Self)
        requires
            caches_fit(*shape),
        ensures
            caches@ == CacheState::fresh(*shape, zero),
    {
        let (kv, ring, state): (usize, usize, usize) = match cache_lengths(shape) {
            (Some(kv), Some(ring), Some(state)) => (kv, ring, state),
            _ => (0, 0, 0),
        };
        Caches {
            full_attn_k_cache: repeat(zero, kv),
            full_attn_v_cache: repeat(zero, kv),
            delta_conv_states: repeat_lists(zero, ring, shape.n_linear),
            delta_recurrent_states: repeat_lists(zero, state, shape.n_linear),
        }
    }

    /// Forgets all positions.
    pub fn reset(&mut self, zero: T)
        ensures
            final(self)@ == old(self)@.cleared(zero),
    {
        fill(&mut self.full_attn_k_cache, zero);
        fill(&mut self.full_attn_v_cache, zero);
        fill_lists(&mut self.delta_conv_states, zero);
        fill_lists(&mut self.delta_recurrent_states, zero);
        assert(self@.rings =~= old(self)@.cleared(zero).rings);
        assert(self@.states =~= old(self)@.cleared(zero).states);
    }

    /// Stores the keys and values of a position.
    pub fn store(&mut self, place: usize, keys: &[T], values: &[T])
        requires
            place + keys@.len() <= old(self)@.keys.len(),
            place + values@.len() <= old(self)@.values.len(),
        ensures
            final(self)@ == old(self)@.stored(place as nat, keys@, values@),
    {
        overwrite(&mut self.full_attn_k_cache, place, keys);
        overwrite(&mut self.full_attn_v_cache, place, values);
    }

    /// Puts the input of a position into the ring of linear attention layer `slot`.
    pub fn push(&mut self, slot: usize, kernel: usize, pos: usize, row: &[T])
        requires
            0 < kernel,
            slot < old(self)@.rings.len(),
            old(self)@.rings[slot as int].len() == row@.len() * kernel,
        ensures
            final(self)@ == old(self)@.pushed(slot as int, kernel as nat, pos as nat, row@),
    {
        push_ring(&mut self.delta_conv_states[slot], kernel, pos, row);
        assert(self@.rings =~= old(self)@.pushed(slot as int, kernel as nat, pos as nat, row@).rings);
    }
}

/// Whether the lengths of all caches fit into a `usize`.
pub fn check_caches_fit(shape: &Shape) -> (fit: bool)
    ensures
        fit == caches_fit(*shape),
{
    match cache_lengths(shape) {
        (Some(_), Some(_), Some(_)) => true,
        _ => false,
    }
}

/// The lengths of the key and value caches, of a ring and of a recurrent state.
fn cache_lengths(shape: &Shape) -> (lengths: (Option<usize>, Option<usize>, Option<usize>))
    ensures
        size::denotes(lengths.0, kv_len(*shape)),
        size::denotes(lengths.1, ring_len(*shape)),
        size::denotes(lengths.2, state_len(*shape)),
{
    proof {
        assert(1 * shape.linear_qkv_dim as nat == shape.linear_qkv_dim as nat);
    }
    (
        size::product(shape.n_full, shape.seq_len, shape.kv_dim),
        size::product(1, shape.linear_qkv_dim, shape.conv_kernel_size),
        size::product(shape.n_linear_v_heads, shape.linear_k_head_dim, shape.linear_v_head_dim),
    )
}

/// Fresh caches hold nothing but zeros: keys and values for every position of every layer with full
/// attention, and for every layer with linear attention a ring with an input for each tap, and a
/// state with a number for each pair of a key and a value dimension of each head.
pub proof fn law_fresh_caches_are_zero<T>(shape: Shape, zero: T)
    ensures
        ({
            let fresh = CacheState::fresh(shape, zero);
            &&& fresh.keys.len() == shape.n_full * shape.seq_len * shape.kv_dim
            &&& fresh.values.len() == shape.n_full * shape.seq_len * shape.kv_dim
            &&& fresh.rings.len() == shape.n_linear
            &&& fresh.states.len() == shape.n_linear
            &&& forall|k: int| 0 <= k < fresh.keys.len() ==> #[trigger] fresh.keys[k] == zero
            &&& forall|k: int| 0 <= k < fresh.values.len() ==> #[trigger] fresh.values[k] == zero
            &&& forall|i: int|
                0 <= i < shape.n_linear ==> (#[trigger] fresh.rings[i]).len() == shape.linear_qkv_dim
                    * shape.conv_kernel_size
            &&& forall|i: int|
                0 <= i < shape.n_linear ==> (#[trigger] fresh.states[i]).len() == shape.n_linear_v_heads
                    * shape.linear_k_head_dim * shape.linear_v_head_dim
            &&& forall|i: int, k: int|
                0 <= i < shape.n_linear && 0 <= k < fresh.rings[i].len() ==> #[trigger] fresh.rings[i][k] == zero
            &&& forall|i: int, k: int|
                0 <= i < shape.n_linear && 0 <= k < fresh.states[i].len() ==> #[trigger] fresh.states[i][k] == zero
        }),
{
}

/// Storing a position puts its keys among the keys and its values among the values, in place of what
/// was there, and changes nothing else.
pub proof fn law_storing_changes_one_place<T>(state: CacheState<T>, place: nat, keys: Seq<T>, values: Seq<T>, k: int)
    requires
        place + keys.len() <= state.keys.len(),
        place + values.len() <= state.values.len(),
    ensures
        ({
            let after = state.stored(place, keys, values);
            &&& after.keys.len() == state.keys.len()
            &&& after.values.len() == state.values.len()
            &&& 0 <= k < keys.len() ==> after.keys[place + k] == keys[k]
            &&& 0 <= k < values.len() ==> after.values[place + k] == values[k]
            &&& 0 <= k < place || place + keys.len() <= k < state.keys.len() ==> after.keys[k] == state.keys[k]
            &&& 0 <= k < place || place + values.len() <= k < state.values.len() ==> after.values[k] == state.values[k]
            &&& after.rings == state.rings
            &&& after.states == state.states
        }),
{
}

/// An input goes into the ring of its own layer, over the one from as many positions ago as there
/// are taps, and changes nothing else.
pub proof fn law_pushing_changes_one_ring<T>(
    state: CacheState<T>,
    slot: int,
    kernel: nat,
    pos: nat,
    row: Seq<T>,
    other: int,
    age: nat,
    ch: int,
)
    requires
        0 < kernel,
        0 <= slot < state.rings.len(),
        0 <= other < state.rings.len(),
        state.rings[slot].len() == row.len() * kernel,
        0 <= ch < row.len(),
        0 < age < kernel,
        age <= pos,
    ensures
        ({
            let after = state.pushed(slot, kernel, pos, row);
            &&& after.keys == state.keys
            &&& after.values == state.values
            &&& after.states == state.states
            &&& after.rings.len() == state.rings.len()
            &&& other != slot ==> after.rings[other] == state.rings[other]
            &&& after.rings[slot].len() == state.rings[slot].len()
            &&& after.rings[slot][pos as int % kernel as int * row.len() + ch] == row[ch]
            &&& after.rings[slot][(pos - age) % kernel as int * row.len() + ch] == state.rings[slot][(pos - age)
                % kernel as int * row.len() + ch]
        }),
{
    let own = pos as int % kernel as int;
    let old_slot = (pos - age) % kernel as int;
    lemma_slots_apart(kernel as int, pos as int, pos - age);
    lemma_slot_range(kernel as int, row.len() as int, own, own, ch);
    lemma_slot_range(kernel as int, row.len() as int, old_slot, own, ch);
}

} // verus!
