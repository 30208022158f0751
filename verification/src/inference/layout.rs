//! Where the parts of a layer find their numbers in buffers and caches.

use super::cache;
use super::shape;
use super::shape::Shape;
use vstd::prelude::*;

verus! {

/// Number `j` of row `h`, in rows of `width` numbers.
pub open spec fn at<T>(numbers: Seq<T>, width: int, h: int, j: int) -> T {
    numbers[h * width + j]
}

proof fn lemma_at_order(width: int, h: int, j: int, g: int, k: int)
    by (nonlinear_arith)
    requires
        0 <= j < width,
        0 <= k < width,
        0 <= h,
        0 <= g,
    ensures
        0 <= h * width + j,
        (h < g || (h == g && j < k)) ==> h * width + j < g * width + k,
        (h < g) ==> h * width + width <= g * width,
        h * width + j == g * width + k ==> h == g && j == k,
{
    if h < g {
        assert((h + 1) * width <= g * width);
    }
    if g < h {
        assert((g + 1) * width <= h * width);
    }
    assert(0 <= h * width);
}

/// The queries among queries and gates, head by head.
pub open spec fn queries_of<T>(both: Seq<T>, n_heads: nat, head_dim: nat) -> Seq<T> {
    Seq::new(
        n_heads * head_dim,
        |q: int| at(both, 2 * head_dim as int, q / head_dim as int, q % head_dim as int),
    )
}

/// The gates among queries and gates, head by head.
pub open spec fn gates_of<T>(both: Seq<T>, n_heads: nat, head_dim: nat) -> Seq<T> {
    Seq::new(
        n_heads * head_dim,
        |q: int| at(both, 2 * head_dim as int, q / head_dim as int, head_dim + q % head_dim as int),
    )
}

/// Queries and gates make up the whole: number `j` of the query of head `h` comes `j` places behind
/// the start of the head, and number `j` of its gate as many places behind its query.
pub proof fn law_queries_and_gates_make_up_the_whole<T>(both: Seq<T>, n_heads: nat, head_dim: nat, h: int, j: int)
    requires
        both.len() == 2 * (n_heads * head_dim),
        0 <= h < n_heads,
        0 <= j < head_dim,
    ensures
        queries_of(both, n_heads, head_dim).len() + gates_of(both, n_heads, head_dim).len() == both.len(),
        0 <= h * head_dim + j < n_heads * head_dim,
        both[2 * (h * head_dim) + j] == queries_of(both, n_heads, head_dim)[h * head_dim + j],
        both[2 * (h * head_dim) + head_dim + j] == gates_of(both, n_heads, head_dim)[h * head_dim + j],
{
    let width = head_dim as int;
    lemma_row_within(n_heads as int, width, h);
    vstd::arithmetic::div_mod::lemma_fundamental_div_mod_converse(h * width + j, width, h, j);
    assert(h * (2 * width) == 2 * (h * width)) by (nonlinear_arith);
}

proof fn lemma_rows_are_all<T>(numbers: Seq<T>, width: int, rows: int, q: int)
    requires
        0 <= q < rows * width,
        0 <= rows,
        0 <= width,
    ensures
        0 <= q / width < rows,
        0 <= q % width < width,
        at(numbers, width, q / width, q % width) == numbers[q],
{
    assert(width > 0) by (nonlinear_arith)
        requires
            0 <= q < rows * width,
            0 <= width,
    ;
    vstd::arithmetic::div_mod::lemma_fundamental_div_mod(q, width);
    assert(q / width * width == width * (q / width)) by (nonlinear_arith);
    assert(0 <= q / width < rows) by (nonlinear_arith)
        requires
            q == width * (q / width) + q % width,
            0 <= q % width < width,
            0 <= q < rows * width,
    ;
}

/// Takes queries and gates apart. They come head by head, the query of a head before its gate.
pub fn split_query_gate<T: Copy>(both: &Vec<T>, n_heads: usize, head_dim: usize) -> (parts: (Vec<T>, Vec<T>))
    requires
        both@.len() == 2 * (n_heads as nat * head_dim as nat),
    ensures
        parts.0@.len() == n_heads as nat * head_dim as nat,
        parts.1@.len() == n_heads as nat * head_dim as nat,
        forall|h: int, j: int|
            0 <= h < n_heads && 0 <= j < head_dim ==> #[trigger] at(parts.0@, head_dim as int, h, j) == at(
                both@,
                2 * head_dim,
                h,
                j,
            ),
        forall|h: int, j: int|
            0 <= h < n_heads && 0 <= j < head_dim ==> #[trigger] at(parts.1@, head_dim as int, h, j) == at(
                both@,
                2 * head_dim,
                h,
                head_dim + j,
            ),
        parts.0@ == queries_of(both@, n_heads as nat, head_dim as nat),
        parts.1@ == gates_of(both@, n_heads as nat, head_dim as nat),
{
    assert(both.len() == both@.len());
    let mut query: Vec<T> = Vec::new();
    let mut gate: Vec<T> = Vec::new();
    let ghost width = head_dim as int;
    assert(0 * width == 0);
    for h in 0..n_heads
        invariant
            width == head_dim,
            both@.len() <= usize::MAX,
            both@.len() == 2 * (n_heads as nat * head_dim as nat),
            query@.len() == h * width,
            gate@.len() == h * width,
            forall|g: int, k: int|
                0 <= g < h && 0 <= k < width ==> #[trigger] at(query@, width, g, k) == at(both@, 2 * width, g, k),
            forall|g: int, k: int|
                0 <= g < h && 0 <= k < width ==> #[trigger] at(gate@, width, g, k) == at(both@, 2 * width, g, width + k),
    {
        for j in 0..head_dim
            invariant
                width == head_dim,
                h < n_heads,
                both@.len() <= usize::MAX,
                both@.len() == 2 * (n_heads as nat * head_dim as nat),
                query@.len() == h * width + j,
                gate@.len() == h * width + j,
                forall|g: int, k: int|
                    0 <= g <= h && 0 <= k < width && (g < h || k < j) ==> #[trigger] at(query@, width, g, k) == at(
                        both@,
                        2 * width,
                        g,
                        k,
                    ),
                forall|g: int, k: int|
                    0 <= g <= h && 0 <= k < width && (g < h || k < j) ==> #[trigger] at(gate@, width, g, k) == at(
                        both@,
                        2 * width,
                        g,
                        width + k,
                    ),
        {
            let ghost old_query = query@;
            let ghost old_gate = gate@;
            proof {
                lemma_pair_place(n_heads as int, width, h as int, j as int);
            }
            let start: usize = h * (2 * head_dim);
            query.push(both[start + j]);
            gate.push(both[start + head_dim + j]);
            proof {
                assert forall|g: int, k: int| 0 <= g <= h && 0 <= k < width && (g < h || k < j + 1) implies #[trigger] at(
                    query@,
                    width,
                    g,
                    k,
                ) == at(both@, 2 * width, g, k) by {
                    lemma_at_order(width, g, k, h as int, j as int);
                    if g < h || k < j {
                        assert(at(old_query, width, g, k) == at(both@, 2 * width, g, k));
                    }
                }
                assert forall|g: int, k: int| 0 <= g <= h && 0 <= k < width && (g < h || k < j + 1) implies #[trigger] at(
                    gate@,
                    width,
                    g,
                    k,
                ) == at(both@, 2 * width, g, width + k) by {
                    lemma_at_order(width, g, k, h as int, j as int);
                    if g < h || k < j {
                        assert(at(old_gate, width, g, k) == at(both@, 2 * width, g, width + k));
                    }
                }
            }
        }
        assert((h + 1) * width == h * width + width) by (nonlinear_arith);
    }
    proof {
        let n = n_heads as nat;
        let wide = head_dim as nat;
        assert forall|q: int| 0 <= q < n * wide implies #[trigger] query@[q] == queries_of(both@, n, wide)[q] by {
            lemma_rows_are_all(query@, width, n as int, q);
            assert(at(query@, width, q / width, q % width) == at(both@, 2 * width, q / width, q % width));
        }
        assert forall|q: int| 0 <= q < n * wide implies #[trigger] gate@[q] == gates_of(both@, n, wide)[q] by {
            lemma_rows_are_all(gate@, width, n as int, q);
            assert(at(gate@, width, q / width, q % width) == at(both@, 2 * width, q / width, width + q % width));
        }
        assert(query@ =~= queries_of(both@, n, wide));
        assert(gate@ =~= gates_of(both@, n, wide));
    }
    (query, gate)
}

proof fn lemma_pair_place(n: int, width: int, h: int, j: int)
    by (nonlinear_arith)
    requires
        0 <= h < n,
        0 <= j < width,
    ensures
        0 <= h * (2 * width),
        h * (2 * width) + width + j < 2 * (n * width),
        2 * width <= 2 * (n * width),
{
    assert((h + 1) * (2 * width) <= n * (2 * width));
    assert(n * (2 * width) == 2 * (n * width));
    assert(width <= n * width);
}

/// Where a head of full attention finds its numbers.
#[derive(Debug, Clone, Copy, PartialEq, Eq, Structural)]
pub struct AttentionHead {
    /// Where its query starts, and its output.
    pub query: usize,
    /// Where its scores start.
    pub scores: usize,
    /// Where its keys, and its values, of the first position start in the caches.
    pub first_key: usize,
}

/// Where head `h` of the full attention layer `slot` finds its numbers. Neighbouring heads share
/// keys and values.
pub open spec fn attention_head_at(shape: Shape, slot: int, h: int) -> AttentionHead {
    let shared = shape.n_heads as int / shape.n_kv_heads as int;
    AttentionHead {
        query: (h * shape.head_dim) as usize,
        scores: (h * shape.seq_len) as usize,
        first_key: (slot * shape.seq_len * shape.kv_dim + h / shared * shape.head_dim) as usize,
    }
}

/// Everything that head `h` reads and writes up to position `pos` lies within the buffers and
/// caches of the model, and within the keys and values of the layer.
pub proof fn law_attention_in_bounds(shape: Shape, slot: int, h: int, pos: int)
    requires
        shape::consistent(shape),
        cache::kv_len(shape) <= usize::MAX,
        shape.n_heads as nat * shape.seq_len as nat <= usize::MAX,
        0 <= slot < shape.n_full,
        0 <= h < shape.n_heads,
        0 <= pos < shape.seq_len,
    ensures
        ({
            let head = attention_head_at(shape, slot, h);
            let shared = shape.n_heads as int / shape.n_kv_heads as int;
            &&& shared > 0
            &&& 0 <= h / shared < shape.n_kv_heads
            &&& head.query == h * shape.head_dim
            &&& head.query + shape.head_dim <= shape.all_heads_dim
            &&& head.scores == h * shape.seq_len
            &&& head.scores + pos + 1 <= shape.n_heads as nat * shape.seq_len as nat
            &&& head.first_key == slot * shape.seq_len * shape.kv_dim + h / shared * shape.head_dim
            &&& head.first_key + pos * shape.kv_dim + shape.head_dim <= cache::kv_place(
                shape.seq_len as nat,
                shape.kv_dim as nat,
                slot as nat,
                pos as nat,
            ) + shape.kv_dim
            &&& head.first_key + pos * shape.kv_dim + shape.head_dim <= cache::kv_len(shape)
        }),
{
    let n_kv = shape.n_kv_heads as int;
    let hd = shape.head_dim as int;
    let shared = shape.n_heads as int / n_kv;
    vstd::arithmetic::div_mod::lemma_fundamental_div_mod(shape.n_heads as int, n_kv);
    assert(n_kv * shared == shape.n_heads);
    assert(shared > 0) by (nonlinear_arith)
        requires
            n_kv * shared == shape.n_heads,
            shape.n_heads > 0,
            n_kv > 0,
    ;
    let kv_h = h / shared;
    assert(0 <= kv_h < n_kv) by (nonlinear_arith)
        requires
            kv_h == h / shared,
            0 <= h < n_kv * shared,
            shared > 0,
            n_kv > 0,
    ;
    cache::law_kv_places_apart(
        shape.n_full as nat,
        shape.seq_len as nat,
        shape.kv_dim as nat,
        slot as nat,
        pos as nat,
        slot as nat,
        pos as nat,
    );
    lemma_row_within(n_kv, hd, kv_h);
    lemma_row_within(shape.n_heads as int, hd, h);
    lemma_row_within(shape.n_heads as int, shape.seq_len as int, h);
    assert(0 <= slot * shape.seq_len * shape.kv_dim) by (nonlinear_arith)
        requires
            0 <= slot,
            0 <= shape.seq_len,
            0 <= shape.kv_dim,
    ;
    assert(0 <= pos * shape.kv_dim) by (nonlinear_arith)
        requires
            0 <= pos,
            0 <= shape.kv_dim,
    ;
}

/// What is stored for a position is what the heads read for it: each of them its own part, and the
/// parts that belong to other positions are as they were.
pub proof fn law_heads_read_what_is_stored<T>(
    shape: Shape,
    numbers: Seq<T>,
    slot: int,
    pos: int,
    row: Seq<T>,
    other_slot: int,
    other: int,
    h: int,
)
    requires
        shape::consistent(shape),
        cache::kv_len(shape) <= usize::MAX,
        shape.n_heads as nat * shape.seq_len as nat <= usize::MAX,
        numbers.len() == cache::kv_len(shape),
        row.len() == shape.kv_dim,
        0 <= slot < shape.n_full,
        0 <= other_slot < shape.n_full,
        0 <= pos < shape.seq_len,
        0 <= other < shape.seq_len,
        0 <= h < shape.n_heads,
    ensures
        ({
            let place = cache::kv_place(shape.seq_len as nat, shape.kv_dim as nat, slot as nat, pos as nat);
            let after = cache::overwritten(numbers, place as int, row);
            let shared = shape.n_heads as int / shape.n_kv_heads as int;
            let part = h / shared * shape.head_dim;
            let start = key_place(shape, attention_head_at(shape, other_slot, h), other);
            after.subrange(start, start + shape.head_dim) == if (slot, pos) == (other_slot, other) {
                row.subrange(part, part + shape.head_dim)
            } else {
                numbers.subrange(start, start + shape.head_dim)
            }
        }),
{
    let seq_len = shape.seq_len as nat;
    let kv_dim = shape.kv_dim as nat;
    let shared = shape.n_heads as int / shape.n_kv_heads as int;
    let part = h / shared * shape.head_dim;
    law_attention_in_bounds(shape, other_slot, h, other);
    cache::law_kv_reads_back(
        numbers,
        shape.n_full as nat,
        seq_len,
        slot as nat,
        pos as nat,
        row,
        other_slot as nat,
        other as nat,
    );
    lemma_row_within(shape.n_kv_heads as int, shape.head_dim as int, h / shared);
    let place = cache::kv_place(seq_len, kv_dim, slot as nat, pos as nat);
    let after = cache::overwritten(numbers, place as int, row);
    let their = cache::kv_place(seq_len, kv_dim, other_slot as nat, other as nat) as int;
    let start = attention_head_at(shape, other_slot, h).first_key + other * shape.kv_dim;
    assert(start == their + part);
    cache::law_kv_places_apart(
        shape.n_full as nat,
        seq_len,
        kv_dim,
        other_slot as nat,
        other as nat,
        other_slot as nat,
        other as nat,
    );
    let whole = after.subrange(their, their + row.len());
    assert(after.subrange(start, start + shape.head_dim) =~= whole.subrange(part, part + shape.head_dim));
    if (slot, pos) != (other_slot, other) {
        let before = numbers.subrange(their, their + row.len());
        assert(numbers.subrange(start, start + shape.head_dim) =~= before.subrange(part, part + shape.head_dim));
    }
}

proof fn lemma_row_within(rows: int, width: int, i: int)
    by (nonlinear_arith)
    requires
        0 <= i < rows,
        0 <= width,
    ensures
        0 <= i * width,
        i * width + width <= rows * width,
{
    assert((i + 1) * width <= rows * width);
}

/// Where head `h` of the full attention layer `slot` finds its numbers.
pub fn attention_head(shape: &Shape, slot: usize, h: usize) -> (head: AttentionHead)
    requires
        shape::consistent(*shape),
        cache::kv_len(*shape) <= usize::MAX,
        shape.n_heads as nat * shape.seq_len as nat <= usize::MAX,
        slot < shape.n_full,
        h < shape.n_heads,
    ensures
        head == attention_head_at(*shape, slot as int, h as int),
{
    proof {
        law_attention_in_bounds(*shape, slot as int, h as int, 0);
        assert(shape.kv_dim > 0) by (nonlinear_arith)
            requires
                shape.kv_dim == shape.n_kv_heads as nat * shape.head_dim as nat,
                shape.n_kv_heads > 0,
                shape.head_dim > 0,
        ;
        lemma_slot_start(shape.n_full as int, shape.seq_len as int, shape.kv_dim as int, slot as int);
    }
    let shared: usize = shape.n_heads / shape.n_kv_heads;
    let kv_h: usize = h / shared;
    proof {
        lemma_row_within(shape.n_kv_heads as int, shape.head_dim as int, kv_h as int);
    }
    AttentionHead {
        query: h * shape.head_dim,
        scores: h * shape.seq_len,
        first_key: slot * shape.seq_len * shape.kv_dim + kv_h * shape.head_dim,
    }
}

proof fn lemma_slot_start(n_full: int, seq_len: int, kv_dim: int, slot: int)
    by (nonlinear_arith)
    requires
        0 <= slot < n_full,
        0 <= seq_len,
        0 < kv_dim,
    ensures
        0 <= slot * seq_len * kv_dim <= n_full * seq_len * kv_dim,
        0 <= slot * seq_len <= n_full * seq_len * kv_dim,
{
    assert(slot * seq_len <= n_full * seq_len);
    assert(0 <= slot * seq_len);
    assert(n_full * seq_len * kv_dim >= n_full * seq_len);
}

/// Where the key, and the value, of position `t` start for a head.
pub open spec fn key_place(shape: Shape, head: AttentionHead, t: int) -> int {
    head.first_key + t * shape.kv_dim
}

/// Where the key, and the value, of position `t` start for head `h` of the full attention layer
/// `slot`.
pub fn key_start(shape: &Shape, slot: usize, h: usize, t: usize) -> (start: usize)
    requires
        shape::consistent(*shape),
        cache::kv_len(*shape) <= usize::MAX,
        shape.n_heads as nat * shape.seq_len as nat <= usize::MAX,
        slot < shape.n_full,
        h < shape.n_heads,
        t < shape.seq_len,
    ensures
        start == key_place(*shape, attention_head_at(*shape, slot as int, h as int), t as int),
        start + shape.head_dim <= cache::kv_len(*shape),
{
    proof {
        law_attention_in_bounds(*shape, slot as int, h as int, t as int);
        assert(0 <= t * shape.kv_dim) by (nonlinear_arith);
    }
    attention_head(shape, slot, h).first_key + t * shape.kv_dim
}

/// Where a head of linear attention finds its numbers.
#[derive(Debug, Clone, Copy, PartialEq, Eq, Structural)]
pub struct DeltaHead {
    /// Where its query starts in the output of the convolution.
    pub query: usize,
    /// Where its key starts there.
    pub key: usize,
    /// Where its value starts there.
    pub value: usize,
    /// Where its state starts.
    pub state: usize,
    /// Where its output starts, and its gate.
    pub out: usize,
}

/// Where head `h` of a linear attention layer finds its numbers. The convolution gives the queries
/// of all heads, then the keys, then the values.
pub open spec fn delta_head_at(shape: Shape, h: int) -> DeltaHead {
    let n = shape.n_linear_k_heads as int;
    let kd = shape.linear_k_head_dim as int;
    let vd = shape.linear_v_head_dim as int;
    DeltaHead {
        query: (h * kd) as usize,
        key: (n * kd + h * kd) as usize,
        value: (n * kd + n * kd + h * vd) as usize,
        state: (h * (kd * vd)) as usize,
        out: (h * vd) as usize,
    }
}

/// Everything that head `h` reads and writes lies within the buffers and the state of the layer,
/// and queries, keys and values lie apart.
pub proof fn law_delta_in_bounds(shape: Shape, h: int)
    requires
        shape::consistent(shape),
        cache::state_len(shape) <= usize::MAX,
        0 <= h < shape.n_linear_k_heads,
    ensures
        ({
            let head = delta_head_at(shape, h);
            let n = shape.n_linear_k_heads as int;
            let kd = shape.linear_k_head_dim as int;
            let vd = shape.linear_v_head_dim as int;
            &&& head.query == h * kd
            &&& head.query + kd <= n * kd
            &&& head.key == n * kd + h * kd
            &&& n * kd <= head.key
            &&& head.key + kd <= n * kd + n * kd
            &&& head.value == n * kd + n * kd + h * vd
            &&& n * kd + n * kd <= head.value
            &&& head.value + vd <= shape.linear_qkv_dim
            &&& head.state == h * (kd * vd)
            &&& head.state + kd * vd <= cache::state_len(shape)
            &&& head.out == h * vd
            &&& head.out + vd <= n * vd
        }),
{
    let n = shape.n_linear_k_heads as int;
    let kd = shape.linear_k_head_dim as int;
    let vd = shape.linear_v_head_dim as int;
    lemma_row_within(n, kd, h);
    lemma_row_within(n, vd, h);
    assert(0 <= kd * vd) by (nonlinear_arith)
        requires
            0 <= kd,
            0 <= vd,
    ;
    lemma_row_within(n, kd * vd, h);
    assert(n * (kd * vd) == n * kd * vd) by (nonlinear_arith);
}

proof fn lemma_state_size(n: int, kd: int, vd: int)
    by (nonlinear_arith)
    requires
        0 < n,
        0 <= kd,
        0 <= vd,
    ensures
        0 <= kd * vd <= n * kd * vd,
{
    assert(0 <= kd * vd);
    assert(n * kd * vd == n * (kd * vd));
}

/// Where head `h` of a linear attention layer finds its numbers.
pub fn delta_head(shape: &Shape, h: usize) -> (head: DeltaHead)
    requires
        shape::consistent(*shape),
        cache::state_len(*shape) <= usize::MAX,
        h < shape.n_linear_k_heads,
    ensures
        head == delta_head_at(*shape, h as int),
{
    proof {
        law_delta_in_bounds(*shape, h as int);
        lemma_row_within(shape.n_linear_k_heads as int, shape.linear_k_head_dim as int, 0);
        lemma_state_size(
            shape.n_linear_k_heads as int,
            shape.linear_k_head_dim as int,
            shape.linear_v_head_dim as int,
        );
    }
    let n: usize = shape.n_linear_k_heads;
    let kd: usize = shape.linear_k_head_dim;
    let vd: usize = shape.linear_v_head_dim;
    DeltaHead {
        query: h * kd,
        key: n * kd + h * kd,
        value: n * kd + n * kd + h * vd,
        state: h * (kd * vd),
        out: h * vd,
    }
}

/// Where number `(i, j)` of the state of head `h` lies: `i` counts along the key, `j` along the value.
pub open spec fn state_cell_at(shape: Shape, h: int, i: int, j: int) -> int {
    delta_head_at(shape, h).state + i * shape.linear_v_head_dim + j
}

proof fn lemma_state_cell(kd: int, vd: int, i: int, j: int)
    by (nonlinear_arith)
    requires
        0 <= i < kd,
        0 <= j < vd,
    ensures
        0 <= i * vd,
        i * vd + j < kd * vd,
{
    assert((i + 1) * vd <= kd * vd);
}

/// The numbers of the states of all heads lie within the state of the layer, each at its own place.
pub proof fn law_state_cells_apart(shape: Shape, h: int, i: int, j: int, g: int, k: int, l: int)
    requires
        shape::consistent(shape),
        cache::state_len(shape) <= usize::MAX,
        0 <= h < shape.n_linear_k_heads,
        0 <= g < shape.n_linear_k_heads,
        0 <= i < shape.linear_k_head_dim,
        0 <= k < shape.linear_k_head_dim,
        0 <= j < shape.linear_v_head_dim,
        0 <= l < shape.linear_v_head_dim,
    ensures
        0 <= state_cell_at(shape, h, i, j) < cache::state_len(shape),
        (h, i, j) != (g, k, l) ==> state_cell_at(shape, h, i, j) != state_cell_at(shape, g, k, l),
{
    let kd = shape.linear_k_head_dim as int;
    let vd = shape.linear_v_head_dim as int;
    law_delta_in_bounds(shape, h);
    law_delta_in_bounds(shape, g);
    lemma_state_cell(kd, vd, i, j);
    lemma_state_cell(kd, vd, k, l);
    lemma_at_order(kd * vd, h, i * vd + j, g, k * vd + l);
    lemma_at_order(vd, i, j, k, l);
}

/// Where number `(i, j)` of the state of head `h` lies.
pub fn state_cell(shape: &Shape, h: usize, i: usize, j: usize) -> (cell: usize)
    requires
        shape::consistent(*shape),
        cache::state_len(*shape) <= usize::MAX,
        h < shape.n_linear_k_heads,
        i < shape.linear_k_head_dim,
        j < shape.linear_v_head_dim,
    ensures
        cell == state_cell_at(*shape, h as int, i as int, j as int),
{
    proof {
        law_state_cells_apart(*shape, h as int, i as int, j as int, h as int, i as int, j as int);
        lemma_state_cell(shape.linear_k_head_dim as int, shape.linear_v_head_dim as int, i as int, j as int);
    }
    delta_head(shape, h).state + i * shape.linear_v_head_dim + j
}

/// Where the weight of tap `t` of channel `ch` of a convolution lies.
pub open spec fn conv_cell_at(shape: Shape, ch: int, t: int) -> int {
    ch * shape.conv_kernel_size + t
}

/// The weights of a convolution lie channel by channel, those of a channel in the order of the taps,
/// each at its own place and all within the convolution.
pub proof fn law_conv_cells_apart(shape: Shape, ch: int, t: int, other: int, u: int)
    requires
        0 <= ch < shape.linear_qkv_dim,
        0 <= other < shape.linear_qkv_dim,
        0 <= t < shape.conv_kernel_size,
        0 <= u < shape.conv_kernel_size,
    ensures
        0 <= conv_cell_at(shape, ch, t) < shape.linear_qkv_dim * shape.conv_kernel_size,
        ch < other || (ch == other && t < u) ==> conv_cell_at(shape, ch, t) < conv_cell_at(shape, other, u),
        conv_cell_at(shape, ch, t) - conv_cell_at(shape, ch, 0) == t,
        conv_cell_at(shape, 0, 0) == 0,
{
    lemma_row_within(shape.linear_qkv_dim as int, shape.conv_kernel_size as int, ch);
    lemma_at_order(shape.conv_kernel_size as int, ch, t, other, u);
}

/// Where the weight of tap `t` of channel `ch` of a convolution lies.
pub fn conv_cell(shape: &Shape, ch: usize, t: usize) -> (cell: usize)
    requires
        cache::ring_len(*shape) <= usize::MAX,
        ch < shape.linear_qkv_dim,
        t < shape.conv_kernel_size,
    ensures
        cell == ch * shape.conv_kernel_size + t,
        cell == conv_cell_at(*shape, ch as int, t as int),
        cell < cache::ring_len(*shape),
{
    proof {
        lemma_row_within(shape.linear_qkv_dim as int, shape.conv_kernel_size as int, ch as int);
    }
    ch * shape.conv_kernel_size + t
}

/// Which element of the embedding, and which scale, gives number `col` of a row.
pub open spec fn embedding_cell_at(shape: Shape, row: int, col: int) -> (usize, usize) {
    let element = row * shape.dim + col;
    (element as usize, (element / shape.group_size as int) as usize)
}

/// Which element of the embedding, and which scale, gives number `col` of a row.
pub fn embedding_cell(shape: &Shape, row: usize, col: usize) -> (cell: (usize, usize))
    requires
        shape.group_size > 0,
        shape.vocab_size as nat * shape.dim as nat <= usize::MAX,
        row < shape.vocab_size,
        col < shape.dim,
    ensures
        cell == embedding_cell_at(*shape, row as int, col as int),
        cell.0 < shape.vocab_size as nat * shape.dim as nat,
{
    proof {
        lemma_row_within(shape.vocab_size as int, shape.dim as int, row as int);
    }
    let element: usize = row * shape.dim + col;
    (element, element / shape.group_size)
}

/// A row of the embedding has scales of its own: those of its groups, in order.
pub proof fn law_rows_have_own_scales(shape: Shape, row: int, col: int)
    requires
        shape::consistent(shape),
        shape.vocab_size as nat * shape.dim as nat <= usize::MAX,
        0 <= row < shape.vocab_size,
        0 <= col < shape.dim,
    ensures
        ({
            let groups = shape.dim as int / shape.group_size as int;
            &&& embedding_cell_at(shape, row, col).1 == row * groups + col / shape.group_size as int
            &&& col / (shape.group_size as int) < groups
            &&& embedding_cell_at(shape, row, col).1 < shape.vocab_size as nat * shape.dim as nat
                / shape.group_size as nat
        }),
{
    let gs = shape.group_size as int;
    let dim = shape.dim as int;
    let vocab = shape.vocab_size as int;
    let groups = dim / gs;
    vstd::arithmetic::div_mod::lemma_fundamental_div_mod(dim, gs);
    vstd::arithmetic::div_mod::lemma_fundamental_div_mod(col, gs);
    let q = col / gs;
    let r = col % gs;
    lemma_row_within(vocab, dim, row);
    assert(row * dim + col == (row * groups + q) * gs + r) by (nonlinear_arith)
        requires
            dim == gs * groups,
            col == gs * q + r,
    ;
    vstd::arithmetic::div_mod::lemma_fundamental_div_mod_converse(row * dim + col, gs, row * groups + q, r);
    assert(q < groups) by (nonlinear_arith)
        requires
            dim == gs * groups,
            col == gs * q + r,
            col < dim,
            0 <= r,
            0 < gs,
    ;
    assert(vocab * dim == vocab * groups * gs + 0) by (nonlinear_arith)
        requires
            dim == gs * groups,
    ;
    vstd::arithmetic::div_mod::lemma_fundamental_div_mod_converse(vocab * dim, gs, vocab * groups, 0);
    assert(groups >= 0) by (nonlinear_arith)
        requires
            groups == dim / gs,
            dim >= 0,
            gs > 0,
    ;
    lemma_row_within(vocab, groups, row);
    assert(row * groups + q <= row * dim + col) by (nonlinear_arith)
        requires
            row * dim + col == (row * groups + q) * gs + r,
            gs >= 1,
            0 <= r,
            0 <= row * groups + q,
    ;
}

/// How many pairs of the numbers of a head are rotated: half of those that are to be rotated and are
/// there. Number `i` is paired with the number as many places behind it.
pub open spec fn rotary_pairs(rotary_dim: nat, len: nat) -> nat {
    if rotary_dim <= len {
        rotary_dim / 2
    } else {
        len / 2
    }
}

/// How many pairs of the numbers of a head are rotated.
pub fn count_rotary_pairs(rotary_dim: usize, len: usize) -> (half: usize)
    ensures
        half == rotary_pairs(rotary_dim as nat, len as nat),
{
    if rotary_dim <= len {
        rotary_dim / 2
    } else {
        len / 2
    }
}

/// The pairs are of numbers that are there, no number is in two of them, and none from `rotary_dim`
/// on is in any.
pub proof fn law_rotary_pairs_apart(rotary_dim: nat, len: nat, i: nat, j: nat)
    requires
        i < rotary_pairs(rotary_dim, len),
        j < rotary_pairs(rotary_dim, len),
    ensures
        i + rotary_pairs(rotary_dim, len) < len,
        i + rotary_pairs(rotary_dim, len) < rotary_dim,
        i != j + rotary_pairs(rotary_dim, len),
{
}

/// The elements of the embedding lie row by row, and those of a row in the order of its numbers, each
/// at its own place.
pub proof fn law_embedding_lies_row_by_row(shape: Shape, row: int, col: int, other: int, other_col: int)
    requires
        shape.vocab_size as nat * shape.dim as nat <= usize::MAX,
        0 <= row < shape.vocab_size,
        0 <= other < shape.vocab_size,
        0 <= col < shape.dim,
        0 <= other_col < shape.dim,
    ensures
        embedding_cell_at(shape, row, col).0 == row * shape.dim + col,
        embedding_cell_at(shape, row, col).0 < shape.vocab_size * shape.dim,
        (row, col) != (other, other_col) ==> embedding_cell_at(shape, row, col).0 != embedding_cell_at(
            shape,
            other,
            other_col,
        ).0,
{
    lemma_row_within(shape.vocab_size as int, shape.dim as int, row);
    lemma_row_within(shape.vocab_size as int, shape.dim as int, other);
    lemma_at_order(shape.dim as int, row, col, other, other_col);
}

/// As many numbers are in pairs as are to be rotated and are there, but for one where that is odd.
pub proof fn law_rotary_pairs_take_all_numbers(rotary_dim: nat, len: nat)
    ensures
        2 * rotary_pairs(rotary_dim, len) <= rotary_dim,
        2 * rotary_pairs(rotary_dim, len) <= len,
        rotary_dim < 2 * rotary_pairs(rotary_dim, len) + 2 || len < 2 * rotary_pairs(rotary_dim, len) + 2,
{
}

/// Heads lie one behind the other: each query, each row of scores, and each part of the output of
/// linear attention begins where that of the head before ends. Heads share keys and values in runs of
/// equal length, as many as there are heads with keys.
pub proof fn law_heads_lie_one_behind_the_other(shape: Shape, slot: int, h: int, g: int)
    requires
        shape::consistent(shape),
        cache::kv_len(shape) <= usize::MAX,
        cache::state_len(shape) <= usize::MAX,
        shape.n_heads as nat * shape.seq_len as nat <= usize::MAX,
        0 <= slot < shape.n_full,
        0 <= h,
        0 <= g,
    ensures
        h + 1 < shape.n_heads ==> {
            let head = attention_head_at(shape, slot, h);
            let next = attention_head_at(shape, slot, h + 1);
            &&& next.query == head.query + shape.head_dim
            &&& next.scores == head.scores + shape.seq_len
            &&& next.first_key == head.first_key || next.first_key == head.first_key + shape.head_dim
        },
        h < shape.n_heads && g < shape.n_heads ==> {
            let shared = shape.n_heads as int / shape.n_kv_heads as int;
            &&& shared * shape.n_kv_heads == shape.n_heads
            &&& attention_head_at(shape, slot, h).first_key == attention_head_at(shape, slot, g).first_key <==> h
                / shared == g / shared
        },
        h + 1 < shape.n_linear_k_heads ==> {
            let head = delta_head_at(shape, h);
            let next = delta_head_at(shape, h + 1);
            &&& next.query == head.query + shape.linear_k_head_dim
            &&& next.key == head.key + shape.linear_k_head_dim
            &&& next.value == head.value + shape.linear_v_head_dim
            &&& next.state == head.state + shape.linear_k_head_dim * shape.linear_v_head_dim
            &&& next.out == head.out + shape.linear_v_head_dim
        },
{
    let n_kv = shape.n_kv_heads as int;
    let hd = shape.head_dim as int;
    let shared = shape.n_heads as int / n_kv;
    vstd::arithmetic::div_mod::lemma_fundamental_div_mod(shape.n_heads as int, n_kv);
    assert(shared * n_kv == n_kv * shared) by (nonlinear_arith);
    if h + 1 < shape.n_heads {
        law_attention_in_bounds(shape, slot, h, 0);
        law_attention_in_bounds(shape, slot, h + 1, 0);
        lemma_next_row(h, hd);
        lemma_next_row(h, shape.seq_len as int);
        lemma_next_row(h / shared, hd);
        lemma_next_quotient(h, shared);
    }
    if h < shape.n_heads && g < shape.n_heads {
        law_attention_in_bounds(shape, slot, h, 0);
        law_attention_in_bounds(shape, slot, g, 0);
        lemma_at_order(hd, h / shared, 0, g / shared, 0);
    }
    if h + 1 < shape.n_linear_k_heads {
        law_delta_in_bounds(shape, h);
        law_delta_in_bounds(shape, h + 1);
        lemma_next_row(h, shape.linear_k_head_dim as int);
        lemma_next_row(h, shape.linear_v_head_dim as int);
        lemma_next_row(h, shape.linear_k_head_dim * shape.linear_v_head_dim);
    }
}

proof fn lemma_next_row(h: int, width: int)
    by (nonlinear_arith)
    ensures
        (h + 1) * width == h * width + width,
{
}

proof fn lemma_next_quotient(h: int, shared: int)
    requires
        0 <= h,
        0 < shared,
    ensures
        (h + 1) / shared == h / shared || (h + 1) / shared == h / shared + 1,
{
    vstd::arithmetic::div_mod::lemma_fundamental_div_mod(h, shared);
    let q = h / shared;
    let r = h % shared;
    assert(shared * q == q * shared) by (nonlinear_arith);
    if r + 1 < shared {
        vstd::arithmetic::div_mod::lemma_fundamental_div_mod_converse(h + 1, shared, q, r + 1);
    } else {
        assert((q + 1) * shared == q * shared + shared) by (nonlinear_arith);
        vstd::arithmetic::div_mod::lemma_fundamental_div_mod_converse(h + 1, shared, q + 1, 0);
    }
}

} // verus!
