//! The weights of a checkpoint as a stream of labelled pieces.

use super::mapper::{MemoryMapper, Span};
use super::size;
use vstd::prelude::*;
use vstd::string::*;

verus! {

/// One stretch of the stream: what it is called in messages, and its length in bytes.
pub struct Piece {
    pub label: Seq<char>,
    pub bytes: nat,
}

/// The length of a stream in bytes.
pub open spec fn total_bytes(pieces: Seq<Piece>) -> nat
    decreases pieces.len(),
{
    if pieces.len() == 0 {
        0
    } else {
        total_bytes(pieces.drop_last()) + pieces.last().bytes
    }
}

/// The label of the first piece that reaches past the end, where `available` bytes are there.
pub open spec fn first_unfit(pieces: Seq<Piece>, available: nat) -> Option<Seq<char>>
    decreases pieces.len(),
{
    if pieces.len() == 0 {
        None
    } else if pieces[0].bytes > available {
        Some(pieces[0].label)
    } else {
        first_unfit(pieces.skip(1), (available - pieces[0].bytes) as nat)
    }
}

/// Where piece `k` lies, for a stream that starts at `base`.
pub open spec fn span_at(pieces: Seq<Piece>, base: nat, k: int) -> Span {
    Span { offset: (base + total_bytes(pieces.take(k))) as usize, len: pieces[k].bytes as usize }
}

/// A group-quantized tensor: one byte per element, and one scale of four bytes per group.
#[derive(Debug, Clone, Copy, PartialEq, Eq, Structural)]
pub struct QuantizedTensor {
    pub q: Span,
    pub s: Span,
}

/// The pieces of a tensor.
pub open spec fn tensor_pieces(elements: nat, group_size: nat) -> Seq<Piece> {
    seq![
        Piece { label: "quantized tensor data"@, bytes: elements },
        Piece { label: "quantized tensor scales"@, bytes: elements / group_size * 4 },
    ]
}

/// The pieces of several tensors, one after the other.
pub open spec fn tensors_pieces(sizes: Seq<nat>, group_size: nat) -> Seq<Piece>
    decreases sizes.len(),
{
    if sizes.len() == 0 {
        seq![]
    } else {
        tensors_pieces(sizes.drop_last(), group_size) + tensor_pieces(sizes.last(), group_size)
    }
}

/// The tensor whose data is piece `k`.
pub open spec fn tensor_at(pieces: Seq<Piece>, base: nat, k: int) -> QuantizedTensor {
    QuantizedTensor { q: span_at(pieces, base, k), s: span_at(pieces, base, k + 1) }
}

/// Reading a stream and then another is reading them as one.
pub proof fn lemma_first_unfit_concat(a: Seq<Piece>, b: Seq<Piece>, available: nat)
    ensures
        total_bytes(a + b) == total_bytes(a) + total_bytes(b),
        first_unfit(a, available) is None ==> total_bytes(a) <= available,
        first_unfit(a + b, available) == match first_unfit(a, available) {
            Some(label) => Some(label),
            None => first_unfit(b, (available - total_bytes(a)) as nat),
        },
    decreases a.len(),
{
    lemma_total_concat(a, b);
    if a.len() == 0 {
        assert(a + b =~= b);
    } else {
        let first = a.take(1);
        let rest = a.skip(1);
        assert(first + rest =~= a);
        lemma_total_concat(first, rest);
        assert(first.drop_last() =~= Seq::<Piece>::empty());
        assert(total_bytes(first) == a[0].bytes) by {
            reveal_with_fuel(total_bytes, 2);
        }
        assert((a + b).skip(1) =~= rest + b);
        if a[0].bytes <= available {
            lemma_first_unfit_concat(rest, b, (available - a[0].bytes) as nat);
        }
    }
}

proof fn lemma_total_concat(a: Seq<Piece>, b: Seq<Piece>)
    ensures
        total_bytes(a + b) == total_bytes(a) + total_bytes(b),
    decreases b.len(),
{
    if b.len() == 0 {
        assert(a + b =~= a);
    } else {
        lemma_total_concat(a, b.drop_last());
        assert((a + b).drop_last() =~= a + b.drop_last());
    }
}

/// A piece is no longer than the stream.
pub proof fn lemma_piece_fits(pieces: Seq<Piece>, k: int)
    requires
        0 <= k < pieces.len(),
    ensures
        pieces[k].bytes <= total_bytes(pieces),
    decreases pieces.len(),
{
    if k < pieces.len() - 1 {
        lemma_piece_fits(pieces.drop_last(), k);
    }
}

/// Where a piece lies does not depend on what follows it.
pub proof fn lemma_span_stable(a: Seq<Piece>, b: Seq<Piece>, base: nat, k: int)
    requires
        0 <= k < a.len(),
    ensures
        span_at(a + b, base, k) == span_at(a, base, k),
{
    assert((a + b).take(k) =~= a.take(k));
}

/// Where a stream fits, its pieces lie one behind the other, all within the bytes that are there.
pub proof fn law_pieces_lie_in_order(pieces: Seq<Piece>, base: nat, available: nat, k: int)
    requires
        first_unfit(pieces, available) is None,
        base + available <= usize::MAX,
        0 <= k < pieces.len(),
    ensures
        span_at(pieces, base, 0).offset == base,
        span_at(pieces, base, k).len == pieces[k].bytes,
        span_at(pieces, base, k).offset + span_at(pieces, base, k).len <= base + available,
        k + 1 < pieces.len() ==> span_at(pieces, base, k + 1).offset == span_at(pieces, base, k).offset + span_at(
            pieces,
            base,
            k,
        ).len,
{
    let first = pieces.take(k + 1);
    let rest = pieces.skip(k + 1);
    assert(first + rest =~= pieces);
    lemma_first_unfit_concat(first, rest, available);
    assert(first.drop_last() =~= pieces.take(k));
    assert(pieces.take(0) =~= Seq::<Piece>::empty());
}

/// Where a stream fits, no two of its pieces share a byte.
pub proof fn law_pieces_lie_apart(pieces: Seq<Piece>, base: nat, available: nat, k: int, l: int)
    requires
        first_unfit(pieces, available) is None,
        base + available <= usize::MAX,
        0 <= k < l < pieces.len(),
    ensures
        span_at(pieces, base, k).offset + span_at(pieces, base, k).len <= span_at(pieces, base, l).offset,
    decreases l - k,
{
    law_pieces_lie_in_order(pieces, base, available, k);
    if k + 1 < l {
        law_pieces_lie_apart(pieces, base, available, k + 1, l);
    }
}

/// The pieces of two lists of tensors are those of the list that joins them.
pub proof fn lemma_tensors_concat(a: Seq<nat>, b: Seq<nat>, group_size: nat)
    ensures
        tensors_pieces(a + b, group_size) == tensors_pieces(a, group_size) + tensors_pieces(b, group_size),
        tensors_pieces(a, group_size).len() == 2 * a.len(),
    decreases b.len(),
{
    lemma_tensors_len(a, group_size);
    if b.len() == 0 {
        assert(a + b =~= a);
        assert(tensors_pieces(a, group_size) + tensors_pieces(b, group_size) =~= tensors_pieces(a, group_size));
    } else {
        lemma_tensors_concat(a, b.drop_last(), group_size);
        assert((a + b).drop_last() =~= a + b.drop_last());
        assert(tensors_pieces(a + b, group_size) =~= tensors_pieces(a, group_size) + tensors_pieces(b, group_size));
    }
}

/// The data of tensor `k` is piece `2 * k`.
pub proof fn lemma_tensors_index(sizes: Seq<nat>, group_size: nat, k: int)
    requires
        0 <= k < sizes.len(),
    ensures
        tensors_pieces(sizes, group_size).len() == 2 * sizes.len(),
        tensors_pieces(sizes, group_size)[2 * k] == tensor_pieces(sizes[k], group_size)[0],
        tensors_pieces(sizes, group_size)[2 * k + 1] == tensor_pieces(sizes[k], group_size)[1],
    decreases sizes.len(),
{
    lemma_tensors_len(sizes, group_size);
    lemma_tensors_len(sizes.drop_last(), group_size);
    if k < sizes.len() - 1 {
        lemma_tensors_index(sizes.drop_last(), group_size, k);
    }
}

proof fn lemma_tensors_len(a: Seq<nat>, group_size: nat)
    ensures
        tensors_pieces(a, group_size).len() == 2 * a.len(),
    decreases a.len(),
{
    if a.len() > 0 {
        lemma_tensors_len(a.drop_last(), group_size);
    }
}

/// A sequence of reads off a checkpoint.
pub struct StreamReader<'a> {
    pub mapper: MemoryMapper<'a>,
    /// Where the stream starts.
    pub base: Ghost<nat>,
    /// The pieces that have been read.
    pub done: Ghost<Seq<Piece>>,
}

impl<'a> StreamReader<'a> {
    /// The mapper stands behind the pieces that have been read.
    pub open spec fn wf(self) -> bool {
        &&& self.mapper@.offset == self.base@ + total_bytes(self.done@)
        &&& self.mapper@.offset <= self.mapper@.data.len() <= usize::MAX
        &&& first_unfit(self.done@, self.limit()) is None
    }

    /// How many bytes there are for the stream.
    pub open spec fn limit(self) -> nat {
        (self.mapper@.data.len() - self.base@) as nat
    }

    /// Whether the stream is the same one as before, with `more` pieces read.
    pub open spec fn read_on(self, before: Self, more: Seq<Piece>) -> bool {
        &&& self.wf()
        &&& self.base@ == before.base@
        &&& self.mapper@.data == before.mapper@.data
        &&& self.done@ == before.done@ + more
    }

    /// Whether `more` cannot be read, for want of bytes for the piece called `label`.
    pub open spec fn stuck_at(self, more: Seq<Piece>, label: Seq<char>) -> bool {
        first_unfit(self.done@ + more, self.limit()) == Some(label)
    }

    /// Starts a stream where the mapper stands.
    pub(crate) fn new(mapper: MemoryMapper<'a>) -> (reader: Self)
        ensures
            reader.wf(),
            reader.mapper@ == mapper@,
            reader.base@ == mapper@.offset,
            reader.done@ == Seq::<Piece>::empty(),
    {
        let _start: usize = mapper.position();
        StreamReader { mapper, base: Ghost(mapper@.offset), done: Ghost(Seq::empty()) }
    }

    /// The next piece, of the length that `bytes` denotes.
    pub(crate) fn read(&mut self, bytes: Option<usize>, label: &str, Ghost(n): Ghost<nat>) -> (result: Result<
        Span,
        String,
    >)
        requires
            old(self).wf(),
            size::denotes(bytes, n),
        ensures
            ({
                let piece = seq![Piece { label: label@, bytes: n }];
                match result {
                    Ok(span) => {
                        &&& final(self).read_on(*old(self), piece)
                        &&& span == span_at(final(self).done@, old(self).base@, old(self).done@.len() as int)
                        &&& span.len == n
                        &&& span.offset + span.len <= final(self).mapper@.data.len()
                    },
                    Err(refused) => old(self).stuck_at(piece, refused@),
                }
            }),
    {
        let ghost before = *self;
        let ghost piece = Piece { label: label@, bytes: n };
        let ghost available = (before.limit() - total_bytes(before.done@)) as nat;
        proof {
            lemma_first_unfit_concat(before.done@, seq![piece], before.limit());
            assert(seq![piece].skip(1) =~= Seq::<Piece>::empty());
            assert(seq![piece].drop_last() =~= Seq::<Piece>::empty());
            reveal_with_fuel(first_unfit, 2);
            reveal_with_fuel(total_bytes, 2);
        }
        let count: usize = match bytes {
            Some(count) => count,
            None => {
                return Err(label.to_owned());
            },
        };
        match self.mapper.get_span(count) {
            Ok(span) => {
                proof {
                    self.done@ = self.done@ + seq![piece];
                    assert(self.done@.take(before.done@.len() as int) =~= before.done@);
                }
                Ok(span)
            },
            Err(_) => Err(label.to_owned()),
        }
    }
}

/// Reads one tensor with the number of elements that `elements` denotes.
pub(crate) fn read_single_quantized(
    reader: &mut StreamReader<'_>,
    elements: Option<usize>,
    group_size: usize,
    Ghost(n): Ghost<nat>,
) -> (result: Result<QuantizedTensor, String>)
    requires
        old(reader).wf(),
        group_size > 0,
        size::denotes(elements, n),
    ensures
        match result {
            Ok(tensor) => {
                &&& final(reader).read_on(*old(reader), tensor_pieces(n, group_size as nat))
                &&& tensor == tensor_at(final(reader).done@, old(reader).base@, old(reader).done@.len() as int)
            },
            Err(refused) => old(reader).stuck_at(tensor_pieces(n, group_size as nat), refused@),
        },
{
    let ghost before = *reader;
    let ghost whole = tensor_pieces(n, group_size as nat);
    let ghost data = seq![whole[0]];
    let ghost scales = seq![whole[1]];
    proof {
        assert(whole =~= data + scales);
        assert(before.done@ + whole =~= (before.done@ + data) + scales);
        lemma_first_unfit_concat(before.done@ + data, scales, before.limit());
    }
    let q: Span = match reader.read(elements, "quantized tensor data", Ghost(n)) {
        Ok(span) => span,
        Err(label) => {
            return Err(label);
        },
    };
    let ghost between = *reader;
    let count: usize = match elements {
        Some(count) => count,
        None => 0,
    };
    proof {
        lemma_first_unfit_concat(before.done@, data, before.limit());
        assert(data.drop_last() =~= Seq::<Piece>::empty());
        assert(total_bytes(data) == n) by {
            reveal_with_fuel(total_bytes, 2);
        }
        assert(elements is Some);
        assert(size::denotes(Some((count / group_size) as usize), n / (group_size as nat)));
    }
    let scale_bytes = size::times(Some(count / group_size), 4);
    let s: Span = match reader.read(scale_bytes, "quantized tensor scales", Ghost(n / (group_size as nat) * 4)) {
        Ok(span) => span,
        Err(label) => {
            return Err(label);
        },
    };
    proof {
        lemma_span_stable(between.done@, scales, before.base@, before.done@.len() as int);
    }
    Ok(QuantizedTensor { q, s })
}

/// Whether the sizes and labels are those of the pieces, one for one.
pub open spec fn describe(sizes: Seq<Option<usize>>, labels: Seq<String>, pieces: Seq<Piece>) -> bool {
    &&& sizes.len() == pieces.len()
    &&& labels.len() == pieces.len()
    &&& forall|k: int| 0 <= k < pieces.len() ==> size::denotes(sizes[k], (#[trigger] pieces[k]).bytes)
    &&& forall|k: int| 0 <= k < pieces.len() ==> labels[k]@ == (#[trigger] pieces[k]).label
}

/// Reads pieces with the given labels and the lengths that `sizes` denotes, one after the other.
pub(crate) fn read_pieces(
    reader: &mut StreamReader<'_>,
    sizes: &Vec<Option<usize>>,
    labels: &Vec<String>,
    Ghost(pieces): Ghost<Seq<Piece>>,
) -> (result: Result<Vec<Span>, String>)
    requires
        old(reader).wf(),
        describe(sizes@, labels@, pieces),
    ensures
        match result {
            Ok(spans) => {
                &&& final(reader).read_on(*old(reader), pieces)
                &&& spans@.len() == pieces.len()
                &&& forall|k: int|
                    0 <= k < pieces.len() ==> #[trigger] spans@[k] == span_at(
                        final(reader).done@,
                        old(reader).base@,
                        old(reader).done@.len() + k,
                    )
                &&& forall|k: int|
                    0 <= k < pieces.len() ==> (#[trigger] spans@[k]).len == pieces[k].bytes && spans@[k].offset
                        + spans@[k].len <= final(reader).mapper@.data.len()
            },
            Err(refused) => old(reader).stuck_at(pieces, refused@),
        },
{
    let ghost before = *reader;
    let mut spans: Vec<Span> = Vec::new();
    assert(before.done@ + pieces.take(0) =~= before.done@);
    for i in 0..sizes.len()
        invariant
            describe(sizes@, labels@, pieces),
            reader.read_on(before, pieces.take(i as int)),
            before == *old(reader),
            spans@.len() == i,
            forall|k: int|
                0 <= k < i ==> #[trigger] spans@[k] == span_at(reader.done@, before.base@, before.done@.len() + k),
            forall|k: int|
                0 <= k < i ==> (#[trigger] spans@[k]).len == pieces[k].bytes && spans@[k].offset + spans@[k].len
                    <= reader.mapper@.data.len(),
    {
        let ghost sofar = *reader;
        let ghost piece = pieces[i as int];
        proof {
            assert(pieces.take(i + 1) =~= pieces.take(i as int) + seq![piece]);
            assert(before.done@ + pieces.take(i + 1) =~= sofar.done@ + seq![piece]);
            assert(piece == Piece { label: labels@[i as int]@, bytes: piece.bytes });
        }
        match reader.read(sizes[i], labels[i].as_str(), Ghost(piece.bytes)) {
            Ok(span) => {
                proof {
                    assert forall|k: int| 0 <= k < i implies #[trigger] spans@[k] == span_at(
                        reader.done@,
                        before.base@,
                        before.done@.len() + k,
                    ) by {
                        lemma_span_stable(sofar.done@, seq![piece], before.base@, before.done@.len() + k);
                    }
                }
                spans.push(span);
            },
            Err(label) => {
                proof {
                    let read = before.done@ + pieces.take(i + 1);
                    assert(before.done@ + pieces =~= read + pieces.skip(i + 1));
                    lemma_first_unfit_concat(read, pieces.skip(i + 1), before.limit());
                }
                return Err(label);
            },
        }
    }
    assert(pieces.take(pieces.len() as int) =~= pieces);
    Ok(spans)
}

/// Whether the sizes stand for the numbers, one for one.
pub open spec fn all_denote(sizes: Seq<Option<usize>>, numbers: Seq<nat>) -> bool {
    &&& sizes.len() == numbers.len()
    &&& forall|k: int| 0 <= k < sizes.len() ==> #[trigger] size::denotes(sizes[k], numbers[k])
}

/// Reads tensors with the numbers of elements that `sizes` denotes, one after the other.
pub(crate) fn read_tensor_list(
    reader: &mut StreamReader<'_>,
    sizes: &Vec<Option<usize>>,
    group_size: usize,
    Ghost(numbers): Ghost<Seq<nat>>,
) -> (result: Result<Vec<QuantizedTensor>, String>)
    requires
        old(reader).wf(),
        group_size > 0,
        all_denote(sizes@, numbers),
    ensures
        match result {
            Ok(tensors) => {
                &&& final(reader).read_on(*old(reader), tensors_pieces(numbers, group_size as nat))
                &&& tensors@.len() == numbers.len()
                &&& forall|k: int|
                    0 <= k < numbers.len() ==> #[trigger] tensors@[k] == tensor_at(
                        final(reader).done@,
                        old(reader).base@,
                        old(reader).done@.len() + 2 * k,
                    )
            },
            Err(refused) => old(reader).stuck_at(tensors_pieces(numbers, group_size as nat), refused@),
        },
{
    let ghost before = *reader;
    let ghost group = group_size as nat;
    let mut tensors: Vec<QuantizedTensor> = Vec::new();
    proof {
        assert(numbers.take(0) =~= Seq::<nat>::empty());
        assert(before.done@ + tensors_pieces(numbers.take(0), group) =~= before.done@);
    }
    for i in 0..sizes.len()
        invariant
            all_denote(sizes@, numbers),
            group_size > 0,
            group == group_size as nat,
            reader.read_on(before, tensors_pieces(numbers.take(i as int), group)),
            before == *old(reader),
            tensors@.len() == i,
            forall|k: int|
                0 <= k < i ==> #[trigger] tensors@[k] == tensor_at(
                    reader.done@,
                    before.base@,
                    before.done@.len() + 2 * k,
                ),
    {
        let ghost sofar = *reader;
        let ghost n = numbers[i as int];
        let ghost upto = tensors_pieces(numbers.take(i as int), group);
        proof {
            lemma_tensors_len(numbers.take(i as int), group);
            assert(numbers.take(i + 1).drop_last() =~= numbers.take(i as int));
            assert(tensors_pieces(numbers.take(i + 1), group) == upto + tensor_pieces(n, group));
            assert(before.done@ + (upto + tensor_pieces(n, group)) =~= (before.done@ + upto) + tensor_pieces(n, group));
            assert(size::denotes(sizes@[i as int], numbers[i as int]));
        }
        match read_single_quantized(reader, sizes[i], group_size, Ghost(n)) {
            Ok(tensor) => {
                proof {
                    assert forall|k: int| 0 <= k < i implies #[trigger] tensors@[k] == tensor_at(
                        reader.done@,
                        before.base@,
                        before.done@.len() + 2 * k,
                    ) by {
                        let first = before.done@.len() + 2 * k;
                        lemma_span_stable(sofar.done@, tensor_pieces(n, group), before.base@, first);
                        lemma_span_stable(sofar.done@, tensor_pieces(n, group), before.base@, first + 1);
                    }
                }
                tensors.push(tensor);
            },
            Err(label) => {
                proof {
                    let first = numbers.take(i + 1);
                    let last = numbers.skip(i + 1);
                    assert(first + last =~= numbers);
                    lemma_tensors_concat(first, last, group);
                    let read = before.done@ + tensors_pieces(first, group);
                    assert(before.done@ + tensors_pieces(numbers, group) =~= read + tensors_pieces(last, group));
                    lemma_first_unfit_concat(read, tensors_pieces(last, group), before.limit());
                }
                return Err(label);
            },
        }
    }
    assert(numbers.take(numbers.len() as int) =~= numbers);
    Ok(tensors)
}

/// Reads `count` tensors of one and the same number of elements.
pub(crate) fn read_quantized_tensors(
    reader: &mut StreamReader<'_>,
    count: usize,
    size_each: Option<usize>,
    group_size: usize,
    Ghost(n): Ghost<nat>,
) -> (result: Result<Vec<QuantizedTensor>, String>)
    requires
        old(reader).wf(),
        group_size > 0,
        size::denotes(size_each, n),
    ensures
        ({
            let numbers = Seq::new(count as nat, |k: int| n);
            match result {
                Ok(tensors) => {
                    &&& final(reader).read_on(*old(reader), tensors_pieces(numbers, group_size as nat))
                    &&& tensors@.len() == count
                    &&& forall|k: int|
                        0 <= k < count ==> #[trigger] tensors@[k] == tensor_at(
                            final(reader).done@,
                            old(reader).base@,
                            old(reader).done@.len() + 2 * k,
                        )
                },
                Err(refused) => old(reader).stuck_at(tensors_pieces(numbers, group_size as nat), refused@),
            }
        }),
{
    let ghost numbers = Seq::new(count as nat, |k: int| n);
    let mut sizes: Vec<Option<usize>> = Vec::new();
    for i in 0..count
        invariant
            sizes@.len() == i,
            forall|k: int| 0 <= k < i ==> #[trigger] sizes@[k] == size_each,
    {
        sizes.push(size_each);
    }
    read_tensor_list(reader, &sizes, group_size, Ghost(numbers))
}

/// A stream fits exactly where it is no longer than what is there. Where it does not, the label is
/// that of the first piece with which it gets too long.
pub proof fn law_streams_fit_by_their_length(pieces: Seq<Piece>, available: nat) -> (k: int)
    ensures
        first_unfit(pieces, available) is None <==> total_bytes(pieces) <= available,
        first_unfit(pieces, available) matches Some(label) ==> {
            &&& 0 <= k < pieces.len()
            &&& label == pieces[k].label
            &&& total_bytes(pieces.take(k)) <= available
            &&& total_bytes(pieces.take(k + 1)) > available
        },
    decreases pieces.len(),
{
    lemma_first_unfit_concat(pieces, Seq::empty(), available);
    if pieces.len() == 0 {
        0
    } else {
        let first = pieces.take(1);
        let rest = pieces.skip(1);
        assert(first + rest =~= pieces);
        lemma_total_concat(first, rest);
        assert(first.drop_last() =~= Seq::<Piece>::empty());
        assert(total_bytes(first) == pieces[0].bytes) by {
            reveal_with_fuel(total_bytes, 2);
        }
        if pieces[0].bytes > available {
            assert(pieces.take(0) =~= Seq::<Piece>::empty());
            0
        } else {
            let k = law_streams_fit_by_their_length(rest, (available - pieces[0].bytes) as nat);
            if first_unfit(pieces, available) is Some {
                assert(pieces.take(k + 1) =~= first + rest.take(k));
                assert(pieces.take(k + 2) =~= first + rest.take(k + 1));
                lemma_total_concat(first, rest.take(k));
                lemma_total_concat(first, rest.take(k + 1));
            }
            k + 1
        }
    }
}

/// A stream is as long as its pieces together, in whatever parts they are counted.
pub proof fn law_lengths_add_up(a: Seq<Piece>, piece: Piece, b: Seq<Piece>)
    ensures
        total_bytes(Seq::<Piece>::empty()) == 0,
        total_bytes(a + seq![piece] + b) == total_bytes(a) + piece.bytes + total_bytes(b),
{
    lemma_total_concat(a + seq![piece], b);
    assert((a + seq![piece]).drop_last() =~= a);
}

/// A tensor takes one byte for each element, and four for the scale of each whole group of them.
pub proof fn law_tensors_have_a_scale_for_each_group(elements: nat, group_size: nat)
    requires
        group_size > 0,
    ensures
        tensor_pieces(elements, group_size).len() == 2,
        tensor_pieces(elements, group_size)[0].bytes == elements,
        ({
            let scales = tensor_pieces(elements, group_size)[1].bytes;
            &&& scales % 4 == 0
            &&& (scales / 4) * group_size <= elements < (scales / 4 + 1) * group_size
        }),
{
    let q = elements / group_size;
    vstd::arithmetic::div_mod::lemma_fundamental_div_mod(elements as int, group_size as int);
    assert(q * group_size <= elements < (q + 1) * group_size) by (nonlinear_arith)
        requires
            elements == group_size * q + elements % group_size,
            0 <= elements % group_size < group_size,
    ;
}

} // verus!
