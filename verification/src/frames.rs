//! Which samples make up which frame.
//!
//! A frame is a run of `window_size` consecutive samples; successive frames
//! start `step_size` samples apart. This module says, as mathematics, which
//! frames a whole signal holds and which frames a source emits that is fed
//! the signal piece by piece, and proves that the two agree however the
//! signal is cut into pieces.

use vstd::arithmetic::div_mod::lemma_fundamental_div_mod;
use vstd::prelude::*;

verus! {

/// A window and a step that a source can be made with: the step is at least
/// one sample and at most one window.
pub open spec fn valid_config(window_size: nat, step_size: nat) -> bool {
    0 < step_size <= window_size
}

/// The number of whole frames in a signal of `len` samples.
pub open spec fn frame_count(len: nat, window_size: nat, step_size: nat) -> nat {
    if len >= window_size {
        ((len - window_size) / (step_size as int) + 1) as nat
    } else {
        0
    }
}

/// The frame with the given index: `window_size` samples from
/// `index * step_size` on.
pub open spec fn frame_at(samples: Seq<u64>, window_size: nat, step_size: nat, index: nat) -> Seq<
    u64,
> {
    samples.subrange((index * step_size) as int, (index * step_size + window_size) as int)
}

/// All whole frames of a signal, in order.
pub open spec fn batch_frames(samples: Seq<u64>, window_size: nat, step_size: nat) -> Seq<
    Seq<u64>,
> {
    Seq::new(
        frame_count(samples.len(), window_size, step_size),
        |index: int| frame_at(samples, window_size, step_size, index as nat),
    )
}

/// The number of samples that a source has stepped over once it has emitted
/// every whole frame of `len` buffered samples.
pub open spec fn consumed(len: nat, window_size: nat, step_size: nat) -> nat {
    frame_count(len, window_size, step_size) * step_size
}

/// The samples that stay buffered once every whole frame has been emitted.
pub open spec fn remainder(samples: Seq<u64>, window_size: nat, step_size: nat) -> Seq<u64> {
    samples.skip(consumed(samples.len(), window_size, step_size) as int)
}

/// The frames that a streaming source emits when it starts with `pending`
/// buffered and is then fed `chunks` one after the other, emitting after each
/// chunk every frame that has become whole.
pub open spec fn stream_frames(
    pending: Seq<u64>,
    chunks: Seq<Seq<u64>>,
    window_size: nat,
    step_size: nat,
) -> Seq<Seq<u64>>
    decreases chunks.len(),
{
    if chunks.len() == 0 {
        Seq::empty()
    } else {
        let buffered = pending + chunks.first();
        batch_frames(buffered, window_size, step_size) + stream_frames(
            remainder(buffered, window_size, step_size),
            chunks.drop_first(),
            window_size,
            step_size,
        )
    }
}

/// The samples that a streaming source still holds once it has been fed
/// `chunks` as `stream_frames` describes.
pub open spec fn stream_pending(
    pending: Seq<u64>,
    chunks: Seq<Seq<u64>>,
    window_size: nat,
    step_size: nat,
) -> Seq<u64>
    decreases chunks.len(),
{
    if chunks.len() == 0 {
        pending
    } else {
        stream_pending(
            remainder(pending + chunks.first(), window_size, step_size),
            chunks.drop_first(),
            window_size,
            step_size,
        )
    }
}

/// What a vector of vectors holds, as a sequence of sequences.
pub open spec fn views_of(rows: Seq<Vec<u64>>) -> Seq<Seq<u64>> {
    rows.map_values(|row: Vec<u64>| row@)
}

/// The columns of a spectrogram: one per frame, each computed from its frame
/// alone.
pub open spec fn columns_of(frames: Seq<Seq<u64>>, column: spec_fn(Seq<u64>) -> Seq<u64>) -> Seq<
    Seq<u64>,
> {
    frames.map_values(column)
}

/// Where a signal holds a frame at all, its last frame ends within the
/// signal, the steps up to and including the last one stay within it, and
/// fewer than `window_size` samples are left beyond the last step.
pub proof fn lemma_consumed_bounds(len: nat, window_size: nat, step_size: nat)
    requires
        valid_config(window_size, step_size),
    ensures
        consumed(len, window_size, step_size) <= len,
        len - consumed(len, window_size, step_size) < window_size,
        len >= window_size ==> frame_count(len, window_size, step_size) >= 1 && (frame_count(
            len,
            window_size,
            step_size,
        ) - 1) * step_size + window_size <= len,
{
    if len >= window_size {
        let span = len - window_size;
        let step = step_size as int;
        let quotient = span / step;
        let rest = span % step;
        lemma_fundamental_div_mod(span, step);
        assert(0 <= rest < step) by (nonlinear_arith)
            requires
                rest == span % step,
                step > 0,
        ;
        assert(quotient >= 0) by (nonlinear_arith)
            requires
                quotient == span / step,
                span >= 0,
                step > 0,
        ;
        assert((quotient + 1) * step == step * quotient + step) by (nonlinear_arith);
        assert((quotient + 1 - 1) * step == step * quotient) by (nonlinear_arith);
    }
}

/// A frame index is below the frame count exactly when the frame ends within
/// the signal.
pub proof fn lemma_frame_in_bounds(len: nat, window_size: nat, step_size: nat, index: nat)
    requires
        valid_config(window_size, step_size),
    ensures
        index < frame_count(len, window_size, step_size) <==> index * step_size + window_size
            <= len,
{
    if len >= window_size {
        let span = len - window_size;
        let step = step_size as int;
        let quotient = span / step;
        let rest = span % step;
        lemma_fundamental_div_mod(span, step);
        assert(0 <= rest < step) by (nonlinear_arith)
            requires
                rest == span % step,
                step > 0,
        ;
        if (index as int) <= quotient {
            assert(index * step <= step * quotient) by (nonlinear_arith)
                requires
                    index <= quotient,
                    step > 0,
            ;
        } else {
            assert(index * step >= step * quotient + step) by (nonlinear_arith)
                requires
                    index >= quotient + 1,
                    step > 0,
            ;
        }
    } else {
        assert(index * step_size >= 0) by (nonlinear_arith);
    }
}

/// With `more` samples buffered behind a signal of `len`, a frame ends within
/// the longer signal exactly when its index is below the frames of the first
/// `len` samples plus the frames of what those left, followed by the rest.
proof fn lemma_frame_index_extends(
    len: nat,
    more: nat,
    window_size: nat,
    step_size: nat,
    index: nat,
)
    requires
        valid_config(window_size, step_size),
        len >= window_size,
    ensures
        consumed(len, window_size, step_size) <= len,
        index < frame_count(len, window_size, step_size) + frame_count(
            (len + more - consumed(len, window_size, step_size)) as nat,
            window_size,
            step_size,
        ) <==> index * step_size + window_size <= len + more,
{
    let earlier = frame_count(len, window_size, step_size);
    lemma_consumed_bounds(len, window_size, step_size);
    let left = (len + more - earlier * step_size) as nat;
    lemma_frame_in_bounds(len, window_size, step_size, index);
    if index >= earlier {
        let shifted = (index - earlier) as nat;
        lemma_frame_in_bounds(left, window_size, step_size, shifted);
        assert(shifted * step_size + earlier * step_size == index * step_size)
            by (nonlinear_arith)
            requires
                shifted == index - earlier,
        ;
    }
}

/// Buffering more samples behind a signal keeps the frames that were whole
/// already and adds the frames of what the source had left, followed by the
/// new samples.
pub proof fn lemma_frame_count_extends(len: nat, more: nat, window_size: nat, step_size: nat)
    requires
        valid_config(window_size, step_size),
    ensures
        frame_count(len + more, window_size, step_size) == frame_count(len, window_size, step_size)
            + frame_count(
            (len + more - consumed(len, window_size, step_size)) as nat,
            window_size,
            step_size,
        ),
{
    let total = len + more;
    let earlier = frame_count(len, window_size, step_size);
    if len >= window_size {
        lemma_consumed_bounds(len, window_size, step_size);
        let left = (total - earlier * step_size) as nat;
        let sum = earlier + frame_count(left, window_size, step_size);
        let whole = frame_count(total, window_size, step_size);
        lemma_frame_in_bounds(total, window_size, step_size, whole);
        lemma_frame_index_extends(len, more, window_size, step_size, whole);
        lemma_frame_in_bounds(total, window_size, step_size, sum);
        lemma_frame_index_extends(len, more, window_size, step_size, sum);
    } else {
        assert(earlier * step_size == 0) by (nonlinear_arith)
            requires
                earlier == 0,
        ;
    }
}

/// The frames of a signal that is buffered behind another are the frames of
/// the first, followed by the frames of what the first left and the second.
pub proof fn lemma_batch_frames_extend(
    first: Seq<u64>,
    second: Seq<u64>,
    window_size: nat,
    step_size: nat,
)
    requires
        valid_config(window_size, step_size),
    ensures
        batch_frames(first + second, window_size, step_size) == batch_frames(
            first,
            window_size,
            step_size,
        ) + batch_frames(remainder(first, window_size, step_size) + second, window_size, step_size),
{
    let whole = first + second;
    let earlier = frame_count(first.len(), window_size, step_size);
    let skipped = consumed(first.len(), window_size, step_size);
    let left = remainder(first, window_size, step_size) + second;
    lemma_consumed_bounds(first.len(), window_size, step_size);
    lemma_frame_count_extends(first.len(), second.len(), window_size, step_size);
    assert(left =~= whole.skip(skipped as int));
    let joined = batch_frames(first, window_size, step_size) + batch_frames(
        left,
        window_size,
        step_size,
    );
    let direct = batch_frames(whole, window_size, step_size);
    assert(direct.len() == joined.len());
    assert forall|index: int| 0 <= index < direct.len() implies direct[index] == joined[index] by {
        lemma_frame_in_bounds(whole.len(), window_size, step_size, index as nat);
        if index < earlier {
            lemma_frame_in_bounds(first.len(), window_size, step_size, index as nat);
            assert(frame_at(whole, window_size, step_size, index as nat) =~= frame_at(
                first,
                window_size,
                step_size,
                index as nat,
            ));
        } else {
            let shifted = (index - earlier) as nat;
            lemma_frame_in_bounds(left.len(), window_size, step_size, shifted);
            assert(shifted * step_size + earlier * step_size == index * step_size)
                by (nonlinear_arith)
                requires
                    shifted == index - earlier,
            ;
            assert(frame_at(whole, window_size, step_size, index as nat) =~= frame_at(
                left,
                window_size,
                step_size,
                shifted,
            ));
        }
    }
    assert(direct =~= joined);
}

/// What a source has left of a signal that is buffered behind another is
/// what it has left of the rest of the first, followed by the second.
pub proof fn lemma_remainder_extend(
    first: Seq<u64>,
    second: Seq<u64>,
    window_size: nat,
    step_size: nat,
)
    requires
        valid_config(window_size, step_size),
    ensures
        remainder(first + second, window_size, step_size) == remainder(
            remainder(first, window_size, step_size) + second,
            window_size,
            step_size,
        ),
{
    let whole = first + second;
    let earlier = frame_count(first.len(), window_size, step_size);
    let skipped = consumed(first.len(), window_size, step_size);
    let left = remainder(first, window_size, step_size) + second;
    let later = frame_count(left.len(), window_size, step_size);
    lemma_consumed_bounds(first.len(), window_size, step_size);
    lemma_consumed_bounds(left.len(), window_size, step_size);
    lemma_frame_count_extends(first.len(), second.len(), window_size, step_size);
    assert(left =~= whole.skip(skipped as int));
    assert((earlier + later) * step_size == earlier * step_size + later * step_size)
        by (nonlinear_arith);
    assert(whole.skip(skipped as int).skip(consumed(left.len(), window_size, step_size) as int)
        =~= whole.skip(consumed(whole.len(), window_size, step_size) as int));
}

/// A source that starts with fewer samples than one window emits, fed chunk
/// by chunk, the frames of everything it was given taken as one signal.
pub proof fn lemma_stream_frames_from_pending(
    pending: Seq<u64>,
    chunks: Seq<Seq<u64>>,
    window_size: nat,
    step_size: nat,
)
    requires
        valid_config(window_size, step_size),
        pending.len() < window_size,
    ensures
        stream_frames(pending, chunks, window_size, step_size) == batch_frames(
            pending + chunks.flatten(),
            window_size,
            step_size,
        ),
        stream_pending(pending, chunks, window_size, step_size) == remainder(
            pending + chunks.flatten(),
            window_size,
            step_size,
        ),
    decreases chunks.len(),
{
    if chunks.len() == 0 {
        assert(pending + chunks.flatten() =~= pending);
        assert(batch_frames(pending, window_size, step_size) =~= Seq::<Seq<u64>>::empty());
        assert(consumed(pending.len(), window_size, step_size) == 0) by (nonlinear_arith)
            requires
                frame_count(pending.len(), window_size, step_size) == 0,
                consumed(pending.len(), window_size, step_size) == frame_count(
                    pending.len(),
                    window_size,
                    step_size,
                ) * step_size,
        ;
        assert(remainder(pending, window_size, step_size) =~= pending);
    } else {
        let buffered = pending + chunks.first();
        let rest = chunks.drop_first();
        let left = remainder(buffered, window_size, step_size);
        lemma_consumed_bounds(buffered.len(), window_size, step_size);
        lemma_stream_frames_from_pending(left, rest, window_size, step_size);
        lemma_batch_frames_extend(buffered, rest.flatten(), window_size, step_size);
        lemma_remainder_extend(buffered, rest.flatten(), window_size, step_size);
        assert(pending + chunks.flatten() =~= buffered + rest.flatten());
    }
}

/// Chunk invariance. However a signal is cut into the chunks that a
/// streaming source is fed, the source emits the frames of the whole signal,
/// and so the columns computed from its frames are those computed from the
/// whole signal, whatever function of a frame a column is. What the source
/// is left with is what lies beyond the last step of the whole signal.
pub proof fn theorem_chunk_invariance(
    chunks: Seq<Seq<u64>>,
    window_size: nat,
    step_size: nat,
    column: spec_fn(Seq<u64>) -> Seq<u64>,
)
    requires
        valid_config(window_size, step_size),
    ensures
        stream_frames(Seq::empty(), chunks, window_size, step_size) == batch_frames(
            chunks.flatten(),
            window_size,
            step_size,
        ),
        columns_of(stream_frames(Seq::empty(), chunks, window_size, step_size), column)
            == columns_of(batch_frames(chunks.flatten(), window_size, step_size), column),
        stream_pending(Seq::empty(), chunks, window_size, step_size) == remainder(
            chunks.flatten(),
            window_size,
            step_size,
        ),
{
    lemma_stream_frames_from_pending(Seq::empty(), chunks, window_size, step_size);
    assert(Seq::<u64>::empty() + chunks.flatten() =~= chunks.flatten());
}

/// Two appends are one. A source that is fed two chunks one after the other
/// holds, emits and is left with what a source in the same state does that is
/// fed the two chunks joined.
pub proof fn theorem_appends_join(
    pending: Seq<u64>,
    first: Seq<u64>,
    second: Seq<u64>,
    window_size: nat,
    step_size: nat,
)
    requires
        valid_config(window_size, step_size),
    ensures
        (pending + first) + second == pending + (first + second),
        stream_frames(pending, seq![first, second], window_size, step_size) == stream_frames(
            pending,
            seq![first + second],
            window_size,
            step_size,
        ),
        stream_pending(pending, seq![first, second], window_size, step_size) == stream_pending(
            pending,
            seq![first + second],
            window_size,
            step_size,
        ),
{
    let two = seq![first, second];
    let one = seq![first + second];
    let buffered = pending + first;
    let left = remainder(buffered, window_size, step_size);
    let none = Seq::<Seq<u64>>::empty();
    assert((pending + first) + second =~= pending + (first + second));
    assert(two.first() == first && two.drop_first() =~= seq![second]);
    assert(seq![second].first() == second && seq![second].drop_first() =~= none);
    assert(one.first() == first + second && one.drop_first() =~= none);
    assert(stream_frames(left, seq![second], window_size, step_size) =~= batch_frames(
        left + second,
        window_size,
        step_size,
    )) by {
        reveal_with_fuel(stream_frames, 2);
    }
    assert(stream_frames(pending, one, window_size, step_size) =~= batch_frames(
        pending + (first + second),
        window_size,
        step_size,
    )) by {
        reveal_with_fuel(stream_frames, 2);
    }
    assert(stream_pending(left, seq![second], window_size, step_size) == remainder(
        left + second,
        window_size,
        step_size,
    )) by {
        reveal_with_fuel(stream_pending, 2);
    }
    assert(stream_pending(pending, one, window_size, step_size) == remainder(
        pending + (first + second),
        window_size,
        step_size,
    )) by {
        reveal_with_fuel(stream_pending, 2);
    }
    lemma_batch_frames_extend(buffered, second, window_size, step_size);
    lemma_remainder_extend(buffered, second, window_size, step_size);
}

/// Frame count. Both strategies emit `(len - window_size) / step_size + 1`
/// frames for a signal of `len >= window_size` samples, and none for a
/// shorter one.
pub proof fn theorem_frame_count(chunks: Seq<Seq<u64>>, window_size: nat, step_size: nat)
    requires
        valid_config(window_size, step_size),
    ensures
        batch_frames(chunks.flatten(), window_size, step_size).len() == frame_count(
            chunks.flatten().len(),
            window_size,
            step_size,
        ),
        stream_frames(Seq::empty(), chunks, window_size, step_size).len() == frame_count(
            chunks.flatten().len(),
            window_size,
            step_size,
        ),
        frame_count(chunks.flatten().len(), window_size, step_size) == if chunks.flatten().len()
            >= window_size {
            (chunks.flatten().len() - window_size) / (step_size as int) + 1
        } else {
            0
        },
{
    lemma_stream_frames_from_pending(Seq::empty(), chunks, window_size, step_size);
    assert(Seq::<u64>::empty() + chunks.flatten() =~= chunks.flatten());
    let span = chunks.flatten().len() - window_size;
    if span >= 0 {
        assert(span / (step_size as int) >= 0) by (nonlinear_arith)
            requires
                span >= 0,
                step_size > 0,
        ;
    }
}

/// Determinism. What either strategy emits is a function of the samples and
/// the configuration alone: two streaming runs over the same signal agree
/// frame for frame and column for column, however each was fed, and so do
/// two batch runs.
pub proof fn theorem_determinism(
    chunks_a: Seq<Seq<u64>>,
    chunks_b: Seq<Seq<u64>>,
    window_size: nat,
    step_size: nat,
    column: spec_fn(Seq<u64>) -> Seq<u64>,
)
    requires
        valid_config(window_size, step_size),
        chunks_a.flatten() == chunks_b.flatten(),
    ensures
        stream_frames(Seq::empty(), chunks_a, window_size, step_size) == stream_frames(
            Seq::empty(),
            chunks_b,
            window_size,
            step_size,
        ),
        columns_of(stream_frames(Seq::empty(), chunks_a, window_size, step_size), column)
            == columns_of(stream_frames(Seq::empty(), chunks_b, window_size, step_size), column),
        columns_of(batch_frames(chunks_a.flatten(), window_size, step_size), column) == columns_of(
            batch_frames(chunks_b.flatten(), window_size, step_size),
            column,
        ),
{
    theorem_chunk_invariance(chunks_a, window_size, step_size, column);
    theorem_chunk_invariance(chunks_b, window_size, step_size, column);
}

} // verus!
