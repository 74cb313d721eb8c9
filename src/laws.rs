//! What holds of the decoder over whole streams of bytes.
use crate::fs_ia6b_driver::{next_view, outcome, outputs, run, DecoderView, Error, State};
use crate::wire::{
    channels_of, checksum_high, checksum_low, checksum_of, frame_body, frame_channels, frame_of,
    frame_payload, is_valid_frame, payload_of, PROTOCOL_COMMAND, PROTOCOL_LENGTH,
};
use vstd::prelude::*;

verus! {

/// The reports of a decoder fed one valid frame from its idle state: nothing
/// for the first 31 bytes, the frame's channel values on the last.
pub open spec fn frame_outputs<E>(frame: Seq<u8>) -> Seq<Result<Option<Seq<u16>>, Error<E>>> {
    Seq::new(
        32,
        |i: int|
            if i == 31 {
                Ok(Some(frame_channels(frame)))
            } else {
                Ok(None)
            },
    )
}

/// Feeding one more byte is one more step.
pub proof fn lemma_run_push(v: DecoderView, bytes: Seq<u8>, b: u8)
    ensures
        run(v, bytes.push(b)) == next_view(run(v, bytes), b),
{
    assert(bytes.push(b).drop_last() =~= bytes);
}

/// Feeding two runs of bytes one after the other is feeding their concatenation.
pub proof fn lemma_run_add(v: DecoderView, a: Seq<u8>, b: Seq<u8>)
    ensures
        run(v, a + b) == run(run(v, a), b),
    decreases b.len(),
{
    if b.len() == 0 {
        assert(a + b =~= a);
    } else {
        lemma_run_add(v, a, b.drop_last());
        assert((a + b).drop_last() =~= a + b.drop_last());
    }
}

/// The reports on a concatenation are the reports on the first part followed
/// by those on the second, fed to the decoder the first part left behind.
pub proof fn lemma_outputs_add<E>(v: DecoderView, a: Seq<u8>, b: Seq<u8>)
    ensures
        outputs::<E>(v, a + b) == outputs::<E>(v, a) + outputs::<E>(run(v, a), b),
{
    let ab = a + b;
    assert forall|i: int| 0 <= i < ab.len() implies #[trigger] outputs::<E>(v, ab)[i] == (
    outputs::<E>(v, a) + outputs::<E>(run(v, a), b))[i] by {
        if i < a.len() {
            assert(ab.take(i) =~= a.take(i));
        } else {
            let j = i - a.len();
            assert(ab.take(i) =~= a + b.take(j));
            lemma_run_add(v, a, b.take(j));
        }
    }
    assert(outputs::<E>(v, ab) =~= outputs::<E>(v, a) + outputs::<E>(run(v, a), b));
}

/// Where the decoder stands after the first `n` bytes of a valid frame, fed
/// from its idle state.
pub open spec fn frame_progress(v: DecoderView, frame: Seq<u8>, n: int) -> DecoderView {
    if n == 0 {
        v
    } else if n == 1 {
        DecoderView { state: State::GetCommand, data: v.data }
    } else if n < 30 {
        DecoderView { state: State::GetData, data: frame.subrange(2, n) }
    } else if n == 30 {
        DecoderView { state: State::GetChksumL, data: frame_payload(frame) }
    } else if n == 31 {
        DecoderView { state: State::GetChksumH, data: frame_payload(frame) }
    } else {
        DecoderView { state: State::GetLength, data: frame_payload(frame) }
    }
}

/// The two checksum bytes of a valid frame are those the decoder expects
/// after its channel data.
pub proof fn lemma_valid_frame_checksum(frame: Seq<u8>)
    requires
        is_valid_frame(frame),
    ensures
        frame[30] == checksum_low(frame_payload(frame)),
        frame[31] == checksum_high(frame_payload(frame)),
{
    assert(frame.subrange(0, 30) =~= frame_body(frame_payload(frame)));
}

/// The decoder steps through a valid frame as `frame_progress` says.
pub proof fn lemma_frame_prefix(v: DecoderView, frame: Seq<u8>, n: int)
    requires
        v.is_idle(),
        is_valid_frame(frame),
        0 <= n <= 32,
    ensures
        run(v, frame.take(n)) == frame_progress(v, frame, n),
    decreases n,
{
    if n == 0 {
        assert(frame.take(0) =~= Seq::<u8>::empty());
    } else {
        lemma_frame_prefix(v, frame, n - 1);
        assert(frame.take(n) =~= frame.take(n - 1).push(frame[n - 1]));
        lemma_run_push(v, frame.take(n - 1), frame[n - 1]);
        lemma_valid_frame_checksum(frame);
        if n == 2 {
            assert(frame.subrange(2, 2) =~= Seq::<u8>::empty());
        } else if 2 < n <= 30 {
            assert(frame.subrange(2, n) =~= frame.subrange(2, n - 1).push(frame[n - 1]));
        }
    }
}

/// A valid frame fed to an idle decoder: no report for its first 31 bytes,
/// its channel values (the little-endian pairs of bytes 2 to 29) on the 32nd,
/// and the decoder idle again afterwards.
pub proof fn lemma_valid_frame_decodes<E>(v: DecoderView, frame: Seq<u8>)
    requires
        v.is_idle(),
        is_valid_frame(frame),
    ensures
        outputs::<E>(v, frame) == frame_outputs::<E>(frame),
        run(v, frame).is_idle(),
        run(v, frame).data == frame_payload(frame),
{
    lemma_valid_frame_checksum(frame);
    assert forall|i: int| 0 <= i < 32 implies #[trigger] outputs::<E>(v, frame)[i]
        == frame_outputs::<E>(frame)[i] by {
        lemma_frame_prefix(v, frame, i);
    }
    assert(outputs::<E>(v, frame) =~= frame_outputs::<E>(frame));
    lemma_frame_prefix(v, frame, 32);
    assert(frame.take(32) =~= frame);
}

/// Consecutive valid frames with nothing between them, fed to an idle
/// decoder: one report of channel values per frame, on its last byte, in the
/// order of the frames, and nothing else.
pub proof fn lemma_stream_decodes<E>(v: DecoderView, frames: Seq<Seq<u8>>)
    requires
        v.is_idle(),
        forall|i: int| 0 <= i < frames.len() ==> is_valid_frame(#[trigger] frames[i]),
    ensures
        outputs::<E>(v, frames.flatten()) == frames.map_values(
            |f: Seq<u8>| frame_outputs::<E>(f),
        ).flatten(),
        run(v, frames.flatten()).is_idle(),
    decreases frames.len(),
{
    let expected = frames.map_values(|f: Seq<u8>| frame_outputs::<E>(f));
    if frames.len() == 0 {
        assert(outputs::<E>(v, frames.flatten()) =~= Seq::empty());
    } else {
        let first = frames[0];
        let rest = frames.drop_first();
        assert forall|i: int| 0 <= i < rest.len() implies is_valid_frame(#[trigger] rest[i]) by {
            assert(rest[i] == frames[i + 1]);
        }
        lemma_valid_frame_decodes::<E>(v, first);
        lemma_stream_decodes::<E>(run(v, first), rest);
        lemma_outputs_add::<E>(v, first, rest.flatten());
        lemma_run_add(v, first, rest.flatten());
        assert(expected.drop_first() =~= rest.map_values(|f: Seq<u8>| frame_outputs::<E>(f)));
    }
}

/// The error an idle decoder reports when byte `pos` of `frame` (its length,
/// command or a checksum byte) arrives as `bad` instead.
pub open spec fn corruption_error<E>(frame: Seq<u8>, pos: int, bad: u8) -> Error<E> {
    if pos == 0 {
        Error::InvalidLength(bad, PROTOCOL_LENGTH)
    } else if pos == 1 {
        Error::InvalidCommand(bad, PROTOCOL_COMMAND)
    } else if pos == 30 {
        Error::InvalidChecksumL(bad, frame[30])
    } else {
        Error::InvalidChecksumH(bad, frame[31])
    }
}

/// A valid frame whose length, command or checksum byte at `pos` is replaced
/// by another value: fed to an idle decoder up to that byte, it gives no report
/// before it and the matching error on it, and leaves the decoder idle, so that
/// a valid frame fed right afterwards decodes as from a fresh decoder.
pub proof fn lemma_corrupted_frame_recovers<E>(
    v: DecoderView,
    frame: Seq<u8>,
    pos: int,
    bad: u8,
    next: Seq<u8>,
)
    requires
        v.is_idle(),
        is_valid_frame(frame),
        is_valid_frame(next),
        pos == 0 || pos == 1 || pos == 30 || pos == 31,
        bad != frame[pos],
    ensures
        ({
            let head = frame.update(pos, bad).take(pos + 1);
            &&& outputs::<E>(v, head) == Seq::new(
                (pos + 1) as nat,
                |i: int|
                    if i == pos {
                        Err(corruption_error::<E>(frame, pos, bad))
                    } else {
                        Ok(None::<Seq<u16>>)
                    },
            )
            &&& run(v, head).is_idle()
            &&& outputs::<E>(v, head + next) == outputs::<E>(v, head) + frame_outputs::<E>(next)
        }),
{
    let head = frame.update(pos, bad).take(pos + 1);
    lemma_valid_frame_checksum(frame);
    assert forall|i: int| 0 <= i <= pos implies #[trigger] head.take(i) == frame.take(i) by {
        assert(head.take(i) =~= frame.take(i));
    }
    assert forall|i: int| 0 <= i <= pos implies #[trigger] outputs::<E>(v, head)[i] == (if i
        == pos {
        Err(corruption_error::<E>(frame, pos, bad))
    } else {
        Ok(None::<Seq<u16>>)
    }) by {
        assert(head.take(i) == frame.take(i));
        lemma_frame_prefix(v, frame, i);
    }
    assert(outputs::<E>(v, head) =~= Seq::new(
        (pos + 1) as nat,
        |i: int|
            if i == pos {
                Err(corruption_error::<E>(frame, pos, bad))
            } else {
                Ok(None::<Seq<u16>>)
            },
    ));
    assert(head =~= head.take(pos).push(bad));
    assert(head.take(pos) == frame.take(pos));
    lemma_frame_prefix(v, frame, pos);
    lemma_run_push(v, frame.take(pos), bad);
    lemma_outputs_add::<E>(v, head, next);
    lemma_valid_frame_decodes::<E>(run(v, head), next);
}

/// Encoding fourteen channel values gives a valid frame that decodes to the
/// same values: an idle decoder fed it reports exactly them on its last byte.
pub proof fn lemma_encode_round_trip<E>(v: DecoderView, channels: Seq<u16>)
    requires
        v.is_idle(),
        channels.len() == 14,
    ensures
        is_valid_frame(frame_of(channels)),
        frame_channels(frame_of(channels)) == channels,
        outputs::<E>(v, frame_of(channels))[31] == Ok::<Option<Seq<u16>>, Error<E>>(
            Some(channels),
        ),
{
    let frame = frame_of(channels);
    let payload = payload_of(channels);
    assert(frame.subrange(0, 30) =~= frame_body(payload));
    assert(frame_payload(frame) =~= payload);
    assert forall|k: int| 0 <= k < 14 implies #[trigger] channels_of(payload)[k] == channels[k] by {
        assert(payload[2 * k] == channels[k] % 0x100);
        assert(payload[2 * k + 1] == channels[k] / 0x100);
    }
    assert(channels_of(payload) =~= channels);
    lemma_valid_frame_decodes::<E>(v, frame);
}

/// What the bytes fed so far show about where the decoder stands: each state
/// past the length byte is backed by the tail of the stream it has read.
pub open spec fn backed_by_stream(w: DecoderView, p: Seq<u8>) -> bool {
    let n = p.len() as int;
    &&& w.state is GetCommand ==> n >= 1 && p[n - 1] == PROTOCOL_LENGTH
    &&& w.state is GetData ==> {
        &&& w.data.len() < 28
        &&& n >= 2 + w.data.len()
        &&& p.subrange(n - 2 - w.data.len(), n) == frame_body(w.data)
    }
    &&& w.state is GetChksumL ==> {
        &&& w.data.len() == 28
        &&& n >= 30
        &&& p.subrange(n - 30, n) == frame_body(w.data)
    }
    &&& w.state is GetChksumH ==> {
        &&& w.data.len() == 28
        &&& n >= 31
        &&& p.subrange(n - 31, n - 1) == frame_body(w.data)
        &&& p[n - 1] == checksum_low(w.data)
    }
}

/// From an idle decoder, every state reached is backed by the stream read.
pub proof fn lemma_backed_by_stream(v: DecoderView, p: Seq<u8>)
    requires
        v.is_idle(),
    ensures
        backed_by_stream(run(v, p), p),
    decreases p.len(),
{
    if p.len() > 0 {
        let q = p.drop_last();
        let b = p.last();
        let n = q.len() as int;
        lemma_backed_by_stream(v, q);
        assert(p =~= q.push(b));
        lemma_run_push(v, q, b);
        let w = run(v, q);
        match w.state {
            State::GetCommand => {
                if b == PROTOCOL_COMMAND {
                    assert(p.subrange(n + 1 - 2, n + 1) =~= frame_body(Seq::<u8>::empty()));
                }
            },
            State::GetData => {
                let m = w.data.len() as int;
                assert(frame_body(w.data.push(b)) =~= frame_body(w.data).push(b));
                assert(p.subrange(n + 1 - 2 - (m + 1), n + 1) =~= q.subrange(n - 2 - m, n).push(b));
            },
            State::GetChksumL => {
                assert(p.subrange(n + 1 - 31, n) =~= q.subrange(n - 30, n));
            },
            _ => {},
        }
    }
}

/// An idle decoder never reports channel values before a whole frame has
/// arrived: whenever it reports values on byte `k` of a stream, bytes `k - 31`
/// to `k` form a valid frame that carries exactly those values.
pub proof fn lemma_report_backed_by_frame<E>(
    v: DecoderView,
    bytes: Seq<u8>,
    k: int,
    channels: Seq<u16>,
)
    requires
        v.is_idle(),
        0 <= k < bytes.len(),
        outputs::<E>(v, bytes)[k] == Ok::<Option<Seq<u16>>, Error<E>>(Some(channels)),
    ensures
        k >= 31,
        is_valid_frame(bytes.subrange(k - 31, k + 1)),
        frame_channels(bytes.subrange(k - 31, k + 1)) == channels,
{
    let p = bytes.take(k);
    let w = run(v, p);
    lemma_backed_by_stream(v, p);
    assert(outcome::<E>(w, bytes[k]) == outputs::<E>(v, bytes)[k]);
    assert(w.state is GetChksumH);
    let frame = bytes.subrange(k - 31, k + 1);
    assert(frame.subrange(0, 30) =~= p.subrange(k - 31, k - 1));
    assert(frame_body(w.data).subrange(2, 30) =~= w.data);
    assert(frame.subrange(2, 30) =~= frame.subrange(0, 30).subrange(2, 30));
    assert(frame[0] == frame_body(w.data)[0]);
    assert(frame[1] == frame_body(w.data)[1]);
    assert(frame_payload(frame) =~= w.data);
    let c = checksum_of(frame_body(w.data));
    assert(0 <= c < 0x10000);
    assert(frame[30] == checksum_low(w.data));
    assert(frame[31] == checksum_high(w.data));
}

} // verus!
