//! The binary wire encoding of collector messages.
//!
//! An event batch is a big-endian `u32` event count followed, for each event,
//! by a big-endian `u32` length and the event's raw bytes. The collector's
//! response carries no bytes at all.
use vstd::prelude::*;
use vstd::slice::slice_to_vec;

verus! {

/// Maximum encoded size of an event batch sent by collector clients.
pub const MAX_EVENT_BATCH_ENCODED_LEN: usize = 4194304;

/// Maximum number of events in one batch.
pub const MAX_EVENTS_PER_BATCH: usize = 65536;

/// Encoded size of the event-count field at the start of a batch.
pub const EVENT_BATCH_HEADER_LEN: usize = 4;

/// Encoded size of the length field before each event payload.
pub const EVENT_LENGTH_HEADER_LEN: usize = 4;

/// A batch of serialized collector events.
#[derive(Debug, Eq, PartialEq)]
pub struct EventBatch {
    pub events: Vec<Vec<u8>>,
}

impl View for EventBatch {
    type V = Seq<Seq<u8>>;

    open spec fn view(&self) -> Seq<Seq<u8>> {
        self.events@.map_values(|e: Vec<u8>| e@)
    }
}

/// The empty response returned when the collector stream handler completes.
#[derive(Debug, Default, Eq, PartialEq)]
pub struct CollectResponse;

/// The kind of a wire-format failure, as an RPC status code.
#[derive(Debug, Clone, Copy, Eq, PartialEq, Structural)]
pub enum WireCode {
    /// The message is malformed.
    InvalidArgument,
    /// The message exceeds a limit of the format.
    OutOfRange,
}

/// A wire-format failure: its code and a message.
#[derive(Debug, Clone, Copy, Eq, PartialEq)]
pub struct WireError {
    pub code: WireCode,
    pub message: &'static str,
}

/// Why a message could not be encoded or decoded.
#[derive(Debug, Clone, Copy, Eq, PartialEq, Structural)]
pub enum WireFailure {
    /// Encoding: more than [`MAX_EVENTS_PER_BATCH`] events.
    TooManyEventsToEncode,
    /// Encoding: an event longer than `u32::MAX` bytes.
    EventTooLarge,
    /// Decoding: fewer than four bytes, so no event count.
    MissingEventCount,
    /// Decoding: an event count above [`MAX_EVENTS_PER_BATCH`].
    TooManyEvents,
    /// Decoding: more events than the remaining bytes could frame.
    InvalidEventCount,
    /// Decoding: an event without its four length bytes.
    MissingEventLength,
    /// Decoding: an event shorter than its length.
    TruncatedEvent,
    /// Decoding: bytes after the last event.
    TrailingBytes,
}

impl WireError {
    /// The status code of this failure.
    pub fn code(&self) -> (r: WireCode)
        ensures
            r == self.code,
    {
        self.code
    }
}

/// The error reported for a failure.
pub open spec fn wire_error(f: WireFailure) -> (WireCode, Seq<char>) {
    match f {
        WireFailure::TooManyEventsToEncode => (
            WireCode::OutOfRange,
            "event batch contains too many events"@,
        ),
        WireFailure::EventTooLarge => (WireCode::OutOfRange, "event payload exceeds 4 GiB"@),
        WireFailure::MissingEventCount => (
            WireCode::InvalidArgument,
            "event batch is missing its event count"@,
        ),
        WireFailure::TooManyEvents => (
            WireCode::InvalidArgument,
            "event batch contains too many events"@,
        ),
        WireFailure::InvalidEventCount => (
            WireCode::InvalidArgument,
            "event batch contains an invalid event count"@,
        ),
        WireFailure::MissingEventLength => (
            WireCode::InvalidArgument,
            "event batch is missing an event length"@,
        ),
        WireFailure::TruncatedEvent => (WireCode::InvalidArgument, "event payload is truncated"@),
        WireFailure::TrailingBytes => (WireCode::InvalidArgument, "event batch has trailing bytes"@),
    }
}

fn error_for(f: WireFailure) -> (e: WireError)
    ensures
        (e.code, e.message@) == wire_error(f),
{
    match f {
        WireFailure::TooManyEventsToEncode => WireError {
            code: WireCode::OutOfRange,
            message: "event batch contains too many events",
        },
        WireFailure::EventTooLarge => WireError {
            code: WireCode::OutOfRange,
            message: "event payload exceeds 4 GiB",
        },
        WireFailure::MissingEventCount => WireError {
            code: WireCode::InvalidArgument,
            message: "event batch is missing its event count",
        },
        WireFailure::TooManyEvents => WireError {
            code: WireCode::InvalidArgument,
            message: "event batch contains too many events",
        },
        WireFailure::InvalidEventCount => WireError {
            code: WireCode::InvalidArgument,
            message: "event batch contains an invalid event count",
        },
        WireFailure::MissingEventLength => WireError {
            code: WireCode::InvalidArgument,
            message: "event batch is missing an event length",
        },
        WireFailure::TruncatedEvent => WireError {
            code: WireCode::InvalidArgument,
            message: "event payload is truncated",
        },
        WireFailure::TrailingBytes => WireError {
            code: WireCode::InvalidArgument,
            message: "event batch has trailing bytes",
        },
    }
}

/// The four big-endian bytes of `n`.
pub open spec fn be32(n: u32) -> Seq<u8> {
    seq![(n >> 24u32) as u8, (n >> 16u32) as u8, (n >> 8u32) as u8, n as u8]
}

/// The big-endian `u32` of four bytes.
#[verifier::opaque]
pub open spec fn be32_of(b0: u8, b1: u8, b2: u8, b3: u8) -> u32 {
    ((b0 as u32) << 24u32) | ((b1 as u32) << 16u32) | ((b2 as u32) << 8u32) | (b3 as u32)
}

/// The big-endian `u32` in the four bytes starting at `at`.
pub open spec fn be32_at(b: Seq<u8>, at: int) -> u32 {
    be32_of(b[at], b[at + 1], b[at + 2], b[at + 3])
}

/// Prepends `prefix` to the events of a parse outcome.
pub open spec fn prepend_events(
    prefix: Seq<Seq<u8>>,
    r: Result<(Seq<Seq<u8>>, int), WireFailure>,
) -> Result<(Seq<Seq<u8>>, int), WireFailure> {
    match r {
        Ok((rest, end)) => Ok((prefix + rest, end)),
        Err(f) => Err(f),
    }
}

/// The framing of events: each one's length, then its bytes.
pub open spec fn encode_events(evs: Seq<Seq<u8>>) -> Seq<u8>
    decreases evs.len(),
{
    if evs.len() == 0 {
        seq![]
    } else {
        be32(evs[0].len() as u32) + evs[0] + encode_events(evs.drop_first())
    }
}

/// The encoding of a batch: the event count, then the framed events.
pub open spec fn encode_batch(evs: Seq<Seq<u8>>) -> Seq<u8> {
    be32(evs.len() as u32) + encode_events(evs)
}

/// Whether the batch fits the format: at most [`MAX_EVENTS_PER_BATCH`] events
/// of at most `u32::MAX` bytes each.
pub open spec fn encodable(evs: Seq<Seq<u8>>) -> bool {
    &&& evs.len() <= MAX_EVENTS_PER_BATCH
    &&& forall|i: int| 0 <= i < evs.len() ==> (#[trigger] evs[i]).len() <= u32::MAX
}

/// Parses `k` framed events starting at `pos`: the events and the position
/// after them, or the first failure.
pub open spec fn decode_events(b: Seq<u8>, pos: int, k: nat) -> Result<
    (Seq<Seq<u8>>, int),
    WireFailure,
>
    decreases k,
{
    if k == 0 {
        Ok((seq![], pos))
    } else if b.len() - pos < EVENT_LENGTH_HEADER_LEN {
        Err(WireFailure::MissingEventLength)
    } else {
        let len = be32_at(b, pos) as int;
        if len > b.len() - pos - EVENT_LENGTH_HEADER_LEN {
            Err(WireFailure::TruncatedEvent)
        } else {
            prepend_events(
                seq![b.subrange(pos + EVENT_LENGTH_HEADER_LEN, pos + EVENT_LENGTH_HEADER_LEN + len)],
                decode_events(b, pos + EVENT_LENGTH_HEADER_LEN + len, (k - 1) as nat),
            )
        }
    }
}

/// Decoding of a batch: the events, or the first failure.
pub open spec fn decode_batch(b: Seq<u8>) -> Result<Seq<Seq<u8>>, WireFailure> {
    if b.len() < EVENT_BATCH_HEADER_LEN {
        Err(WireFailure::MissingEventCount)
    } else {
        let count = be32_at(b, 0) as nat;
        if count > MAX_EVENTS_PER_BATCH {
            Err(WireFailure::TooManyEvents)
        } else if count > (b.len() - EVENT_BATCH_HEADER_LEN) / EVENT_LENGTH_HEADER_LEN as int {
            Err(WireFailure::InvalidEventCount)
        } else {
            match decode_events(b, EVENT_BATCH_HEADER_LEN as int, count) {
                Ok((evs, end)) => if end < b.len() {
                    Err(WireFailure::TrailingBytes)
                } else {
                    Ok(evs)
                },
                Err(f) => Err(f),
            }
        }
    }
}

/// The encoding of an event count fails exactly when the batch does not fit
/// the format; the first failing check is reported.
pub open spec fn encode_failure(evs: Seq<Seq<u8>>) -> Option<WireFailure> {
    if evs.len() > MAX_EVENTS_PER_BATCH {
        Some(WireFailure::TooManyEventsToEncode)
    } else if exists|i: int| 0 <= i < evs.len() && (#[trigger] evs[i]).len() > u32::MAX {
        Some(WireFailure::EventTooLarge)
    } else {
        None
    }
}

/// A `u32` read back from its four big-endian bytes is itself.
pub proof fn lemma_be32_roundtrip(n: u32)
    ensures
        be32_at(be32(n), 0) == n,
{
    let b0 = (n >> 24u32) as u8;
    let b1 = (n >> 16u32) as u8;
    let b2 = (n >> 8u32) as u8;
    let b3 = n as u8;
    reveal(be32_of);
    assert(be32(n) =~= seq![b0, b1, b2, b3]);
    assert(((b0 as u32) << 24u32) | ((b1 as u32) << 16u32) | ((b2 as u32) << 8u32) | (b3 as u32)
        == n) by (bit_vector)
        requires
            b0 == (n >> 24u32) as u8,
            b1 == (n >> 16u32) as u8,
            b2 == (n >> 8u32) as u8,
            b3 == n as u8,
    ;
}

/// Four bytes are the big-endian bytes of the `u32` they hold.
pub proof fn lemma_be32_bytes(b: Seq<u8>, at: int)
    requires
        0 <= at,
        at + 4 <= b.len(),
    ensures
        be32(be32_at(b, at)) == b.subrange(at, at + 4),
{
    let b0 = b[at];
    let b1 = b[at + 1];
    let b2 = b[at + 2];
    let b3 = b[at + 3];
    reveal(be32_of);
    let n = ((b0 as u32) << 24u32) | ((b1 as u32) << 16u32) | ((b2 as u32) << 8u32) | (b3 as u32);
    assert((n >> 24u32) as u8 == b0 && (n >> 16u32) as u8 == b1 && (n >> 8u32) as u8 == b2 && n as u8
        == b3) by (bit_vector)
        requires
            n == ((b0 as u32) << 24u32) | ((b1 as u32) << 16u32) | ((b2 as u32) << 8u32) | (
            b3 as u32),
    ;
    assert(be32(be32_at(b, at)) =~= b.subrange(at, at + 4));
}

/// The frame of one event, found at `p`, holds its length and its bytes.
proof fn lemma_frame_at(b: Seq<u8>, p: int, e: Seq<u8>)
    requires
        0 <= p,
        p + 4 + e.len() <= b.len(),
        e.len() <= u32::MAX,
        b.subrange(p, p + 4 + e.len()) == be32(e.len() as u32) + e,
    ensures
        be32_at(b, p) as int == e.len(),
        b.subrange(p + 4, p + 4 + e.len()) == e,
{
    let f = be32(e.len() as u32) + e;
    assert(b[p] == f[0] && b[p + 1] == f[1] && b[p + 2] == f[2] && b[p + 3] == f[3]) by {
        assert(b.subrange(p, p + 4 + e.len())[0] == b[p]);
        assert(b.subrange(p, p + 4 + e.len())[1] == b[p + 1]);
        assert(b.subrange(p, p + 4 + e.len())[2] == b[p + 2]);
        assert(b.subrange(p, p + 4 + e.len())[3] == b[p + 3]);
    }
    lemma_be32_roundtrip(e.len() as u32);
    assert(b.subrange(p + 4, p + 4 + e.len()) =~= e) by {
        assert forall|i: int| 0 <= i < e.len() implies b.subrange(p + 4, p + 4 + e.len())[i]
            == e[i] by {
            assert(b.subrange(p, p + 4 + e.len())[4 + i] == f[4 + i]);
        }
    }
}

/// Decoding the framing of events that fit the format, placed after any
/// prefix and before any suffix, gives the events back and stops after them.
pub proof fn lemma_decode_encoded_events(prefix: Seq<u8>, evs: Seq<Seq<u8>>, suffix: Seq<u8>)
    requires
        forall|i: int| 0 <= i < evs.len() ==> (#[trigger] evs[i]).len() <= u32::MAX,
    ensures
        decode_events(prefix + encode_events(evs) + suffix, prefix.len() as int, evs.len()) == Ok::<
            (Seq<Seq<u8>>, int),
            WireFailure,
        >((evs, (prefix.len() + encode_events(evs).len()) as int)),
    decreases evs.len(),
{
    let b = prefix + encode_events(evs) + suffix;
    let p = prefix.len() as int;
    if evs.len() > 0 {
        let e = evs[0];
        let rest = evs.drop_first();
        let head = be32(e.len() as u32) + e;
        assert(encode_events(evs) == head + encode_events(rest));
        assert forall|i: int| 0 <= i < rest.len() implies (#[trigger] rest[i]).len() <= u32::MAX by {
            assert(rest[i] == evs[i + 1]);
        }
        lemma_decode_encoded_events(prefix + head, rest, suffix);
        assert(prefix + head + encode_events(rest) + suffix =~= b);
        assert(b.subrange(p, p + 4 + e.len()) =~= head);
        lemma_frame_at(b, p, e);
        let end = (p + encode_events(evs).len()) as int;
        let next = decode_events(b, p + 4 + e.len(), rest.len());
        assert(next == Ok::<(Seq<Seq<u8>>, int), WireFailure>((rest, end)));
        assert(seq![e] + rest =~= evs);
        assert(decode_events(b, p, evs.len()) == prepend_events(seq![e], next));
    } else {
        assert(encode_events(evs) =~= Seq::<u8>::empty());
        assert(evs =~= Seq::<Seq<u8>>::empty());
    }
}

/// Decoding what was encoded gives the batch back.
pub proof fn lemma_decode_encode(evs: Seq<Seq<u8>>)
    requires
        encodable(evs),
    ensures
        decode_batch(encode_batch(evs)) == Ok::<Seq<Seq<u8>>, WireFailure>(evs),
{
    let b = encode_batch(evs);
    lemma_batch_count(evs);
    lemma_batch_events(evs);
    lemma_encoded_events_len(evs);
    let count = be32_at(b, 0) as nat;
    let len = b.len() as int;
    assert(count <= (len - 4) / 4) by (nonlinear_arith)
        requires
            len - 4 >= 4 * count,
    ;
}

/// The count field of an encoded batch holds its number of events.
proof fn lemma_batch_count(evs: Seq<Seq<u8>>)
    requires
        encodable(evs),
    ensures
        be32_at(encode_batch(evs), 0) as int == evs.len(),
        encode_batch(evs).len() == 4 + encode_events(evs).len(),
{
    let b = encode_batch(evs);
    let h = be32(evs.len() as u32);
    lemma_be32_roundtrip(evs.len() as u32);
    assert(b[0] == h[0] && b[1] == h[1] && b[2] == h[2] && b[3] == h[3]);
}

/// The events of an encoded batch decode to the batch, up to its end.
proof fn lemma_batch_events(evs: Seq<Seq<u8>>)
    requires
        encodable(evs),
    ensures
        decode_events(encode_batch(evs), 4, evs.len()) == Ok::<(Seq<Seq<u8>>, int), WireFailure>(
            (evs, encode_batch(evs).len() as int),
        ),
{
    let h = be32(evs.len() as u32);
    lemma_decode_encoded_events(h, evs, seq![]);
    assert(h + encode_events(evs) + seq![] =~= encode_batch(evs));
}

/// The framing of events takes at least four bytes per event.
pub proof fn lemma_encoded_events_len(evs: Seq<Seq<u8>>)
    ensures
        encode_events(evs).len() >= 4 * evs.len(),
    decreases evs.len(),
{
    if evs.len() > 0 {
        lemma_encoded_events_len(evs.drop_first());
    }
}

/// What decoded from the framing of `k` events starting at `pos` is framed
/// back exactly by those bytes.
pub proof fn lemma_encode_decoded_events(b: Seq<u8>, pos: int, k: nat)
    requires
        0 <= pos <= b.len(),
        decode_events(b, pos, k) is Ok,
    ensures
        ({
            let (evs, end) = decode_events(b, pos, k)->Ok_0;
            &&& pos <= end <= b.len()
            &&& evs.len() == k
            &&& b.subrange(pos, end) == encode_events(evs)
            &&& forall|i: int| 0 <= i < evs.len() ==> (#[trigger] evs[i]).len() <= u32::MAX
        }),
    decreases k,
{
    if k > 0 {
        let len = be32_at(b, pos) as int;
        let next = pos + 4 + len;
        lemma_encode_decoded_events(b, next, (k - 1) as nat);
        let (rest, end) = decode_events(b, next, (k - 1) as nat)->Ok_0;
        let e = b.subrange(pos + 4, next);
        let evs = seq![e] + rest;
        lemma_be32_bytes(b, pos);
        assert(evs.drop_first() =~= rest);
        assert(evs[0] == e);
        assert(b.subrange(pos, end) =~= b.subrange(pos, pos + 4) + e + b.subrange(next, end));
        assert forall|i: int| 0 <= i < evs.len() implies (#[trigger] evs[i]).len() <= u32::MAX by {
            if i > 0 {
                assert(evs[i] == rest[i - 1]);
            }
        }
    } else {
        assert(b.subrange(pos, pos) =~= Seq::<u8>::empty());
    }
}

/// A batch that decodes is encoded back by exactly the bytes it came from.
pub proof fn lemma_encode_decode(b: Seq<u8>)
    requires
        decode_batch(b) is Ok,
    ensures
        encodable(decode_batch(b)->Ok_0),
        encode_batch(decode_batch(b)->Ok_0) == b,
{
    let count = be32_at(b, 0) as nat;
    lemma_encode_decoded_events(b, 4, count);
    let (evs, end) = decode_events(b, 4, count)->Ok_0;
    lemma_be32_bytes(b, 0);
    assert(evs.len() as u32 == be32_at(b, 0));
    assert(b =~= b.subrange(0, 4) + b.subrange(4, end));
}

impl EventBatch {
    /// Appends the encoding of this batch to `dst`.
    ///
    /// Fails, leaving `dst` unchanged, when the batch holds more than
    /// [`MAX_EVENTS_PER_BATCH`] events or an event longer than `u32::MAX`.
    pub fn encode(self, dst: &mut Vec<u8>) -> (r: Result<(), WireError>)
        ensures
            match encode_failure(self@) {
                Some(f) => r matches Err(e) && (e.code, e.message@) == wire_error(f) && final(dst)@
                    == old(dst)@,
                None => r is Ok && final(dst)@ == old(dst)@ + encode_batch(self@),
            },
    {
        let ghost evs = self@;
        if self.events.len() > MAX_EVENTS_PER_BATCH {
            return Err(error_for(WireFailure::TooManyEventsToEncode));
        }
        let mut i: usize = 0;
        while i < self.events.len()
            invariant
                evs == self@,
                self.events.len() <= MAX_EVENTS_PER_BATCH,
                i <= self.events.len(),
                forall|j: int| 0 <= j < i ==> (#[trigger] evs[j]).len() <= u32::MAX,
            decreases self.events.len() - i,
        {
            if self.events[i].len() > 0xFFFF_FFFF {
                assert(evs[i as int].len() > u32::MAX);
                assert(exists|j: int| 0 <= j < evs.len() && (#[trigger] evs[j]).len() > u32::MAX);
                assert(encode_failure(evs) == Some(WireFailure::EventTooLarge));
                return Err(error_for(WireFailure::EventTooLarge));
            }
            i = i + 1;
        }
        let ghost start = dst@;
        push_be32(dst, self.events.len() as u32);
        let mut i: usize = 0;
        while i < self.events.len()
            invariant
                evs == self@,
                i <= self.events.len(),
                forall|j: int| 0 <= j < evs.len() ==> (#[trigger] evs[j]).len() <= u32::MAX,
                dst@ == start + be32(evs.len() as u32) + encode_events(evs.take(i as int)),
            decreases self.events.len() - i,
        {
            let ghost before = dst@;
            push_be32(dst, self.events[i].len() as u32);
            dst.extend_from_slice(self.events[i].as_slice());
            proof {
                lemma_encode_events_push(evs.take(i as int), evs[i as int]);
                assert(evs.take(i + 1) =~= evs.take(i as int).push(evs[i as int]));
                assert(dst@ =~= before + be32(evs[i as int].len() as u32) + evs[i as int]);
            }
            i = i + 1;
        }
        assert(evs.take(self.events.len() as int) =~= evs);
        Ok(())
    }

    /// Decodes a whole message into a batch.
    pub fn decode(src: &[u8]) -> (r: Result<EventBatch, WireError>)
        ensures
            match decode_batch(src@) {
                Ok(evs) => r matches Ok(batch) && batch@ == evs,
                Err(f) => r matches Err(e) && (e.code, e.message@) == wire_error(f),
            },
    {
        let ghost b = src@;
        if src.len() < EVENT_BATCH_HEADER_LEN {
            return Err(error_for(WireFailure::MissingEventCount));
        }
        let count = read_be32(src, 0) as usize;
        if count > MAX_EVENTS_PER_BATCH {
            return Err(error_for(WireFailure::TooManyEvents));
        }
        if count > (src.len() - EVENT_BATCH_HEADER_LEN) / EVENT_LENGTH_HEADER_LEN {
            return Err(error_for(WireFailure::InvalidEventCount));
        }
        let mut events: Vec<Vec<u8>> = Vec::new();
        let mut pos: usize = EVENT_BATCH_HEADER_LEN;
        let mut k: usize = 0;
        while k < count
            invariant
                b == src@,
                b.len() >= 4,
                count == be32_at(b, 0),
                count <= (b.len() - 4) / 4,
                4 <= pos <= b.len(),
                k <= count,
                count <= MAX_EVENTS_PER_BATCH,
                decode_events(b, 4, count as nat) == prepend_events(
                    events@.map_values(|e: Vec<u8>| e@),
                    decode_events(b, pos as int, (count - k) as nat),
                ),
            decreases count - k,
        {
            if src.len() - pos < EVENT_LENGTH_HEADER_LEN {
                assert(decode_events(b, pos as int, (count - k) as nat) == Err::<
                    (Seq<Seq<u8>>, int),
                    WireFailure,
                >(WireFailure::MissingEventLength));
                assert(decode_batch(b) == Err::<Seq<Seq<u8>>, WireFailure>(
                    WireFailure::MissingEventLength,
                ));
                return Err(error_for(WireFailure::MissingEventLength));
            }
            let len = read_be32(src, pos) as usize;
            if len > src.len() - pos - EVENT_LENGTH_HEADER_LEN {
                assert(decode_events(b, pos as int, (count - k) as nat) == Err::<
                    (Seq<Seq<u8>>, int),
                    WireFailure,
                >(WireFailure::TruncatedEvent));
                assert(decode_batch(b) == Err::<Seq<Seq<u8>>, WireFailure>(
                    WireFailure::TruncatedEvent,
                ));
                return Err(error_for(WireFailure::TruncatedEvent));
            }
            let start = pos + EVENT_LENGTH_HEADER_LEN;
            let event = slice_to_vec(&src[start..start + len]);
            let ghost before = events@;
            events.push(event);
            proof {
                let sub = b.subrange(start as int, start + len);
                let ev = before.map_values(|e: Vec<u8>| e@);
                assert(events@.map_values(|e: Vec<u8>| e@) =~= ev + seq![sub]);
                let next = decode_events(b, start + len, (count - k - 1) as nat);
                assert(decode_events(b, pos as int, (count - k) as nat) == prepend_events(
                    seq![sub],
                    next,
                ));
                match next {
                    Ok((rest, end)) => {
                        assert(ev + (seq![sub] + rest) =~= (ev + seq![sub]) + rest);
                    },
                    Err(f) => {},
                }
            }
            pos = start + len;
            k = k + 1;
        }
        assert(events@.map_values(|e: Vec<u8>| e@) + seq![] =~= events@.map_values(
            |e: Vec<u8>| e@,
        ));
        if pos < src.len() {
            return Err(error_for(WireFailure::TrailingBytes));
        }
        Ok(EventBatch { events })
    }
}

/// The framing of events grows by one event's frame at the end.
proof fn lemma_encode_events_push(evs: Seq<Seq<u8>>, e: Seq<u8>)
    ensures
        encode_events(evs.push(e)) == encode_events(evs) + be32(e.len() as u32) + e,
    decreases evs.len(),
{
    if evs.len() == 0 {
        assert(evs.push(e).drop_first() =~= Seq::<Seq<u8>>::empty());
        assert(evs.push(e)[0] == e);
        assert(encode_events(evs.push(e).drop_first()) =~= Seq::<u8>::empty());
        assert(encode_events(evs) =~= Seq::<u8>::empty());
        assert(encode_events(evs.push(e)) =~= be32(e.len() as u32) + e);
    } else {
        lemma_encode_events_push(evs.drop_first(), e);
        assert(evs.push(e).drop_first() =~= evs.drop_first().push(e));
        assert(evs.push(e)[0] == evs[0]);
        assert(encode_events(evs.push(e)) =~= encode_events(evs) + be32(e.len() as u32) + e);
    }
}

/// Appends the four big-endian bytes of `n`.
fn push_be32(dst: &mut Vec<u8>, n: u32)
    ensures
        final(dst)@ == old(dst)@ + be32(n),
{
    dst.push((n >> 24u32) as u8);
    dst.push((n >> 16u32) as u8);
    dst.push((n >> 8u32) as u8);
    dst.push(n as u8);
    assert(dst@ =~= old(dst)@ + be32(n));
}

/// The big-endian `u32` in the four bytes starting at `at`.
fn read_be32(src: &[u8], at: usize) -> (r: u32)
    requires
        at + 4 <= src@.len(),
    ensures
        r == be32_at(src@, at as int),
{
    reveal(be32_of);
    ((src[at] as u32) << 24u32) | ((src[at + 1] as u32) << 16u32) | ((src[at + 2] as u32) << 8u32)
        | (src[at + 3] as u32)
}

impl CollectResponse {
    /// The encoding of the response: no bytes at all.
    pub fn encode(self, dst: &mut Vec<u8>) -> (r: Result<(), WireError>)
        ensures
            r is Ok,
            final(dst)@ == old(dst)@,
    {
        Ok(())
    }

    /// Decodes the response, which must carry no bytes.
    pub fn decode(src: &[u8]) -> (r: Result<CollectResponse, WireError>)
        ensures
            r is Ok <==> src@.len() == 0,
            r matches Err(e) ==> e.code == WireCode::InvalidArgument && e.message@
                == "collector response has trailing bytes"@,
    {
        if src.len() > 0 {
            return Err(
                WireError {
                    code: WireCode::InvalidArgument,
                    message: "collector response has trailing bytes",
                },
            );
        }
        Ok(CollectResponse)
    }
}

} // verus!
