//! Buffering and batching options of a collector client, and the buffer that
//! groups serialized events into batches.
use core::time::Duration;
use vstd::prelude::*;

use super::wire::{
    EventBatch, EVENT_BATCH_HEADER_LEN, EVENT_LENGTH_HEADER_LEN, MAX_EVENTS_PER_BATCH,
};

verus! {

/// The length of a duration in nanoseconds.
pub uninterp spec fn duration_nanos(d: Duration) -> u128;

/// The total number of nanoseconds of a duration.
///
/// Trusted: `Duration::as_nanos`, which the standard library documents as
/// returning the total number of nanoseconds the duration contains.
#[verifier::external_body]
pub(crate) fn duration_as_nanos(d: &Duration) -> (r: u128)
    ensures
        r == duration_nanos(*d),
{
    d.as_nanos()
}

/// A duration of `ms` milliseconds.
///
/// Trusted: `Duration::from_millis`, which the standard library documents as
/// creating a duration of the given number of milliseconds.
#[verifier::external_body]
fn duration_from_millis(ms: u64) -> (d: Duration)
    ensures
        duration_nanos(d) == ms * 1_000_000,
{
    Duration::from_millis(ms)
}

/// Default maximum number of events waiting to be serialized.
pub const DEFAULT_EVENT_CHANNEL_CAPACITY: usize = 1024;

/// Default maximum number of encoded batches waiting to be sent.
pub const DEFAULT_BATCH_CHANNEL_CAPACITY: usize = 1024;

/// Default preferred encoded size of a batch (4 MiB).
pub const DEFAULT_BATCH_TARGET_ENCODED_LEN: usize = 4194304;

/// Default maximum number of events in one batch.
pub const DEFAULT_MAX_EVENTS_PER_BATCH: usize = 65536;

/// Default time a non-empty partial batch waits before being sent, in
/// milliseconds.
pub const DEFAULT_BATCH_FLUSH_INTERVAL_MS: u64 = 128;

/// The smallest useful batch target: a batch header and one empty framed
/// event.
pub open spec fn min_batch_encoded_len() -> nat {
    (EVENT_BATCH_HEADER_LEN + EVENT_LENGTH_HEADER_LEN) as nat
}

/// Errors of the collector client's options and batching.
#[derive(Debug, Clone, PartialEq, Eq)]
pub enum CollectorError {
    /// The batch target is below a header and one framed event, or above
    /// what the `u32` length prefix allows.
    InvalidBatchEncodedLen { actual: usize, minimum: usize, maximum: usize },
    /// The maximum number of events per batch is zero or above the wire
    /// format's limit.
    InvalidBatchEventCount { actual: usize, maximum: usize },
    /// The event channel has no capacity.
    InvalidEventChannelCapacity,
    /// The batch channel has no capacity.
    InvalidBatchChannelCapacity,
    /// The flush interval is zero.
    InvalidBatchFlushInterval,
    /// The collector could not be reached.
    Connect(String),
    /// An event could not be queued.
    SendError(String),
}

/// The attempts a client makes to connect to a collector before giving up.
pub const MAX_CONNECT_ATTEMPTS: usize = 42;

/// The reason a client gives when it gives up connecting.
pub const CONNECT_GIVE_UP_MESSAGE: &'static str = "failed to connect after 42 attempts...";

/// What a client does after a failed attempt to connect: it pauses, then
/// tries again or gives up.
#[derive(Debug, Clone, Copy, PartialEq, Eq, Structural)]
pub enum ConnectStep {
    /// Pause, then make the next attempt.
    RetryAfterPause,
    /// Pause, then give up with [`connect_give_up_error`].
    GiveUpAfterPause,
}

/// The step after the `attempt`-th failed attempt to connect, counting from
/// one: the client tries again until it has made [`MAX_CONNECT_ATTEMPTS`]
/// attempts.
pub fn after_failed_connect(attempt: usize) -> (step: ConnectStep)
    ensures
        step == if attempt < MAX_CONNECT_ATTEMPTS {
            ConnectStep::RetryAfterPause
        } else {
            ConnectStep::GiveUpAfterPause
        },
{
    if attempt < MAX_CONNECT_ATTEMPTS {
        ConnectStep::RetryAfterPause
    } else {
        ConnectStep::GiveUpAfterPause
    }
}

/// The error of a client that gave up connecting.
pub fn connect_give_up_error() -> (e: CollectorError)
    ensures
        e matches CollectorError::Connect(m) && m@ == CONNECT_GIVE_UP_MESSAGE@,
{
    CollectorError::Connect(CONNECT_GIVE_UP_MESSAGE.to_string())
}

/// Controls collector client buffering and batching.
///
/// Defaults to 1,024 events and batches per channel, a 4 MiB batch target,
/// 65,536 events per batch, and a 128 ms flush interval.
#[derive(Clone, Copy, Debug)]
pub struct ClientOptions {
    /// Maximum events waiting to be serialized.
    pub event_channel_capacity: usize,
    /// Maximum encoded batches waiting to enter the gRPC stream.
    pub batch_channel_capacity: usize,
    /// Preferred maximum encoded size of an ordinary batch.
    pub batch_target_encoded_len: usize,
    /// Maximum number of events placed in one batch.
    pub max_events_per_batch: usize,
    /// Maximum time a non-empty partial batch waits before being sent.
    pub batch_flush_interval: Duration,
}

impl Default for ClientOptions {
    fn default() -> (r: Self)
        ensures
            r.event_channel_capacity == DEFAULT_EVENT_CHANNEL_CAPACITY,
            r.batch_channel_capacity == DEFAULT_BATCH_CHANNEL_CAPACITY,
            r.batch_target_encoded_len == DEFAULT_BATCH_TARGET_ENCODED_LEN,
            r.max_events_per_batch == DEFAULT_MAX_EVENTS_PER_BATCH,
            duration_nanos(r.batch_flush_interval) == DEFAULT_BATCH_FLUSH_INTERVAL_MS * 1_000_000,
    {
        ClientOptions {
            event_channel_capacity: DEFAULT_EVENT_CHANNEL_CAPACITY,
            batch_channel_capacity: DEFAULT_BATCH_CHANNEL_CAPACITY,
            batch_target_encoded_len: DEFAULT_BATCH_TARGET_ENCODED_LEN,
            max_events_per_batch: DEFAULT_MAX_EVENTS_PER_BATCH,
            batch_flush_interval: duration_from_millis(DEFAULT_BATCH_FLUSH_INTERVAL_MS),
        }
    }
}

/// The error of the first option that is out of range, if any.
pub open spec fn options_error(o: ClientOptions) -> Option<CollectorError> {
    if o.event_channel_capacity == 0 {
        Some(CollectorError::InvalidEventChannelCapacity)
    } else if o.batch_channel_capacity == 0 {
        Some(CollectorError::InvalidBatchChannelCapacity)
    } else if !(min_batch_encoded_len() <= o.batch_target_encoded_len <= u32::MAX) {
        Some(
            CollectorError::InvalidBatchEncodedLen {
                actual: o.batch_target_encoded_len,
                minimum: min_batch_encoded_len() as usize,
                maximum: u32::MAX as usize,
            },
        )
    } else if !(1 <= o.max_events_per_batch <= MAX_EVENTS_PER_BATCH) {
        Some(
            CollectorError::InvalidBatchEventCount {
                actual: o.max_events_per_batch,
                maximum: MAX_EVENTS_PER_BATCH,
            },
        )
    } else if duration_nanos(o.batch_flush_interval) == 0 {
        Some(CollectorError::InvalidBatchFlushInterval)
    } else {
        None
    }
}

impl ClientOptions {
    /// Sets the maximum number of events waiting to be serialized.
    ///
    /// A zero capacity is rejected by [`ClientOptions::validate`].
    pub fn with_event_channel_capacity(self, capacity: usize) -> (r: Self)
        ensures
            r == (ClientOptions { event_channel_capacity: capacity, ..self }),
    {
        ClientOptions { event_channel_capacity: capacity, ..self }
    }

    /// Sets the maximum number of encoded batches waiting to enter the gRPC
    /// stream.
    ///
    /// A zero capacity is rejected by [`ClientOptions::validate`].
    pub fn with_batch_channel_capacity(self, capacity: usize) -> (r: Self)
        ensures
            r == (ClientOptions { batch_channel_capacity: capacity, ..self }),
    {
        ClientOptions { batch_channel_capacity: capacity, ..self }
    }

    /// Sets the preferred encoded size of an ordinary batch.
    ///
    /// The target must fit the `u32` gRPC length prefix and have room for one
    /// empty framed event.
    pub fn with_batch_target_encoded_len(self, target_encoded_len: usize) -> (r: Self)
        ensures
            r == (ClientOptions { batch_target_encoded_len: target_encoded_len, ..self }),
    {
        ClientOptions { batch_target_encoded_len: target_encoded_len, ..self }
    }

    /// Sets the maximum number of events placed in one batch.
    ///
    /// The value must be between 1 and 65,536 inclusive.
    pub fn with_max_events_per_batch(self, max_events: usize) -> (r: Self)
        ensures
            r == (ClientOptions { max_events_per_batch: max_events, ..self }),
    {
        ClientOptions { max_events_per_batch: max_events, ..self }
    }

    /// Sets the maximum time a non-empty partial batch waits before being
    /// sent.
    ///
    /// A zero duration is rejected by [`ClientOptions::validate`].
    pub fn with_batch_flush_interval(self, interval: Duration) -> (r: Self)
        ensures
            r == (ClientOptions { batch_flush_interval: interval, ..self }),
    {
        ClientOptions { batch_flush_interval: interval, ..self }
    }

    /// Checks every option, reporting the first that is out of range.
    pub fn validate(&self) -> (r: Result<(), CollectorError>)
        ensures
            match options_error(*self) {
                Some(e) => r == Err::<(), CollectorError>(e),
                None => r is Ok,
            },
    {
        if self.event_channel_capacity == 0 {
            return Err(CollectorError::InvalidEventChannelCapacity);
        }
        if self.batch_channel_capacity == 0 {
            return Err(CollectorError::InvalidBatchChannelCapacity);
        }
        let min_batch_encoded_len = EVENT_BATCH_HEADER_LEN + EVENT_LENGTH_HEADER_LEN;
        let maximum: u64 = 0xFFFF_FFFF;
        if self.batch_target_encoded_len < min_batch_encoded_len || self.batch_target_encoded_len
            as u64 > maximum {
            return Err(
                CollectorError::InvalidBatchEncodedLen {
                    actual: self.batch_target_encoded_len,
                    minimum: min_batch_encoded_len,
                    maximum: maximum as usize,
                },
            );
        }
        if self.max_events_per_batch < 1 || self.max_events_per_batch > MAX_EVENTS_PER_BATCH {
            return Err(
                CollectorError::InvalidBatchEventCount {
                    actual: self.max_events_per_batch,
                    maximum: MAX_EVENTS_PER_BATCH,
                },
            );
        }
        if duration_as_nanos(&self.batch_flush_interval) == 0 {
            return Err(CollectorError::InvalidBatchFlushInterval);
        }
        Ok(())
    }
}

/// The encoded size of a batch of `evs`: its header, and each event's length
/// field and bytes.
pub open spec fn framed_len(evs: Seq<Seq<u8>>) -> nat
    decreases evs.len(),
{
    if evs.len() == 0 {
        EVENT_BATCH_HEADER_LEN as nat
    } else {
        framed_len(evs.drop_last()) + EVENT_LENGTH_HEADER_LEN as nat + evs.last().len()
    }
}

/// The least of `n` and `usize::MAX`: what saturating additions of
/// non-negative sizes reach.
pub open spec fn saturate(n: nat) -> nat {
    if n > usize::MAX {
        usize::MAX as nat
    } else {
        n
    }
}

/// The batch channel closed before a batch could be queued.
#[derive(Debug, Clone, Copy, PartialEq, Eq)]
pub struct BatchChannelClosed {
    /// Events in the batch that the closed channel did not accept; the count
    /// quantifies the minimum delivery loss.
    pub unsent_events: usize,
}

/// An error-level log event: a message with the number of undelivered events.
#[derive(Debug, Clone, Copy, PartialEq, Eq)]
pub struct DeliveryLossLog {
    pub unsent_events: usize,
    pub message: &'static str,
}

/// The message logged when the batch channel closes.
pub const BATCH_CHANNEL_CLOSED_MESSAGE: &'static str =
    "collector stream ended before a batch could be queued; the batch and any remaining buffered events will not be delivered";

impl BatchChannelClosed {
    /// The error to log for this closure: the fixed message, with the number
    /// of unsent events as a field.
    pub fn log(self) -> (event: DeliveryLossLog)
        ensures
            event.unsent_events == self.unsent_events,
            event.message == BATCH_CHANNEL_CLOSED_MESSAGE,
    {
        DeliveryLossLog { unsent_events: self.unsent_events, message: BATCH_CHANNEL_CLOSED_MESSAGE }
    }
}

/// Serialized events waiting for the next batch.
#[derive(Debug)]
pub struct EventBatchBuffer {
    /// Serialized events waiting for the next gRPC message.
    events: Vec<Vec<u8>>,
    /// Encoded size of the pending events plus their framing (saturated).
    encoded_len: usize,
    /// Encoded size at which a batch should be flushed.
    target_encoded_len: usize,
    /// Largest event count accepted in one batch.
    max_events: usize,
}

impl View for EventBatchBuffer {
    type V = Seq<Seq<u8>>;

    closed spec fn view(&self) -> Seq<Seq<u8>> {
        self.events@.map_values(|e: Vec<u8>| e@)
    }
}

/// Whether a batch keeps to the limits: at most `max` events, and within the
/// target encoded size unless it is a single event.
pub open spec fn within_limits(evs: Seq<Seq<u8>>, target: nat, max: nat) -> bool {
    &&& evs.len() <= max
    &&& (saturate(framed_len(evs)) <= target || evs.len() <= 1)
}

/// The outcome of pushing `e` onto the buffered events `evs`: the batch taken
/// out first, if any, and the events buffered afterwards. The buffered
/// events are taken out when there are already `max` of them or when `e`
/// would take their batch past `target` bytes.
pub open spec fn pushed(evs: Seq<Seq<u8>>, e: Seq<u8>, target: nat, max: nat) -> (
    Option<Seq<Seq<u8>>>,
    Seq<Seq<u8>>,
) {
    if evs.len() >= max || saturate(framed_len(evs.push(e))) > target {
        (if evs.len() > 0 {
            Some(evs)
        } else {
            None
        }, seq![e])
    } else {
        (None, evs.push(e))
    }
}

/// Law: pushing an event loses, duplicates and reorders nothing: the batch
/// taken out, followed by the events buffered afterwards, are the events
/// buffered before followed by the new one. A batch taken out of a buffer
/// that keeps to its limits keeps to them too.
pub proof fn law_push_keeps_events_in_order(evs: Seq<Seq<u8>>, e: Seq<u8>, target: nat, max: nat)
    ensures
        ({
            let (flushed, kept) = pushed(evs, e, target, max);
            &&& (match flushed {
                Some(batch) => batch,
                None => Seq::<Seq<u8>>::empty(),
            }) + kept == evs.push(e)
            &&& within_limits(evs, target, max) ==> match flushed {
                Some(batch) => within_limits(batch, target, max),
                None => true,
            }
        }),
{
    let (flushed, kept) = pushed(evs, e, target, max);
    if evs.len() >= max || saturate(framed_len(evs.push(e))) > target {
        if evs.len() > 0 {
            assert(evs + seq![e] =~= evs.push(e));
        } else {
            assert(Seq::<Seq<u8>>::empty() + seq![e] =~= evs.push(e));
        }
    } else {
        assert(Seq::<Seq<u8>>::empty() + evs.push(e) =~= evs.push(e));
    }
}

/// Law: below the machine's size limit the saturating sizes are exact: an
/// event framed alone takes 8 bytes more than its length, adding it to a
/// batch adds 4 bytes more than its length, and it joins the buffered events
/// exactly when they are fewer than `max` and their batch with it takes at
/// most `target` bytes.
pub proof fn law_push_sizes_exact(evs: Seq<Seq<u8>>, e: Seq<u8>, target: nat, max: nat)
    requires
        framed_len(evs.push(e)) <= usize::MAX,
    ensures
        saturate(framed_len(seq![e])) == EVENT_BATCH_HEADER_LEN + EVENT_LENGTH_HEADER_LEN + e.len(),
        framed_len(evs.push(e)) == framed_len(evs) + EVENT_LENGTH_HEADER_LEN + e.len(),
        pushed(evs, e, target, max) == if evs.len() >= max || framed_len(evs.push(e)) > target {
            (
                if evs.len() > 0 {
                    Some(evs)
                } else {
                    None
                },
                seq![e],
            )
        } else {
            (None, evs.push(e))
        },
{
    lemma_framed_len_push(evs, e);
    lemma_framed_len_single(e);
    lemma_framed_len_header(evs);
}

/// A batch takes at least its header.
proof fn lemma_framed_len_header(evs: Seq<Seq<u8>>)
    ensures
        framed_len(evs) >= EVENT_BATCH_HEADER_LEN,
    decreases evs.len(),
{
    if evs.len() > 0 {
        lemma_framed_len_header(evs.drop_last());
    }
}

/// The batches that a sequence of operations takes out of a buffer holding
/// `evs`, in order, and the events buffered afterwards. `Some(e)` pushes the
/// serialized event `e`; `None` takes the buffered events out, as a timer
/// flush or the flush at shutdown does.
pub open spec fn run_buffer(
    evs: Seq<Seq<u8>>,
    ops: Seq<Option<Seq<u8>>>,
    target: nat,
    max: nat,
) -> (Seq<Seq<Seq<u8>>>, Seq<Seq<u8>>)
    decreases ops.len(),
{
    if ops.len() == 0 {
        (Seq::empty(), evs)
    } else {
        let (batches, kept) = run_buffer(evs, ops.drop_last(), target, max);
        match ops.last() {
            Some(e) => {
                let (flushed, rest) = pushed(kept, e, target, max);
                (
                    match flushed {
                        Some(batch) => batches.push(batch),
                        None => batches,
                    },
                    rest,
                )
            },
            None => (
                if kept.len() > 0 {
                    batches.push(kept)
                } else {
                    batches
                },
                Seq::empty(),
            ),
        }
    }
}

/// The events that `ops` pushes, in order.
pub open spec fn pushed_events(ops: Seq<Option<Seq<u8>>>) -> Seq<Seq<u8>> {
    ops.filter_map(|op: Option<Seq<u8>>| op)
}

/// Law: whatever the interleaving of sends, timer flushes and the flush at
/// shutdown, a stream of events sent through an empty buffer arrives whole
/// and in order: the batches taken out, followed by the events still
/// buffered, are the events pushed, and after a final flush nothing is left
/// buffered. Every batch is non-empty and keeps to the limits: at most `max`
/// events, and within `target` bytes unless it holds a single event.
pub proof fn law_buffer_keeps_the_stream(ops: Seq<Option<Seq<u8>>>, target: nat, max: nat)
    requires
        max >= 1,
    ensures
        ({
            let (batches, kept) = run_buffer(Seq::empty(), ops, target, max);
            &&& batches.flatten() + kept == pushed_events(ops)
            &&& ops.len() > 0 && ops.last() is None ==> kept.len() == 0
                && batches.flatten() == pushed_events(ops)
            &&& forall|i: int|
                0 <= i < batches.len() ==> (#[trigger] batches[i]).len() > 0 && within_limits(
                    batches[i],
                    target,
                    max,
                )
        }),
{
    let (batches, kept) = run_buffer(Seq::empty(), ops, target, max);
    lemma_run_buffer(ops, target, max);
    if ops.len() > 0 && ops.last() is None {
        assert(batches.flatten() + kept =~= batches.flatten());
    }
}

/// What [`law_buffer_keeps_the_stream`] rests on: the events buffered keep
/// to the limits too.
proof fn lemma_run_buffer(ops: Seq<Option<Seq<u8>>>, target: nat, max: nat)
    requires
        max >= 1,
    ensures
        ({
            let (batches, kept) = run_buffer(Seq::empty(), ops, target, max);
            &&& batches.flatten() + kept == pushed_events(ops)
            &&& within_limits(kept, target, max)
            &&& forall|i: int|
                0 <= i < batches.len() ==> (#[trigger] batches[i]).len() > 0 && within_limits(
                    batches[i],
                    target,
                    max,
                )
        }),
    decreases ops.len(),
{
    let (batches, kept) = run_buffer(Seq::empty(), ops, target, max);
    let id = |op: Option<Seq<u8>>| op;
    if ops.len() == 0 {
        assert(pushed_events(ops) =~= Seq::<Seq<u8>>::empty());
        assert(batches.flatten() + kept =~= Seq::<Seq<u8>>::empty());
        assert(framed_len(Seq::<Seq<u8>>::empty()) == EVENT_BATCH_HEADER_LEN);
    } else {
        let init = ops.drop_last();
        lemma_run_buffer(init, target, max);
        let (b0, k0) = run_buffer(Seq::empty(), init, target, max);
        assert(pushed_events(init) == init.filter_map(id));
        match ops.last() {
            Some(e) => {
                assert(pushed_events(ops) == pushed_events(init) + seq![e]);
                law_push_keeps_events_in_order(k0, e, target, max);
                let (flushed, rest) = pushed(k0, e, target, max);
                assert(kept == rest);
                if k0.len() >= max || saturate(framed_len(k0.push(e))) > target {
                    assert(rest == seq![e]);
                    assert(framed_len(Seq::<Seq<u8>>::empty()) == EVENT_BATCH_HEADER_LEN);
                } else {
                    assert(rest == k0.push(e));
                }
                match flushed {
                    Some(batch) => {
                        assert(batches == b0.push(batch));
                        b0.lemma_flatten_push(batch);
                        assert(batch == k0);
                        assert(batches.flatten() + kept =~= b0.flatten() + k0 + seq![e]);
                        assert forall|i: int| 0 <= i < batches.len() implies (
                        #[trigger] batches[i]).len() > 0 && within_limits(batches[i], target, max) by {
                            if i < b0.len() {
                                assert(batches[i] == b0[i]);
                            }
                        }
                    },
                    None => {
                        assert(batches == b0);
                        assert(batches.flatten() + kept =~= b0.flatten() + k0 + seq![e]);
                    },
                }
            },
            None => {
                assert(pushed_events(ops) == pushed_events(init));
                assert(kept == Seq::<Seq<u8>>::empty());
                assert(framed_len(Seq::<Seq<u8>>::empty()) == EVENT_BATCH_HEADER_LEN);
                if k0.len() > 0 {
                    assert(batches == b0.push(k0));
                    b0.lemma_flatten_push(k0);
                    assert(batches.flatten() + kept =~= b0.flatten() + k0);
                    assert forall|i: int| 0 <= i < batches.len() implies (
                    #[trigger] batches[i]).len() > 0 && within_limits(batches[i], target, max) by {
                        if i < b0.len() {
                            assert(batches[i] == b0[i]);
                        }
                    }
                } else {
                    assert(batches == b0);
                    assert(batches.flatten() + kept =~= b0.flatten() + k0);
                }
            },
        }
    }
}

impl EventBatchBuffer {
    /// The preferred maximum encoded size of a batch.
    pub closed spec fn target(&self) -> nat {
        self.target_encoded_len as nat
    }

    /// The largest number of events in a batch.
    pub closed spec fn max(&self) -> nat {
        self.max_events as nat
    }

    /// The buffer's invariant: its cached size is the saturated encoded size
    /// of its events, its limits are valid, and its events keep to them.
    pub closed spec fn wf(&self) -> bool {
        &&& self.encoded_len == saturate(framed_len(self@))
        &&& self.target_encoded_len >= EVENT_BATCH_HEADER_LEN + EVENT_LENGTH_HEADER_LEN
        &&& self.max_events >= 1
        &&& within_limits(self@, self.target(), self.max())
    }

    /// An empty buffer for batches of at most `target_encoded_len` bytes and
    /// `max_events` events.
    ///
    /// Fails when the target cannot hold a header and one framed event, or
    /// when no event is allowed.
    pub fn try_new(target_encoded_len: usize, max_events: usize) -> (r: Result<Self, CollectorError>)
        ensures
            target_encoded_len < min_batch_encoded_len() ==> r == Err::<Self, CollectorError>(
                CollectorError::InvalidBatchEncodedLen {
                    actual: target_encoded_len,
                    minimum: min_batch_encoded_len() as usize,
                    maximum: u32::MAX as usize,
                },
            ),
            target_encoded_len >= min_batch_encoded_len() && max_events == 0 ==> r == Err::<
                Self,
                CollectorError,
            >(CollectorError::InvalidBatchEventCount { actual: 0, maximum: MAX_EVENTS_PER_BATCH }),
            target_encoded_len >= min_batch_encoded_len() && max_events > 0 ==> (r matches Ok(b)
                && b.wf() && b@ == Seq::<Seq<u8>>::empty() && b.target() == target_encoded_len
                && b.max() == max_events),
    {
        let min_encoded_len = EVENT_BATCH_HEADER_LEN + EVENT_LENGTH_HEADER_LEN;
        if target_encoded_len < min_encoded_len {
            return Err(
                CollectorError::InvalidBatchEncodedLen {
                    actual: target_encoded_len,
                    minimum: min_encoded_len,
                    maximum: 0xFFFF_FFFFu32 as usize,
                },
            );
        }
        if max_events == 0 {
            return Err(
                CollectorError::InvalidBatchEventCount {
                    actual: max_events,
                    maximum: MAX_EVENTS_PER_BATCH,
                },
            );
        }
        let b = EventBatchBuffer {
            events: Vec::new(),
            encoded_len: EVENT_BATCH_HEADER_LEN,
            target_encoded_len,
            max_events,
        };
        assert(b@ =~= Seq::<Seq<u8>>::empty());
        Ok(b)
    }

    /// The events waiting in the buffer.
    pub fn len(&self) -> (r: usize)
        ensures
            r == self@.len(),
    {
        self.events.len()
    }

    /// The preferred maximum encoded size of a batch.
    pub fn target_encoded_len(&self) -> (r: usize)
        ensures
            r == self.target(),
    {
        self.target_encoded_len
    }

    /// Adds a serialized event. When the buffer already holds the maximum
    /// number of events, or the event would take the batch past its target
    /// size, the buffered events are taken out first as a full batch. Also
    /// reports whether the event alone, framed in a batch, exceeds the target
    /// (it is then sent intact in a batch of its own).
    pub fn push(&mut self, event: Vec<u8>) -> (r: (Option<EventBatch>, bool))
        requires
            old(self).wf(),
        ensures
            final(self).wf(),
            final(self).target() == old(self).target(),
            final(self).max() == old(self).max(),
            r.1 == (saturate(framed_len(seq![event@])) > old(self).target()),
            ({
                let (flushed, kept) = pushed(old(self)@, event@, old(self).target(), old(self).max());
                &&& final(self)@ == kept
                &&& match r.0 {
                    Some(batch) => flushed == Some(batch@),
                    None => flushed is None,
                }
            }),
    {
        let ghost old_view = self@;
        proof {
            lemma_framed_len_push(old_view, event@);
            lemma_framed_len_single(event@);
            lemma_saturate_add(framed_len(old_view), (EVENT_LENGTH_HEADER_LEN + event@.len()) as nat);
            lemma_saturate_add(
                EVENT_BATCH_HEADER_LEN as nat,
                (EVENT_LENGTH_HEADER_LEN + event@.len()) as nat,
            );
        }
        let event_encoded_len = EVENT_LENGTH_HEADER_LEN.saturating_add(event.len());
        let single_event_batch_len = EVENT_BATCH_HEADER_LEN.saturating_add(event_encoded_len);
        let exceeds_target = single_event_batch_len > self.target_encoded_len;
        let full_batch = if self.events.len() >= self.max_events || self.encoded_len.saturating_add(
            event_encoded_len,
        ) > self.target_encoded_len {
            self.take()
        } else {
            None
        };
        self.encoded_len = self.encoded_len.saturating_add(event_encoded_len);
        let ghost before_push = self@;
        self.events.push(event);
        proof {
            assert(self@ =~= before_push.push(event@));
            lemma_framed_len_push(before_push, event@);
            if before_push.len() == 0 {
                assert(before_push.push(event@) =~= seq![event@]);
            }
        }
        (full_batch, exceeds_target)
    }

    /// Takes the buffered events out as a batch, if there are any.
    pub fn take(&mut self) -> (r: Option<EventBatch>)
        requires
            old(self).wf(),
        ensures
            final(self).wf(),
            final(self).target() == old(self).target(),
            final(self).max() == old(self).max(),
            final(self)@ == Seq::<Seq<u8>>::empty(),
            match r {
                Some(batch) => old(self)@.len() > 0 && batch@ == old(self)@ && within_limits(
                    batch@,
                    old(self).target(),
                    old(self).max(),
                ),
                None => old(self)@.len() == 0,
            },
    {
        if self.events.len() == 0 {
            assert(self@ =~= Seq::<Seq<u8>>::empty());
            return None;
        }
        self.encoded_len = EVENT_BATCH_HEADER_LEN;
        let mut events: Vec<Vec<u8>> = Vec::new();
        core::mem::swap(&mut events, &mut self.events);
        assert(self@ =~= Seq::<Seq<u8>>::empty());
        Some(EventBatch { events })
    }
}

/// Adding an event adds its length field and bytes to the encoded size.
proof fn lemma_framed_len_push(evs: Seq<Seq<u8>>, e: Seq<u8>)
    ensures
        framed_len(evs.push(e)) == framed_len(evs) + EVENT_LENGTH_HEADER_LEN + e.len(),
{
    assert(evs.push(e).drop_last() =~= evs);
}

/// The encoded size of a batch of one event.
proof fn lemma_framed_len_single(e: Seq<u8>)
    ensures
        framed_len(seq![e]) == EVENT_BATCH_HEADER_LEN + EVENT_LENGTH_HEADER_LEN + e.len(),
{
    assert(seq![e].drop_last() =~= Seq::<Seq<u8>>::empty());
    assert(framed_len(Seq::<Seq<u8>>::empty()) == EVENT_BATCH_HEADER_LEN);
    assert(seq![e].last() == e);
}

/// Saturating the sum of two saturated sizes saturates their sum.
proof fn lemma_saturate_add(a: nat, b: nat)
    ensures
        saturate(saturate(a) + saturate(b)) == saturate(a + b),
{
}

} // verus!
