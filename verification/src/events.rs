//! Type definitions of entity events.
use core::marker::PhantomData;
use core::time::Duration;

use vstd::prelude::*;

use crate::collector::client::{duration_as_nanos, duration_nanos};

verus! {

/// Trait for the event type of an entity.
pub trait EntityEvent {
    /// The name of the entity.
    const NAME: &'static str;
}

/// Associates an entity marker with the events emitted for that entity.
pub trait Entity: Sized {
    /// Events emitted for this entity.
    type Event: EntityEvent;
}

/// An event of the entity `id` at `timestamp` (nanoseconds since the Unix
/// epoch), carrying `data`.
#[derive(Debug)]
pub struct Event<T> {
    /// The id of the entity producing this event.
    pub id: u128,
    /// The timestamp of the event.
    pub timestamp: u64,
    /// The payload of the event.
    pub data: T,
}

/// The time elapsed since the Unix epoch, or `None` when the clock reads a
/// time before it.
///
/// Trusted: `SystemTime::elapsed` of `UNIX_EPOCH`, which reads the system
/// clock; nothing is stated of the result, which depends on the clock.
#[verifier::external_body]
fn elapsed_since_epoch() -> Option<Duration> {
    std::time::UNIX_EPOCH.elapsed().ok()
}

/// The current time in nanoseconds since the Unix epoch, saturated at the
/// largest `u64` (and zero for a clock set before the epoch).
fn now_unix_nanos() -> u64 {
    unix_nanos_from_elapsed(elapsed_since_epoch())
}

/// The nanoseconds of `elapsed` saturated to a `u64`, zero where it is `None`.
pub open spec fn saturated_unix_nanos(elapsed: Option<Duration>) -> u64 {
    match elapsed {
        Some(d) => if duration_nanos(d) > u64::MAX as u128 {
            u64::MAX
        } else {
            duration_nanos(d) as u64
        },
        None => 0,
    }
}

/// A timestamp in nanoseconds from the time elapsed since the Unix epoch:
/// the elapsed nanoseconds saturated at the largest `u64`, and zero where the
/// clock read a time before the epoch (`None`).
pub fn unix_nanos_from_elapsed(elapsed: Option<Duration>) -> (r: u64)
    ensures
        r == saturated_unix_nanos(elapsed),
{
    match elapsed {
        Some(d) => {
            let nanos = duration_as_nanos(&d);
            if nanos > 0xFFFF_FFFF_FFFF_FFFFu128 {
                0xFFFF_FFFF_FFFF_FFFFu64
            } else {
                nanos as u64
            }
        },
        None => 0,
    }
}

impl<T> Event<T> {
    /// An event of the entity `id` at `timestamp`.
    pub fn new(id: u128, timestamp: u64, data: T) -> (e: Self)
        ensures
            e.id == id,
            e.timestamp == timestamp,
            e.data == data,
    {
        Event { id, timestamp, data }
    }

    /// An event of the entity `id` at the current time.
    pub fn new_now(id: u128, data: T) -> (e: Self)
        ensures
            e.id == id,
            e.data == data,
    {
        Event { id, timestamp: now_unix_nanos(), data }
    }

    /// The timestamp of the event.
    pub fn timestamp(&self) -> (ts: u64)
        ensures
            ts == self.timestamp,
    {
        self.timestamp
    }
}

/// Reference to an entity instance of type `E`, optionally carrying payload
/// data `T`.
#[derive(Debug)]
pub struct EntityRef<E, T = ()> {
    /// The entity type of the reference.
    pub entity: PhantomData<E>,
    /// Identifier of the referenced entity instance.
    pub target: u128,
    /// Payload carried alongside the reference.
    pub data: T,
}

impl<E, T> EntityRef<E, T> {
    /// Creates a reference to `target` carrying `data`.
    pub fn new(target: u128, data: T) -> (r: Self)
        ensures
            r.target == target,
            r.data == data,
    {
        EntityRef { entity: PhantomData, target, data }
    }
}

impl<E, T: Clone> Clone for EntityRef<E, T> {
    fn clone(&self) -> (r: Self)
        ensures
            r.target == self.target,
    {
        EntityRef { entity: PhantomData, target: self.target, data: self.data.clone() }
    }
}

/// Entity marker for a reference not restricted to one entity type.
#[derive(Debug, Clone, Copy)]
pub struct AnyEntity;

} // verus!
