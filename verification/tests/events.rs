use std::time::Duration;

use quent::events::{unix_nanos_from_elapsed, AnyEntity, EntityRef, Event};

#[test]
fn event_carries_its_fields() {
    let e = Event::new(5, 1_000, "payload");
    assert_eq!(e.id, 5);
    assert_eq!(e.timestamp(), 1_000);
    assert_eq!(e.data, "payload");
}

#[test]
fn event_now_is_stamped_with_the_current_time() {
    let e = Event::new_now(6, 3u8);
    assert_eq!(e.id, 6);
    assert_eq!(e.data, 3);
    assert!(e.timestamp > 1_600_000_000_000_000_000);
}

#[test]
fn entity_ref_points_at_its_target() {
    let r: EntityRef<AnyEntity, u32> = EntityRef::new(11, 7);
    let copy = r.clone();
    assert_eq!(copy.target, 11);
    assert_eq!(copy.data, 7);
}

#[test]
fn unix_nanos_before_epoch_is_zero() {
    assert_eq!(unix_nanos_from_elapsed(None), 0);
}

#[test]
fn unix_nanos_of_one_second() {
    assert_eq!(unix_nanos_from_elapsed(Some(Duration::from_secs(1))), 1_000_000_000);
    assert_eq!(unix_nanos_from_elapsed(Some(Duration::new(3, 7))), 3_000_000_007);
}

#[test]
fn unix_nanos_saturate_at_u64_max() {
    assert_eq!(unix_nanos_from_elapsed(Some(Duration::MAX)), u64::MAX);
}
