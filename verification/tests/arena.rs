use bomber_core::entity::{ActorData, DeviceData, Entity};
use bomber_core::store::Store;

#[test]
fn remove_absorbs_stale_handles() {
    let mut s = Store::new();
    let h = s.insert(Entity::Actor(ActorData { x: 1, y: 2, health: 3, ammo: 4 }));
    assert!(s.get(h).is_some());
    assert!(s.remove(h).is_some());
    assert!(s.get(h).is_none());
    // removing through the same handle again is a no-op
    assert!(s.remove(h).is_none());
    // the slot is reused under a fresh generation: the old handle stays
    // stale and never aliases the new occupant
    let h2 = s.insert(Entity::Device(DeviceData { x: 0, y: 0, expires_at: 9 }));
    assert_eq!(h2.index, h.index);
    assert_ne!(h2.gen, h.gen);
    assert!(s.get(h).is_none());
    assert!(matches!(s.get(h2), Some(Entity::Device(_))));
}

#[test]
fn insert_fills_the_lowest_free_slot() {
    let mut s = Store::new();
    let a = s.insert(Entity::Device(DeviceData { x: 0, y: 0, expires_at: 1 }));
    let b = s.insert(Entity::Device(DeviceData { x: 1, y: 0, expires_at: 2 }));
    let c = s.insert(Entity::Device(DeviceData { x: 2, y: 0, expires_at: 3 }));
    assert_eq!((a.index, b.index, c.index), (0, 1, 2));
    s.remove(b);
    let d = s.insert(Entity::Device(DeviceData { x: 3, y: 0, expires_at: 4 }));
    assert_eq!(d.index, 1);
    assert_eq!(s.slot_count(), 3);
    match s.get(d) {
        Some(Entity::Device(dev)) => assert_eq!(dev.x, 3),
        _ => panic!("expected the reinserted device"),
    }
}
