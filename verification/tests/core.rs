use fireworks::components::{Behaviour, Body, HSL};
use fireworks::draws::{choose_from, Dir, DrawSource};
use fireworks::queue::FuseQueue;
use fireworks::store::EntityStore;
use fireworks::units::{isqrt64, UNIT};

fn body(x: i64, y: i64, vx: i64, vy: i64, m: i64, r: i64) -> Body {
    Body { x, y, vx, vy, m, r, color: HSL { h: 0, s: 85, l: 75 } }
}

fn source(units: Vec<u32>, dirs: Vec<Dir>) -> DrawSource {
    DrawSource::new(units, dirs, vec![Dir { x: UNIT, y: 0 }]).unwrap()
}

#[test]
fn integrator_numeric_example() {
    // G = 500, m = 1, dt = 0.016 s: vy goes from -600 to -592 and the
    // vertical position changes by -9.6 + 0.064 pixel units (milli scale).
    let mut b = body(0, 100_000, 0, -600_000, 1000, 1000);
    b.update(&Behaviour::MassiveParticle, 16_000, 0);
    assert_eq!(b.vy, -592_000);
    assert_eq!(b.y, 100_000 - 9_600 + 64);
    assert_eq!(b.x, 0);
}

#[test]
fn drag_applies_after_gravity() {
    // A Particle's velocity is scaled by 0.95 after the gravity step, not
    // before: vy = (-600 + 8) * 0.95, not -600 * 0.95 + 8.
    let mut b = body(0, 0, 100_000, -600_000, 1000, 1000);
    b.update(&Behaviour::Particle, 16_000, 0);
    assert_eq!(b.vx, 95_000);
    assert_eq!(b.vy, -562_400);
}

#[test]
fn massive_particle_has_no_drag() {
    let mut b = body(0, 0, 100_000, 0, 1000, 1000);
    b.update(&Behaviour::MassiveParticle, 16_000, 0);
    assert_eq!(b.vx, 100_000);
}

#[test]
fn hue_particle_color_sweep() {
    // hue = base + elapsed/1e6 * 360 * freq, in centi-degrees: at two
    // seconds with freq 1.0 the hue has swept 720 degrees.
    let mut b = body(0, 0, 0, 0, 1000, 1000);
    b.update(&Behaviour::HueParticle(1500, 1_000_000), 16_000, 2_000_000);
    assert_eq!(b.color.h, 1500 + 72_000);
    assert_eq!(b.color.s, 85);
    assert_eq!(b.color.l, 75);
}

#[test]
fn radial_explosion_formula() {
    // u = 0 gives radius factor 0, so the child keeps exactly a fifth of
    // the parent's velocity.
    let mut rng = source(vec![0], vec![Dir { x: UNIT, y: 0 }]);
    let parent = body(5000, 6000, 1000, -2000, 1000, 1500);
    let child = parent.plus_explosion(&mut rng, 4, 500_000);
    assert_eq!(child.vx, 200);
    assert_eq!(child.vy, -400);
    assert_eq!(child.m, 250);
    assert_eq!(child.x, 5000);
    assert_eq!(child.y, 6000);
    assert_eq!(child.r, 1500);

    // u = 500_000 gives factor (0.5 - 1)^3 + 1 = 0.875 exactly; with force
    // base 400 the force is 350 pixel units per second along the drawn
    // direction.
    let mut rng = source(vec![500_000], vec![Dir { x: UNIT, y: 0 }]);
    let child = parent.plus_explosion(&mut rng, 4, 400_000);
    assert_eq!(child.vx, 350_000 + 200);
    assert_eq!(child.vy, -400);
}

#[test]
fn directed_explosion_follows_heading() {
    // Parent heading is the 3-4-5 triangle; a straight-ahead cone draw
    // keeps the child's force aligned with the parent's velocity.
    let mut rng = source(vec![1_000_000 - 1], vec![Dir { x: 0, y: UNIT }]);
    let parent = body(0, 0, 3000, 4000, 1000, 1000);
    let child = parent.plus_directed_explosion(&mut rng, 2, 100_000);
    // force = 99_999; heading = (0.6, 0.8); velocity = heading * force
    // + 0.3 * parent velocity, truncating.
    let force = 999_999i64 * 100_000 / 1_000_000;
    assert_eq!(child.vx, 600_000 * force / 1_000_000 + 900);
    assert_eq!(child.vy, 800_000 * force / 1_000_000 + 1200);
    assert_eq!(child.m, 500);
}

#[test]
fn willow_explosion_droops() {
    // theta = 0: vx gets 0.35 of the force, vy the downward bias
    // (sin 0 - 1) * 0.2 of it; mass grows to 0.7 of the parent's.
    let mut rng = source(vec![1_000_000 - 1], vec![Dir { x: UNIT, y: 0 }]);
    let parent = body(0, 0, 1000, 2000, 1000, 1000);
    let child = parent.plus_willow_explosion(&mut rng, 500_000);
    let force = 999_999i64 * 500_000 / 1_000_000;
    assert_eq!(child.vx, UNIT * force * 7 / 20_000_000 + 200);
    assert_eq!(child.vy, -force / 5 + 400);
    assert_eq!(child.m, 700);
}

#[test]
fn isqrt_exact_values() {
    assert_eq!(isqrt64(0), 0);
    assert_eq!(isqrt64(1), 1);
    assert_eq!(isqrt64(24), 4);
    assert_eq!(isqrt64(25), 5);
    assert_eq!(isqrt64(u64::MAX), 0xFFFF_FFFF);
}

#[test]
fn queue_drains_due_in_order() {
    let mut q = FuseQueue::new();
    q.schedule(30, 7);
    q.schedule(10, 3);
    q.schedule(20, 5);
    q.schedule(10, 1);
    q.schedule(10, 3); // duplicate pair is kept once
    assert_eq!(q.len(), 4);
    let due = q.drain_due(20);
    assert_eq!(due, vec![(10, 1), (10, 3), (20, 5)]);
    assert_eq!(q.len(), 1);
    assert_eq!(q.get(0), (30, 7));
}

#[test]
fn queue_ties_break_by_id() {
    let mut q = FuseQueue::new();
    q.schedule(5, 2);
    q.schedule(5, 1);
    let due = q.drain_due(5);
    assert_eq!(due, vec![(5, 1), (5, 2)]);
}

#[test]
fn queue_never_returns_an_entry_twice() {
    let mut q = FuseQueue::new();
    q.schedule(10, 1);
    q.schedule(40, 2);
    let first = q.drain_due(20);
    q.schedule(30, 3);
    let second = q.drain_due(50);
    assert_eq!(first, vec![(10, 1)]);
    assert_eq!(second, vec![(30, 3), (40, 2)]);
}

#[test]
fn store_create_and_lookup() {
    let mut s = EntityStore::new();
    let a = s.create(body(1, 0, 0, 0, 1000, 1000), Behaviour::Particle).unwrap();
    let b = s.create(body(2, 0, 0, 0, 1000, 1000), Behaviour::Chris).unwrap();
    let c = s.create(body(3, 0, 0, 0, 1000, 1000), Behaviour::Willow).unwrap();
    assert_eq!((a, b, c), (0, 1, 2));
    assert_eq!(s.len(), 3);
    assert_eq!(s.get_body(b).unwrap().x, 2);
    assert!(matches!(s.get_behaviour(c).unwrap(), Behaviour::Willow));
}

#[test]
fn store_swap_removal_keeps_identity() {
    // Removing a middle slot moves the tail entity into it; every other
    // id must still resolve to its own components.
    let mut s = EntityStore::new();
    let ids: Vec<u32> = (0..5)
        .map(|i| s.create(body(i, 0, 0, 0, 1000, 1000), Behaviour::Particle).unwrap())
        .collect();
    s.remove_id(ids[1]);
    assert_eq!(s.len(), 4);
    assert!(s.get_body(ids[1]).is_none());
    for (i, id) in ids.iter().enumerate() {
        if i != 1 {
            assert_eq!(s.get_body(*id).unwrap().x, i as i64);
        }
    }
    // removing the tail itself must not corrupt the map either
    s.remove_id(ids[4]);
    assert!(s.get_body(ids[4]).is_none());
    assert_eq!(s.get_body(ids[3]).unwrap().x, 3);
    // a stale removal is a no-op
    s.remove_id(ids[1]);
    assert_eq!(s.len(), 3);
}

#[test]
fn store_replace_behaviour() {
    let mut s = EntityStore::new();
    let id = s.create(body(0, 0, 0, 0, 1000, 1000), Behaviour::Comet(3)).unwrap();
    let old = s.replace_behaviour(id, Behaviour::Comet(2)).unwrap();
    assert!(matches!(old, Behaviour::Comet(3)));
    assert!(matches!(s.get_behaviour(id).unwrap(), Behaviour::Comet(2)));
    assert!(s.replace_behaviour(99, Behaviour::Particle).is_none());
}

#[test]
fn choose_from_is_uniform_index() {
    let items = [10, 20, 30, 40];
    assert_eq!(*choose_from(&items, 0), 10);
    assert_eq!(*choose_from(&items, 499_999), 20);
    assert_eq!(*choose_from(&items, 999_999), 40);
}

#[test]
fn draw_source_cycles() {
    let mut rng = source(vec![7, 8], vec![Dir { x: 1, y: 2 }]);
    assert_eq!(rng.next_unit(), 7);
    assert_eq!(rng.next_unit(), 8);
    assert_eq!(rng.next_unit(), 7);
    let d = rng.next_dir();
    assert_eq!((d.x, d.y), (1, 2));
    let c = rng.next_cone();
    assert_eq!((c.x, c.y), (UNIT, 0));
}

#[test]
fn draw_source_rejects_out_of_range() {
    let ahead = Dir { x: UNIT, y: 0 };
    assert!(DrawSource::new(vec![], vec![ahead], vec![ahead]).is_none());
    assert!(DrawSource::new(vec![0], vec![], vec![ahead]).is_none());
    assert!(DrawSource::new(vec![0], vec![ahead], vec![]).is_none());
    assert!(DrawSource::new(vec![1_000_000], vec![ahead], vec![ahead]).is_none());
    assert!(DrawSource::new(vec![0], vec![Dir { x: UNIT + 1, y: 0 }], vec![ahead]).is_none());
    assert!(DrawSource::new(vec![0], vec![ahead], vec![Dir { x: 0, y: -UNIT - 1 }]).is_none());
}
