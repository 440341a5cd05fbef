use fireworks::components::{Behaviour, Body, HSL};
use fireworks::draws::{Dir, DrawSource};
use fireworks::units::UNIT;
use fireworks::world::World;

fn shell(x: i64, vy: i64) -> Body {
    Body { x, y: 500_000, vx: 0, vy, m: 1000, r: 2000, color: HSL { h: 12000, s: 85, l: 75 } }
}

/// A source whose unit draws are all the same value, with one fixed
/// direction; big enough to never matter how often it wraps.
fn flat_source(u: u32) -> DrawSource {
    let ahead = Dir { x: UNIT, y: 0 };
    DrawSource::new(vec![u; 8], vec![ahead], vec![ahead]).unwrap()
}

#[test]
fn chrysanthemum_end_to_end() {
    // One shell with a fuse at 1_500_000 microseconds; advancing the clock
    // past it drains exactly that fuse, deletes the shell and creates
    // n in [150, 300) particles, each fused 0.5 to 1.5 seconds past the
    // firing time.
    let mut w = World::new(800_000, 600_000);
    let mut rng = flat_source(999_999);
    let shell_id = w.push(shell(100_000, -600_000), Behaviour::Chris, Some(1_500_000)).unwrap();
    assert_eq!(w.fuses.len(), 1);

    w.update(&mut rng, 2_000_000, 16_000);

    // with draw value 999_999 the count comes out at 150 + 149 = 299
    assert_eq!(w.store.len(), 299);
    assert!(w.store.get_body(shell_id).is_none());
    assert_eq!(w.fuses.len(), 299);
    for i in 0..w.fuses.len() {
        let (t, id) = w.fuses.get(i);
        assert!(t >= 2_000_000 + 500_000 && t <= 2_000_000 + 1_500_000);
        assert!(w.store.get_body(id).is_some());
    }
    for i in 0..w.store.len() {
        assert!(matches!(w.store.behaviour_at(i), Behaviour::Particle));
    }
}

#[test]
fn comet_one_emission_then_deleted() {
    let mut w = World::new(800_000, 600_000);
    let mut rng = flat_source(999_999);
    let comet_id = w.push(shell(100_000, -600_000), Behaviour::Comet(1), Some(0)).unwrap();

    w.update(&mut rng, 0, 16_000);

    // exactly one child, and the comet itself is gone: no re-schedule
    assert_eq!(w.store.len(), 1);
    assert!(w.store.get_body(comet_id).is_none());
    assert!(matches!(w.store.behaviour_at(0), Behaviour::Particle));
    assert_eq!(w.fuses.len(), 1);
    let (t, id) = w.fuses.get(0);
    assert!(t >= 500_000 && t < 1_000_000);
    assert_ne!(id, comet_id);
}

#[test]
fn comet_five_emissions() {
    // A comet with five remaining emissions fires five sequential fuse
    // events, emitting one child each, and only then dies.
    let mut w = World::new(800_000, 600_000);
    let mut rng = flat_source(999_999);
    let comet_id = w.push(shell(100_000, -600_000), Behaviour::Comet(5), Some(0)).unwrap();
    let mut time: u64 = 0;
    for round in 0..5 {
        w.update(&mut rng, time, 16_000);
        let expect_children = round + 1;
        let comet_alive = round < 4;
        assert_eq!(w.store.len(), expect_children + if comet_alive { 1 } else { 0 });
        assert_eq!(w.store.get_body(comet_id).is_some(), comet_alive);
        time += 40_000;
    }
}

#[test]
fn stale_fuse_is_a_no_op() {
    // A fuse whose entity was removed earlier must fire into nothing,
    // never act on an unrelated entity.
    let mut w = World::new(800_000, 600_000);
    let mut rng = flat_source(999_999);
    let doomed = w.push(shell(100_000, -600_000), Behaviour::Chris, Some(10)).unwrap();
    let keeper = w.push(shell(200_000, -500_000), Behaviour::Willow, Some(5_000_000)).unwrap();
    w.store.remove_id(doomed);

    w.update(&mut rng, 100, 16_000);

    assert_eq!(w.store.len(), 1);
    let kept = w.store.get_body(keeper).unwrap();
    assert!(matches!(w.store.get_behaviour(keeper).unwrap(), Behaviour::Willow));
    // the keeper was only integrated, never replaced
    assert_eq!(kept.x, 200_000);
    assert_eq!(w.fuses.len(), 1);
}

#[test]
fn spawn_roll_launches_one_shell() {
    // A roll below six percent launches one shell of a non-particle
    // archetype just below the bottom edge.
    let mut w = World::new(800_000, 600_000);
    let mut rng = DrawSource::new(
        vec![0, 0, 0, 0, 500_000, 500_000, 0, 0, 0],
        vec![Dir { x: UNIT, y: 0 }],
        vec![Dir { x: UNIT, y: 0 }],
    )
    .unwrap();
    w.update(&mut rng, 0, 16_000);
    assert_eq!(w.store.len(), 1);
    // draw order after the roll: archetype (count then choice), fuse, x,
    // vx, vy, r, colour; choice 0 picks the chrysanthemum
    assert!(matches!(w.store.behaviour_at(0), Behaviour::Chris));
    assert_eq!(w.fuses.len(), 1);
    let (t, _) = w.fuses.get(0);
    assert!(t >= 1_000_000 && t < 2_000_000);
}

#[test]
fn resize_only_changes_bounds() {
    let mut w = World::new(800_000, 600_000);
    w.push(shell(1, -500_000), Behaviour::Peony, None).unwrap();
    w.resize(1_000_000, 900_000);
    assert_eq!(w.width, 1_000_000);
    assert_eq!(w.height, 900_000);
    assert_eq!(w.store.len(), 1);
}

#[test]
fn strobe_children_shimmer() {
    let mut w = World::new(800_000, 600_000);
    let mut rng = flat_source(60_000);
    let id = w.push(shell(100_000, -600_000), Behaviour::Strobe, Some(10)).unwrap();
    w.update(&mut rng, 1_000, 16_000);
    assert!(w.store.get_body(id).is_none());
    // draw value 60_000 gives a count of 150 + 9 = 159
    assert_eq!(w.store.len(), 159);
    for i in 0..w.store.len() {
        match w.store.behaviour_at(i) {
            Behaviour::Glitter(f) => assert!(*f >= 3 * UNIT && *f < 9 * UNIT),
            _ => panic!("strobe children must shimmer"),
        }
    }
}

#[test]
fn peony_children_share_one_hue() {
    let mut w = World::new(800_000, 600_000);
    let mut rng = flat_source(400_000);
    let id = w.push(shell(100_000, -600_000), Behaviour::Peony, Some(10)).unwrap();
    w.update(&mut rng, 1_000, 16_000);
    assert!(w.store.get_body(id).is_none());
    // count = 150 + 400_000 * 150 / 1_000_000 = 210
    assert_eq!(w.store.len(), 210);
    let mut seen: Option<(i64, i64)> = None;
    for i in 0..w.store.len() {
        match w.store.behaviour_at(i) {
            Behaviour::HueParticle(h, f) => {
                // physics ran once, but the behaviour payload is untouched
                match seen {
                    None => seen = Some((*h, *f)),
                    Some(prev) => assert_eq!(prev, (*h, *f)),
                }
            },
            _ => panic!("peony children must cycle hue"),
        }
    }
    let (h, f) = seen.unwrap();
    assert_eq!(h, 400_000 * 36_000 / 1_000_000);
    assert_eq!(f, 500_000 + 400_000 * 2_500_000 / 1_000_000);
}

#[test]
fn crosette_bursts_twice() {
    let mut w = World::new(800_000, 600_000);
    let mut rng = flat_source(999_999);
    let id = w.push(shell(100_000, -600_000), Behaviour::Crosette, Some(10)).unwrap();
    w.update(&mut rng, 1_000, 16_000);
    assert!(w.store.get_body(id).is_none());
    // 3 + 999_999 * 20 / 1_000_000 = 22 branches
    assert_eq!(w.store.len(), 22);
    for i in 0..w.store.len() {
        assert!(matches!(w.store.behaviour_at(i), Behaviour::CrosetteBranch));
    }
    // branch fuses are jittered in [0.5, 1.5) s; with draw value 999_999
    // they all land at 1_000 + 500_000 + 999_999
    w.update(&mut rng, 1_000 + 1_500_000, 16_000);
    assert_eq!(w.store.len(), 22 * 12);
    for i in 0..w.store.len() {
        assert!(matches!(w.store.behaviour_at(i), Behaviour::Particle));
    }
}

#[test]
fn pistil_double_burst() {
    let mut w = World::new(800_000, 600_000);
    let mut rng = flat_source(100_000);
    let id = w.push(shell(100_000, -600_000), Behaviour::Pistil, Some(10)).unwrap();
    w.update(&mut rng, 1_000, 16_000);
    assert!(w.store.get_body(id).is_none());
    // outer 150 + 15 and inner 150 + 15 fragments
    assert_eq!(w.store.len(), 330);
    for i in 0..w.store.len() {
        assert!(matches!(w.store.behaviour_at(i), Behaviour::Particle));
    }
}

#[test]
fn population_cap_clears_everything() {
    let mut w = World::new(800_000, 600_000);
    let mut rng = flat_source(999_999);
    for _ in 0..10_001 {
        w.push(shell(1000, -500_000), Behaviour::Particle, None).unwrap();
    }
    w.update(&mut rng, 0, 16_000);
    assert_eq!(w.store.len(), 0);
    assert_eq!(w.fuses.len(), 0);
}
