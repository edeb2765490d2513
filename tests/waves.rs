use passive_power::geometry::{Point, Rect};
use passive_power::placement::{allocate, spawner_positions};
use passive_power::waves::{is_despawn_tick, is_spawn_tick, Hazard, SpawnStatus, WaveScheduler};
use rand::rngs::StdRng;
use rand::SeedableRng;

fn hazard(x: i64, y: i64, vx: i64, vy: i64, source: usize) -> Hazard {
    Hazard { x, y, vx, vy, source }
}

#[test]
fn spawn_tick_values() {
    assert!(!is_spawn_tick(0));
    assert!(!is_spawn_tick(400));
    assert!(!is_spawn_tick(1000));
    assert!(!is_spawn_tick(1400));
    assert!(is_spawn_tick(1500));
    assert!(is_spawn_tick(2100));
    assert!(is_spawn_tick(2499));
    assert!(!is_spawn_tick(2500));
    assert!(is_spawn_tick(4000));
    assert!(is_spawn_tick(6000));
}

#[test]
fn despawn_tick_values() {
    assert!(!is_despawn_tick(0));
    assert!(!is_despawn_tick(499));
    assert!(!is_despawn_tick(2100));
    assert!(!is_despawn_tick(2499));
    assert!(is_despawn_tick(2500));
    assert!(is_despawn_tick(3000));
    assert!(is_despawn_tick(3499));
    assert!(!is_despawn_tick(3500));
    assert!(is_despawn_tick(6000));
    assert!(is_despawn_tick(u64::MAX - 500));
}

#[test]
fn new_scheduler_is_ready_and_empty() {
    let w = WaveScheduler::new(37, 20);
    assert_eq!(w.status(), SpawnStatus::Ready);
    assert!(w.hazards().is_empty());
    assert_eq!(w.radius(), 37);
    assert_eq!(w.speed(), 20);
}

#[test]
fn wave_emits_four_hazards_per_spawner() {
    let mut w = WaveScheduler::new(37, 20);
    let spawners = vec![Point { x: 100, y: -50 }, Point { x: -300, y: 200 }];
    w.spawn_zombies(2100, &spawners);
    assert_eq!(w.status(), SpawnStatus::Standby);
    assert_eq!(
        *w.hazards(),
        vec![
            hazard(137, -50, 20, 0, 0),
            hazard(63, -50, -20, 0, 0),
            hazard(100, -13, 0, 20, 0),
            hazard(100, -87, 0, -20, 0),
            hazard(-263, 200, 20, 0, 1),
            hazard(-337, 200, -20, 0, 1),
            hazard(-300, 237, 0, 20, 1),
            hazard(-300, 163, 0, -20, 1),
        ]
    );
}

#[test]
fn standby_suppresses_a_second_wave() {
    let mut w = WaveScheduler::new(10, 5);
    let spawners = vec![Point { x: 0, y: 0 }];
    w.update(2100, &spawners);
    assert_eq!(w.hazards().len(), 4);
    w.update(2200, &spawners);
    assert_eq!(w.hazards().len(), 4);
    assert_eq!(w.status(), SpawnStatus::Standby);
}

#[test]
fn no_spawn_outside_a_spawn_tick() {
    let mut w = WaveScheduler::new(10, 5);
    w.spawn_zombies(1400, &vec![Point { x: 0, y: 0 }]);
    assert!(w.hazards().is_empty());
    assert_eq!(w.status(), SpawnStatus::Ready);
}

#[test]
fn no_spawners_leaves_scheduler_ready() {
    let mut w = WaveScheduler::new(10, 5);
    w.spawn_zombies(2000, &vec![]);
    assert!(w.hazards().is_empty());
    assert_eq!(w.status(), SpawnStatus::Ready);
}

#[test]
fn despawn_clears_and_rearms() {
    let mut w = WaveScheduler::new(10, 5);
    let spawners = vec![Point { x: 0, y: 0 }, Point { x: 50, y: 50 }];
    w.update(2000, &spawners);
    assert_eq!(w.hazards().len(), 8);
    w.despawn_zombies(3000);
    assert!(w.hazards().is_empty());
    assert_eq!(w.status(), SpawnStatus::Ready);
}

#[test]
fn despawn_with_nothing_active_is_harmless() {
    let mut w = WaveScheduler::new(10, 5);
    w.despawn_zombies(3000);
    assert!(w.hazards().is_empty());
    assert_eq!(w.status(), SpawnStatus::Ready);
    w.despawn_zombies(3100);
    assert!(w.hazards().is_empty());
    assert_eq!(w.status(), SpawnStatus::Ready);
}

#[test]
fn despawn_outside_a_despawn_tick_keeps_the_wave() {
    let mut w = WaveScheduler::new(10, 5);
    let spawners = vec![Point { x: 0, y: 0 }];
    w.update(2000, &spawners);
    w.despawn_zombies(4000);
    assert_eq!(w.hazards().len(), 4);
    assert_eq!(w.status(), SpawnStatus::Standby);
}

#[test]
fn update_clears_before_spawning() {
    let mut w = WaveScheduler::new(10, 5);
    let spawners = vec![Point { x: 0, y: 0 }];
    w.update(2000, &spawners);
    w.update(6000, &spawners);
    assert_eq!(w.hazards().len(), 4);
    assert_eq!(w.status(), SpawnStatus::Standby);
}

#[test]
fn scenario_end_to_end() {
    let region = Rect { min_x: -750, max_x: 750, min_y: -400, max_y: 400 };
    let reserved = vec![Point { x: -20, y: 350 }];
    let mut rng = StdRng::seed_from_u64(42);
    let sites = allocate(50, region, &reserved, 30, 100, 25, &mut rng);
    assert!(sites.len() <= 50);
    let spawners = spawner_positions(&sites);
    assert!(!spawners.is_empty());
    let mut w = WaveScheduler::new(37, 20);

    w.update(1400, &spawners);
    assert!(w.hazards().is_empty());
    assert_eq!(w.status(), SpawnStatus::Ready);

    w.update(2100, &spawners);
    assert_eq!(w.hazards().len(), 4 * spawners.len());
    assert_eq!(w.status(), SpawnStatus::Standby);
    for (k, h) in w.hazards().iter().enumerate() {
        let s = spawners[k / 4];
        assert_eq!(h.source, k / 4);
        let dx = (h.x - s.x).abs();
        let dy = (h.y - s.y).abs();
        assert!((dx == 37 && dy == 0) || (dx == 0 && dy == 37));
    }

    w.update(3000, &spawners);
    assert!(w.hazards().is_empty());
    assert_eq!(w.status(), SpawnStatus::Ready);
}
