use seal_the_sub::fixed::sin_fp;
use seal_the_sub::policy::{bubble_step, collect_step, fish_steer, player_step, sort_by_dist, FishRef};
use seal_the_sub::store::{Inputs, Ori, Pos, Rot, Vel};
use seal_the_sub::vec2::V2;

fn fish(x: i64, y: i64) -> FishRef {
    FishRef { pos: V2 { x, y }, vel: V2 { x: 0, y: 0 } }
}

#[test]
fn flocking_is_deterministic_without_jitter() {
    let snap = vec![
        fish(0, 650000),
        fish(40000, 660000),
        fish(-90000, 640000),
        fish(150000, 700000),
    ];
    let self_pos = V2 { x: 0, y: 650000 };
    let a = fish_steer(&snap, self_pos, 15708, 0, 0);
    let b = fish_steer(&snap, self_pos, 15708, 0, 0);
    assert_eq!(a, b);
    assert!(0 <= a && a < 62832);
}

#[test]
fn separation_vanishes_beyond_its_range() {
    // one neighbour beyond 100 units: its distance no longer matters, only
    // its direction, which is the same in both snapshots
    let self_pos = V2 { x: 0, y: 650000 };
    let near_edge = vec![fish(0, 650000), fish(130000, 650000)];
    let far_out = vec![fish(0, 650000), fish(220000, 650000)];
    let a = fish_steer(&near_edge, self_pos, 15708, 0, 0);
    let b = fish_steer(&far_out, self_pos, 15708, 0, 0);
    assert_eq!(a, b);
}

#[test]
fn separation_dominates_close_neighbours() {
    // the same eastward neighbour direction; within 100 units the push away
    // overwhelms the pull toward it and flips the desired direction
    let self_pos = V2 { x: 0, y: 650000 };
    let close = vec![fish(0, 650000), fish(30000, 650000)];
    let far = vec![fish(0, 650000), fish(130000, 650000)];
    let a = fish_steer(&close, self_pos, 15708, 0, 0);
    let b = fish_steer(&far, self_pos, 15708, 0, 0);
    assert_ne!(a, b);
}

#[test]
fn sorting_orders_by_distance() {
    let mut snap = vec![
        fish(300000, 0),
        fish(10000, 0),
        fish(-200000, 0),
        fish(50000, 0),
    ];
    sort_by_dist(&mut snap, V2 { x: 0, y: 0 });
    assert_eq!(snap.len(), 4);
    assert_eq!(snap[0].pos.x, 10000);
    assert_eq!(snap[1].pos.x, 50000);
    assert_eq!(snap[2].pos.x, -200000);
    assert_eq!(snap[3].pos.x, 300000);
}

#[test]
fn bubbles_drift_rise_and_pop_at_the_surface() {
    let (v, popped) = bubble_step(
        Pos(V2 { x: 0, y: -100 }),
        Vel(V2 { x: 0, y: 0 }),
        Ori(0),
        Rot(0),
        0,
    );
    assert_eq!(v.0, V2 { x: 0, y: -1000 });
    assert!(popped);
    let (v2, popped2) = bubble_step(
        Pos(V2 { x: 1000000, y: 100000 }),
        Vel(V2 { x: 0, y: 0 }),
        Ori(0),
        Rot(0),
        0,
    );
    assert_eq!(v2.0.x, sin_fp(100000));
    assert_eq!(v2.0.y, -1000);
    assert!(!popped2);
}

#[test]
fn player_boost_and_thrust() {
    let (v, r, cost) = player_step(
        Pos(V2 { x: 0, y: 100000 }),
        Vel(V2 { x: 10000, y: 0 }),
        Ori(0),
        Rot(0),
        Inputs { left: false, right: false, boost: true },
        0,
    );
    // boost scales by 1.025, thrust adds 0.3 along the eastward facing
    assert_eq!(v.0, V2 { x: 10550, y: 0 });
    assert_eq!(r.0, 0);
    assert!(cost);
}

#[test]
fn player_turns_slower_in_air() {
    let (_, r_water, _) = player_step(
        Pos(V2 { x: 0, y: 100000 }),
        Vel(V2 { x: 0, y: 0 }),
        Ori(0),
        Rot(0),
        Inputs { left: true, right: false, boost: false },
        0,
    );
    let (_, r_air, cost) = player_step(
        Pos(V2 { x: 0, y: -100000 }),
        Vel(V2 { x: 0, y: 0 }),
        Ori(0),
        Rot(0),
        Inputs { left: true, right: false, boost: true },
        0,
    );
    assert_eq!(r_water.0, -65);
    assert_eq!(r_air.0, -10);
    // boosting in air costs nothing
    assert!(!cost);
}

#[test]
fn carried_pickup_homes_toward_the_player() {
    let (v, o, r) = collect_step(
        Pos(V2 { x: 0, y: 100000 }),
        Vel(V2 { x: 0, y: 0 }),
        Ori(0),
        Rot(0),
        true,
        V2 { x: 0, y: 0 },
        0,
    );
    // facing straight up toward the player, thrust pulls it that way
    assert_eq!(o.0, 47124);
    assert_eq!(v.0, V2 { x: 0, y: -300 });
    assert_eq!(r.0, 0);
}

#[test]
fn unhooked_pickup_holds_still() {
    let (v, o, _) = collect_step(
        Pos(V2 { x: 0, y: 100000 }),
        Vel(V2 { x: 5000, y: 5000 }),
        Ori(0),
        Rot(0),
        false,
        V2 { x: 0, y: 0 },
        0,
    );
    // velocity is zeroed, then only the thrust along the old facing remains
    assert_eq!(v.0, V2 { x: 300, y: 0 });
    assert_eq!(o.0, 0);
}
