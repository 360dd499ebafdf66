use seal_the_sub::attr::Attr;
use seal_the_sub::physics::physics_step;
use seal_the_sub::collide::resolve_collisions;
use seal_the_sub::respawn::respawn_step;
use seal_the_sub::seafloor::Seafloor;
use seal_the_sub::store::{Agent, Body, Event, Inputs, Item, Ori, Pos, Rot, Vel, World};
use seal_the_sub::vec2::V2;
use seal_the_sub::world::{create, tick};

fn bare_world() -> World {
    World {
        pos: vec![],
        vel: vec![],
        ori: vec![],
        rot: vec![],
        agent: vec![],
        body: vec![],
        item: vec![],
        respawn: vec![],
        collected: vec![],
    }
}

fn add(
    w: &mut World,
    p: V2,
    v: V2,
    ag: Option<Agent>,
    bd: Option<Body>,
    it: Option<Item>,
) -> usize {
    w.pos.push(Pos(p));
    w.vel.push(Vel(v));
    w.ori.push(Ori(0));
    w.rot.push(Rot(0));
    w.agent.push(ag);
    w.body.push(bd);
    w.item.push(it);
    w.respawn.push(false);
    w.collected.push(false);
    w.pos.len() - 1
}

#[test]
fn created_world_layout() {
    let (globals, w, floor, at) = create();
    assert_eq!(globals.player, 0);
    assert_eq!(globals.submarine, 1);
    assert_eq!(w.pos.len(), 232);
    assert_eq!(w.agent[0], Some(Agent::Player));
    assert_eq!(w.body[0], Some(Body::Seal));
    assert_eq!(w.body[1], Some(Body::Submarine));
    assert!(w.agent[1].is_none());
    for i in 2..32 {
        assert_eq!(w.agent[i], Some(Agent::Fish));
        assert_eq!(w.item[i], Some(Item::Fish));
    }
    assert_eq!(w.body[32], Some(Body::Fuel(0)));
    assert_eq!(w.item[33], Some(Item::Tape));
    assert_eq!(w.body[81], Some(Body::Tape(24)));
    for i in 82..232 {
        assert_eq!(w.agent[i], Some(Agent::Bubble));
    }
    for i in 0..232 {
        assert!(!w.respawn[i]);
        assert!(!w.collected[i]);
    }
    assert_eq!(at.stamina, 1000000);
    assert_eq!(floor.sample(-6000000), 0);
}

#[test]
fn splash_emitted_when_crossing_fast() {
    let floor = Seafloor::sine();
    let mut w = bare_world();
    add(&mut w, V2 { x: 0, y: -2000 }, V2 { x: 0, y: 5000 }, None, None, None);
    let mut events: Vec<Event> = Vec::new();
    physics_step(&mut w, &floor, &mut events);
    // gravity first: vy = 5100; the step crosses the surface at speed > 4
    assert_eq!(events, vec![Event::Splash(0)]);
    assert_eq!(w.pos[0].0, V2 { x: 0, y: 3100 });
    assert_eq!(w.vel[0].0, V2 { x: 0, y: 5100 });
}

#[test]
fn no_splash_when_crossing_slowly() {
    let floor = Seafloor::sine();
    let mut w = bare_world();
    add(&mut w, V2 { x: 0, y: -2000 }, V2 { x: 0, y: 3000 }, None, None, None);
    let mut events: Vec<Event> = Vec::new();
    physics_step(&mut w, &floor, &mut events);
    assert_eq!(w.pos[0].0.y, 1100);
    assert!(events.is_empty());
}

#[test]
fn seafloor_is_never_penetrated() {
    let floor = Seafloor::sine();
    let mut w = bare_world();
    add(&mut w, V2 { x: 0, y: 1600000 }, V2 { x: 0, y: 0 }, None, None, None);
    add(&mut w, V2 { x: 40000, y: 1400000 }, V2 { x: 0, y: 900000 }, None, None, None);
    let mut events: Vec<Event> = Vec::new();
    physics_step(&mut w, &floor, &mut events);
    for i in 0..2 {
        let p = w.pos[i].0;
        assert!(p.y <= floor.sample(p.x));
    }
}

#[test]
fn drag_keeps_aligned_velocity_and_damps_sideways() {
    let floor = Seafloor::sine();
    let mut w = bare_world();
    // facing east, moving east: only the 5% base drag applies
    add(&mut w, V2 { x: 0, y: 100000 }, V2 { x: 10000, y: 0 }, None, None, None);
    // facing east, moving down: the sideways factor 0.9 applies on top
    add(&mut w, V2 { x: 0, y: 100000 }, V2 { x: 0, y: 10000 }, None, None, None);
    let mut events: Vec<Event> = Vec::new();
    physics_step(&mut w, &floor, &mut events);
    assert_eq!(w.vel[0].0, V2 { x: 9500, y: 0 });
    assert_eq!(w.vel[1].0, V2 { x: 0, y: 8550 });
}

#[test]
fn eating_a_fish() {
    let mut w = bare_world();
    let player = add(
        &mut w,
        V2 { x: 0, y: 1600000 },
        V2 { x: 0, y: 0 },
        Some(Agent::Player),
        Some(Body::Seal),
        None,
    );
    let fish = add(
        &mut w,
        V2 { x: 0, y: 1610000 },
        V2 { x: 0, y: 0 },
        Some(Agent::Fish),
        Some(Body::Fish(0)),
        Some(Item::Fish),
    );
    let mut at = Attr { stamina: 500000, hull: 1000000, fuel: 1000000, lost: false, score: 0 };
    let mut events: Vec<Event> = Vec::new();
    resolve_collisions(&mut w, &mut at, &mut events, player, player);
    // stamina rises by exactly 0.15 and one Eat event is emitted
    assert_eq!(at.stamina, 650000);
    assert_eq!(events, vec![Event::Eat]);
    assert!(w.respawn[fish]);
    respawn_step(&mut w);
    let p = w.pos[fish].0;
    // repositioned into the spawn box, away from where it was eaten
    assert!(-5000000 <= p.x && p.x < 5000000);
    assert!(-300000 <= p.y && p.y < 1500000);
    assert_ne!(p, V2 { x: 0, y: 1610000 });
    assert!(!w.respawn[fish]);
    assert!(!w.collected[fish]);
}

#[test]
fn eating_clamps_stamina_at_full() {
    let mut w = bare_world();
    let player = add(
        &mut w,
        V2 { x: 0, y: 100000 },
        V2 { x: 0, y: 0 },
        Some(Agent::Player),
        Some(Body::Seal),
        None,
    );
    add(
        &mut w,
        V2 { x: 10000, y: 100000 },
        V2 { x: 0, y: 0 },
        Some(Agent::Fish),
        Some(Body::Fish(0)),
        Some(Item::Fish),
    );
    let mut at = Attr { stamina: 950000, hull: 1000000, fuel: 1000000, lost: false, score: 0 };
    let mut events: Vec<Event> = Vec::new();
    resolve_collisions(&mut w, &mut at, &mut events, player, player);
    assert_eq!(at.stamina, 1000000);
}

#[test]
fn fuel_delivery_to_the_submarine() {
    let mut w = bare_world();
    let sub = add(
        &mut w,
        V2 { x: 0, y: 400000 },
        V2 { x: 0, y: 0 },
        None,
        Some(Body::Submarine),
        None,
    );
    let fuel = add(
        &mut w,
        V2 { x: 0, y: 300000 },
        V2 { x: 0, y: 0 },
        Some(Agent::Collectable),
        Some(Body::Fuel(0)),
        Some(Item::Fuel),
    );
    let mut at = Attr { stamina: 1000000, hull: 1000000, fuel: 500000, lost: false, score: 0 };
    let mut events: Vec<Event> = Vec::new();
    resolve_collisions(&mut w, &mut at, &mut events, sub, sub);
    // the fuel attribute rises by exactly 0.35 and GetFuel appears once
    assert_eq!(at.fuel, 850000);
    assert_eq!(events, vec![Event::GetFuel]);
    assert!(w.respawn[fuel]);
    respawn_step(&mut w);
    let p = w.pos[fuel].0;
    assert!(-5000000 <= p.x && p.x < 5000000);
    assert!(-300000 <= p.y && p.y < 1500000);
}

#[test]
fn fuel_outside_the_window_stays() {
    let mut w = bare_world();
    let sub = add(
        &mut w,
        V2 { x: 0, y: 400000 },
        V2 { x: 0, y: 0 },
        None,
        Some(Body::Submarine),
        None,
    );
    let fuel = add(
        &mut w,
        // 200 units below: the vertical weight of 3 puts it out of reach
        V2 { x: 0, y: 600000 },
        V2 { x: 0, y: 0 },
        Some(Agent::Collectable),
        Some(Body::Fuel(0)),
        Some(Item::Fuel),
    );
    let mut at = Attr { stamina: 1000000, hull: 1000000, fuel: 500000, lost: false, score: 0 };
    let mut events: Vec<Event> = Vec::new();
    resolve_collisions(&mut w, &mut at, &mut events, sub, sub);
    assert_eq!(at.fuel, 500000);
    assert!(events.is_empty());
    assert!(!w.respawn[fuel]);
}

#[test]
fn tape_delivery_patches_the_hull() {
    let mut w = bare_world();
    let sub = add(
        &mut w,
        V2 { x: 0, y: 400000 },
        V2 { x: 0, y: 0 },
        None,
        Some(Body::Submarine),
        None,
    );
    add(
        &mut w,
        V2 { x: 300000, y: 400000 },
        V2 { x: 0, y: 0 },
        Some(Agent::Collectable),
        Some(Body::Tape(0)),
        Some(Item::Tape),
    );
    let mut at = Attr { stamina: 1000000, hull: 200000, fuel: 1000000, lost: false, score: 0 };
    let mut events: Vec<Event> = Vec::new();
    resolve_collisions(&mut w, &mut at, &mut events, sub, sub);
    assert_eq!(at.hull, 550000);
    assert_eq!(events, vec![Event::GetTape]);
}

#[test]
fn touching_a_pickup_hooks_it() {
    let mut w = bare_world();
    let player = add(
        &mut w,
        V2 { x: 0, y: 1000000 },
        V2 { x: 0, y: 0 },
        Some(Agent::Player),
        Some(Body::Seal),
        None,
    );
    let fuel = add(
        &mut w,
        V2 { x: 20000, y: 1000000 },
        V2 { x: 0, y: 0 },
        Some(Agent::Collectable),
        Some(Body::Fuel(0)),
        Some(Item::Fuel),
    );
    let sub = add(
        &mut w,
        V2 { x: 3000000, y: 0 },
        V2 { x: 0, y: 0 },
        None,
        Some(Body::Submarine),
        None,
    );
    let mut at = Attr::new();
    let mut events: Vec<Event> = Vec::new();
    resolve_collisions(&mut w, &mut at, &mut events, player, sub);
    assert!(w.collected[fuel]);
    assert!(!w.respawn[fuel]);
    assert!(events.is_empty());
}

#[test]
fn full_ticks_run_and_keep_invariants() {
    let (globals, mut w, floor, mut at) = create();
    for t in 0..5u64 {
        let info = tick(
            &mut w,
            &mut at,
            &floor,
            Inputs { left: false, right: true, boost: t % 2 == 0 },
            t,
            &globals,
        );
        assert_eq!(info.view_scale, 1000);
        assert_eq!(w.pos.len(), 232);
        for i in 0..232 {
            assert!(!w.respawn[i]);
        }
        assert!(0 <= at.stamina && at.stamina <= 1000000);
        assert!(0 <= at.hull && at.hull <= 1000000);
        assert!(0 <= at.fuel && at.fuel <= 1000000);
    }
    // the score only ever grows while the run is alive
    assert!(at.score > 0);
}
