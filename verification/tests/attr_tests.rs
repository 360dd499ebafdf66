use seal_the_sub::attr::Attr;

#[test]
fn fresh_attributes_are_full() {
    let a = Attr::new();
    assert_eq!(a.stamina, 1000000);
    assert_eq!(a.hull, 1000000);
    assert_eq!(a.fuel, 1000000);
    assert_eq!(a.score, 0);
    assert!(!a.lost);
}

#[test]
fn decay_is_exact() {
    let mut a = Attr::new();
    a.tick(0);
    assert_eq!(a.stamina, 1000000 - 100);
    assert_eq!(a.hull, 1000000 - 100);
    assert_eq!(a.fuel, 1000000 - 100);
    assert!(!a.lost);
    let mut b = Attr::new();
    // at 24 ticks of age the time-scaled decay contributes one more unit
    b.tick(24);
    assert_eq!(b.stamina, 1000000 - 101);
}

#[test]
fn exhaustion_is_terminal() {
    let mut a = Attr { stamina: 50, hull: 1000000, fuel: 1000000, lost: false, score: 0 };
    a.tick(0);
    assert_eq!(a.stamina, 0);
    assert!(a.lost);
    // no later bonus or decay clears the flag
    a.eat_fish();
    assert!(a.lost);
    a.gain_fuel();
    a.patch_hull();
    a.tick(100);
    assert!(a.lost);
}

#[test]
fn bonuses_add_exactly_and_clamp() {
    let mut a = Attr { stamina: 500000, hull: 500000, fuel: 500000, lost: false, score: 0 };
    a.eat_fish();
    assert_eq!(a.stamina, 650000);
    a.gain_fuel();
    assert_eq!(a.fuel, 850000);
    a.patch_hull();
    assert_eq!(a.hull, 850000);
    // clamping at the full value
    a.eat_fish();
    a.eat_fish();
    a.eat_fish();
    assert_eq!(a.stamina, 1000000);
    a.gain_fuel();
    assert_eq!(a.fuel, 1000000);
    a.patch_hull();
    assert_eq!(a.hull, 1000000);
}

#[test]
fn boost_costs_stamina() {
    let mut a = Attr::new();
    a.boost_cost();
    assert_eq!(a.stamina, 1000000 - 300);
    let mut b = Attr { stamina: 100, hull: 1000000, fuel: 1000000, lost: false, score: 0 };
    b.boost_cost();
    assert_eq!(b.stamina, 0);
}

#[test]
fn score_reward_doubles_in_air() {
    let mut a = Attr::new();
    a.award_score(false);
    assert_eq!(a.score, 30000);
    let mut b = Attr::new();
    b.award_score(true);
    assert_eq!(b.score, 60000);
    // with score at four whole points the square-root term contributes 2000
    let mut c = Attr { stamina: 1000000, hull: 1000000, fuel: 1000000, lost: false, score: 4000000 };
    c.award_score(false);
    assert_eq!(c.score, 4000000 + 30000 + 2000);
}

#[test]
fn score_never_decreases() {
    let mut a = Attr::new();
    let mut last: i64 = 0;
    for t in 0..100u64 {
        a.award_score(t % 2 == 0);
        assert!(a.score >= last);
        last = a.score;
        a.tick(t);
        assert_eq!(a.score, last);
    }
}
