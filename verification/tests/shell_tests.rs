use seal_the_sub::shell::{finish_run, score_points, screen_advances, Universals};

#[test]
fn points_are_whole_units_of_score() {
    assert_eq!(score_points(0), 0);
    assert_eq!(score_points(999999), 0);
    assert_eq!(score_points(1000000), 1);
    assert_eq!(score_points(123456789), 123);
}

#[test]
fn finishing_a_run_updates_the_statistics() {
    let mut u = Universals { high_score: 100, total_score: 500 };
    let high = finish_run(&mut u, 150);
    assert!(high);
    assert_eq!(u.high_score, 150);
    assert_eq!(u.total_score, 650);
    let high2 = finish_run(&mut u, 40);
    assert!(!high2);
    assert_eq!(u.high_score, 150);
    assert_eq!(u.total_score, 690);
    // matching the record still counts as a high score
    let high3 = finish_run(&mut u, 150);
    assert!(high3);
    assert_eq!(u.high_score, 150);
}

#[test]
fn screens_advance_only_after_a_pause() {
    assert!(!screen_advances(true, 0));
    assert!(!screen_advances(true, 30));
    assert!(screen_advances(true, 31));
    assert!(!screen_advances(false, 31));
}
