use seal_the_sub::fixed::sin_fp;
use seal_the_sub::seafloor::Seafloor;
use seal_the_sub::vec2::V2;

fn expected_height(i: i64) -> i64 {
    1500000 + sin_fp((i - 500) * 1000) * 30 + sin_fp((i - 500) * 200) * 120
}

#[test]
fn sample_is_exact_at_stored_points() {
    let floor = Seafloor::sine();
    // sample index i sits at x = i * 10000 - 5000000
    assert_eq!(floor.sample(0), expected_height(500));
    assert_eq!(floor.sample(-5000000), expected_height(0));
    assert_eq!(floor.sample(10000), expected_height(501));
    assert_eq!(floor.sample(-4990000), expected_height(1));
}

#[test]
fn sample_interpolates_between_stored_points() {
    let floor = Seafloor::sine();
    let a = expected_height(500);
    let b = expected_height(501);
    // halfway through the cell: half the difference, truncated toward zero
    let d = b - a;
    let half = if d >= 0 { d * 500 / 1000 } else { -(-d * 500 / 1000) };
    assert_eq!(floor.sample(5000), a + half);
}

#[test]
fn sample_defaults_to_zero_out_of_domain() {
    let floor = Seafloor::sine();
    assert_eq!(floor.sample(-6000000), 0);
    assert_eq!(floor.sample(6000000), 0);
}

#[test]
fn sample_moves_little_for_small_steps() {
    let floor = Seafloor::sine();
    let mut x: i64 = -200000;
    while x < 200000 {
        let d = floor.sample(x + 1) - floor.sample(x);
        assert!(d.abs() <= 200);
        x += 997;
    }
}

#[test]
fn normal_falls_back_to_straight_up() {
    let floor = Seafloor::sine();
    // far out of the domain both samples are zero: the degenerate case
    assert_eq!(floor.normal_at(-8000000), V2 { x: 0, y: -1000 });
}

#[test]
fn normal_is_a_unit_vector() {
    let floor = Seafloor::sine();
    let n = floor.normal_at(0);
    let m2 = n.x * n.x + n.y * n.y;
    assert!(m2 <= 1000 * 1000);
    assert!(m2 >= 900 * 900);
}
