use kukai::config::Target;
use kukai::selector::{compute_total_weight, select_target};

fn target(address: &str, port: Option<u16>, weight: Option<u64>) -> Target {
    Target { address: address.to_string(), port, weight }
}

#[test]
fn test_compute_total_weight() {
    // Weights are held in thousandths: one and a half is 1500.
    let targets = vec![
        target("http://example.com", Some(80), Some(1500)),
        target("http://example.org", Some(8080), None),
        target("http://example.net", None, Some(2000)),
    ];
    let total = compute_total_weight(&targets);
    assert_eq!(total, 3500);
}

#[test]
fn zero_total_weight_selects_first_target() {
    // The degenerate fallback holds for every target count >= 1.
    for count in 1..6usize {
        let targets: Vec<Target> = (0..count)
            .map(|i| target(&format!("t{i}"), None, if i % 2 == 0 { Some(0) } else { None }))
            .collect();
        for draw in [0u64, 1, 7, u64::MAX] {
            assert_eq!(select_target(&targets, draw), 0);
        }
    }
}

#[test]
fn weight_bands_are_exact() {
    // Weights [1, 3]: draw 0 lands on the first target, draws 1..4 on
    // the second.
    let targets = vec![target("a", None, Some(1)), target("b", None, Some(3))];
    assert_eq!(select_target(&targets, 0), 0);
    assert_eq!(select_target(&targets, 1), 1);
    assert_eq!(select_target(&targets, 2), 1);
    assert_eq!(select_target(&targets, 3), 1);
}

#[test]
fn zero_weight_targets_are_never_selected() {
    let targets = vec![
        target("a", None, Some(0)),
        target("b", None, Some(2)),
        target("c", None, None),
        target("d", None, Some(1)),
    ];
    assert_eq!(select_target(&targets, 0), 1);
    assert_eq!(select_target(&targets, 1), 1);
    assert_eq!(select_target(&targets, 2), 3);
}

#[test]
fn weighted_selection_proportion() {
    // Weights [1, 3]: over many uniform draws the second target should
    // be picked in proportion of roughly three quarters.
    let targets = vec![target("a", None, Some(1000)), target("b", None, Some(3000))];
    let total = compute_total_weight(&targets);
    assert_eq!(total, 4000);
    let mut state: u64 = 0x853c49e6748fea9b;
    let samples = 10_000u64;
    let mut second = 0u64;
    for _ in 0..samples {
        state = state
            .wrapping_mul(6364136223846793005)
            .wrapping_add(1442695040888963407);
        let draw = (state >> 33) % total;
        if select_target(&targets, draw) == 1 {
            second += 1;
        }
    }
    // Expected proportion 0.75; allow a generous tolerance.
    assert!(second > 7000 && second < 8000, "second target picked {second} of {samples}");
}
