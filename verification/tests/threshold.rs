use rendiff::{Histogram, Threshold};

fn h1() -> Histogram {
    let mut h = [0; 256];
    h[0] = 1000;
    h[1] = 30;
    h[10] = 5;
    h[50] = 1;
    h[100] = 1;
    Histogram(h)
}

#[test]
fn simple_threshold() {
    assert_eq!(
        (
            Threshold::no_bigger_than(99).allows(h1()),
            Threshold::no_bigger_than(100).allows(h1())
        ),
        (false, true)
    );
}

#[test]
fn exact_fit() {
    assert!(Threshold::new(vec![(1, 30), (10, 5), (50, 1), (100, 1)]).allows(h1()));
}

#[test]
fn almost_exact_fit() {
    // fails because not allowing two in the 50-100 range
    assert!(!Threshold::new(vec![(1, 30), (10, 5), (100, 1)]).allows(h1()));
}

#[test]
fn total_count() {
    assert_eq!(
        (
            Threshold::new(vec![(100, 36)]).allows(h1()),
            Threshold::new(vec![(100, 37)]).allows(h1())
        ),
        (false, true)
    );
}

#[test]
fn max_threshold_allows_max_diff() {
    assert!(Threshold::new(vec![(255, 10)]).allows({
        let mut h = [0; 256];
        h[255] = 10;
        Histogram(h)
    }));
    assert!(!Threshold::new(vec![(255, 10)]).allows({
        let mut h = [0; 256];
        h[255] = 11;
        Histogram(h)
    }));
}

#[test]
fn unordered_bands_act_sorted() {
    // Bands given out of order behave as if sorted ascending.
    let unordered = Threshold::new(vec![(50, 1), (1, 30), (100, 1), (10, 5)]);
    let ordered = Threshold::new(vec![(1, 30), (10, 5), (50, 1), (100, 1)]);
    assert_eq!(unordered, ordered);
    assert!(unordered.allows(h1()));
}

#[test]
fn repeated_band_last_wins() {
    let threshold = Threshold::new(vec![(10, 1), (10, 7)]);
    let mut h = [0; 256];
    h[5] = 7;
    assert!(threshold.allows(Histogram(h)));
    h[5] = 8;
    assert!(!threshold.allows(Histogram(h)));
}

#[test]
fn zero_threshold_accepts_only_equality() {
    let threshold = Threshold::no_bigger_than(0);
    let mut h = [0; 256];
    h[0] = 12345;
    assert!(threshold.allows(Histogram(h)));
    h[1] = 1;
    assert!(!threshold.allows(Histogram(h)));
}

#[test]
fn mass_above_highest_band_rejects() {
    // A count above the highest configured band is never free.
    let threshold = Threshold::new(vec![(10, 1000)]);
    let mut h = [0; 256];
    h[10] = 1000;
    assert!(threshold.allows(Histogram(h)));
    h[11] = 1;
    assert!(!threshold.allows(Histogram(h)));
}
