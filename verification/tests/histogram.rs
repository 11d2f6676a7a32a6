use rendiff::Histogram;

#[test]
fn fmt_empty() {
    let zero = Histogram([0; 256]);
    assert_eq!(zero.summary(false), "Histogram()");
    assert_eq!(zero.summary(true), "Histogram()");
}

#[test]
fn fmt_nonempty() {
    let histogram = {
        let mut h = [0; 256];
        h[0] = 1000;
        h[10] = 5;
        h[50] = 1;
        Histogram(h)
    };
    assert_eq!(histogram.summary(false), "Histogram(Δ10 ×5, Δ50 ×1)");
    assert_eq!(histogram.summary(true), "Histogram(Δ0 ×1000, Δ10 ×5, Δ50 ×1)");
}

#[test]
fn histogram_fmt_empty() {
    let zero = Histogram([0; 256]);
    assert_eq!(zero.summary(false), "Histogram()");
    assert_eq!(zero.summary(true), "Histogram()");
}

#[test]
fn histogram_fmt_nonempty() {
    let histogram = {
        let mut h = [0; 256];
        h[0] = 1000;
        h[10] = 5;
        h[50] = 1;
        Histogram(h)
    };
    assert_eq!(histogram.summary(false), "Histogram(Δ10 ×5, Δ50 ×1)");
    assert_eq!(histogram.summary(true), "Histogram(Δ0 ×1000, Δ10 ×5, Δ50 ×1)");
}

#[test]
fn max_difference() {
    assert_eq!(Histogram([0; 256]).max_difference(), 0);
    assert_eq!(Histogram([10; 256]).max_difference(), 255);
    assert_eq!(
        {
            let mut h = [0; 256];
            h[0] = 1000;
            h[10] = 5;
            h[50] = 1;
            Histogram(h)
        }
        .max_difference(),
        50,
    );
}
