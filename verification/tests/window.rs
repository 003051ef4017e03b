use factor_analysis::router::mode1::technical::aroon::AroonWindow;
use factor_analysis::window::WindowExtreme;

/// Integer key that orders as the price does.
fn key(x: f64) -> i64 {
    let x = if x == 0.0 { 0.0 } else { x };
    let bits = x.to_bits() as i64;
    if bits < 0 { bits ^ i64::MAX } else { bits }
}

fn price(key: i64) -> f64 {
    let bits = if key < 0 { key ^ i64::MAX } else { key };
    f64::from_bits(bits as u64)
}

struct Tracker(WindowExtreme);

impl Tracker {
    fn value(&self) -> Option<f64> {
        self.0.value().map(price)
    }

    fn next(&mut self, x: f64) -> Option<f64> {
        self.0.next(key(x)).map(price)
    }
}

#[test]
fn high_tracks_latest_window_high() {
    let mut high = Tracker(WindowExtreme::new(3, true));

    assert_eq!(high.value(), None);
    assert_eq!(high.next(1.0), None);
    assert_eq!(high.value(), None);
    assert_eq!(high.next(3.0), None);
    assert_eq!(high.value(), None);
    assert_eq!(high.next(2.0), Some(3.0));
    assert_eq!(high.value(), Some(3.0));
    assert_eq!(high.next(0.0), Some(3.0));
    assert_eq!(high.value(), Some(3.0));
    assert_eq!(high.next(1.0), Some(2.0));
    assert_eq!(high.value(), Some(2.0));
}

#[test]
fn low_tracks_latest_window_low() {
    let mut low = Tracker(WindowExtreme::new(3, false));

    assert_eq!(low.value(), None);
    assert_eq!(low.next(3.0), None);
    assert_eq!(low.value(), None);
    assert_eq!(low.next(1.0), None);
    assert_eq!(low.value(), None);
    assert_eq!(low.next(2.0), Some(1.0));
    assert_eq!(low.value(), Some(1.0));
    assert_eq!(low.next(4.0), Some(1.0));
    assert_eq!(low.value(), Some(1.0));
    assert_eq!(low.next(5.0), Some(2.0));
    assert_eq!(low.value(), Some(2.0));
}

#[test]
fn window_extreme_agrees_with_a_full_scan() {
    let series: Vec<i64> = vec![5, -3, 8, 8, 2, -7, 4, 9, 1, 1, -2, 6, 3, 0, 10, -5];
    for len in 2..6 {
        let mut high = WindowExtreme::new(len, true);
        let mut low = WindowExtreme::new(len, false);
        for (i, &x) in series.iter().enumerate() {
            let hi = high.next(x);
            let lo = low.next(x);
            if i + 1 < len {
                assert_eq!((hi, lo), (None, None));
            } else {
                let window = &series[i + 1 - len..=i];
                assert_eq!(hi, window.iter().copied().max());
                assert_eq!(lo, window.iter().copied().min());
            }
        }
    }
}

#[test]
fn window_extreme_handles_negative_prices() {
    let mut high = Tracker(WindowExtreme::new(2, true));
    assert_eq!(high.next(-1.5), None);
    assert_eq!(high.next(-2.5), Some(-1.5));
    assert_eq!(high.next(-0.0), Some(0.0));
}

#[test]
fn aroon_window_counts_days_back_to_extremes() {
    let mut window = AroonWindow::new(3);
    assert_eq!(window.len(), 3);
    assert_eq!(window.next(5, 1), None);
    assert_eq!(window.next(7, 2), None);
    assert_eq!(window.next(7, 1), Some((1, 2)));
    assert_eq!(window.next(6, 3), Some((2, 1)));
    assert_eq!(window.next(8, 4), Some((0, 2)));
    assert_eq!(window.next(2, 0), Some((1, 0)));
}
