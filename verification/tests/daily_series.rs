use territory_forecast::arith::Arithmetic;
use territory_forecast::calendar::Date;
use territory_forecast::ieee::Double;
use territory_forecast::series::{
    date_range, interpolate_series, occupied_series, training_start, training_window_start,
};

struct Native;

fn d(x: f64) -> Double {
    Double::from_bits(x.to_bits())
}

fn f(x: Double) -> f64 {
    f64::from_bits(x.to_bits())
}

fn observed(xs: &[Option<f64>]) -> Vec<Option<Double>> {
    xs.iter().map(|x| x.map(d)).collect()
}

fn fs(xs: &[Double]) -> Vec<f64> {
    xs.iter().map(|&x| f(x)).collect()
}

impl Arithmetic for Native {
    fn sum(&self, a: Double, b: Double) -> Double {
        d(f(a) + f(b))
    }

    fn difference(&self, a: Double, b: Double) -> Double {
        d(f(a) - f(b))
    }

    fn product(&self, a: Double, b: Double) -> Double {
        d(f(a) * f(b))
    }

    fn quotient(&self, a: Double, b: Double) -> Double {
        d(f(a) / f(b))
    }

    fn fused(&self, a: Double, b: Double, c: Double) -> Double {
        d(f(a).mul_add(f(b), f(c)))
    }

    fn square_root(&self, a: Double) -> Double {
        d(f(a).sqrt())
    }

    fn natural_log(&self, a: Double) -> Double {
        d(f(a).ln())
    }

    fn exponential(&self, a: Double) -> Double {
        d(f(a).exp())
    }

    fn power(&self, a: Double, b: Double) -> Double {
        d(f(a).powf(f(b)))
    }

    fn of_count(&self, n: usize) -> Double {
        d(n as f64)
    }
}

#[test]
fn gaps_between_values_are_filled_along_the_line() {
    let filled = interpolate_series(
        &Native,
        &observed(&[Some(1.0), None, None, None, Some(9.0), Some(4.0), None, Some(5.0)]),
    );
    assert_eq!(fs(&filled), vec![1.0, 3.0, 5.0, 7.0, 9.0, 4.0, 4.5, 5.0]);
}

#[test]
fn ends_carry_the_nearest_value() {
    let filled =
        interpolate_series(&Native, &observed(&[None, None, Some(2.0), None, Some(4.0), None]));
    assert_eq!(fs(&filled), vec![2.0, 2.0, 2.0, 3.0, 4.0, 4.0]);
    let single = interpolate_series(&Native, &observed(&[None, Some(7.5), None]));
    assert_eq!(fs(&single), vec![7.5, 7.5, 7.5]);
}

#[test]
fn series_without_values_is_zero() {
    assert_eq!(fs(&interpolate_series(&Native, &observed(&[None, None, None]))), vec![0.0; 3]);
    assert!(interpolate_series(&Native, &observed(&[])).is_empty());
}

#[test]
fn occupied_area_is_the_difference_of_the_filled_series() {
    let ru = observed(&[Some(10.0), None, Some(14.0)]);
    let ua = observed(&[None, Some(1.0), Some(2.0)]);
    assert_eq!(fs(&occupied_series(&Native, &ru, &ua)), vec![9.0, 11.0, 12.0]);
}

#[test]
fn date_range_holds_every_day_once() {
    let first = Date::new(2024, 2, 27).unwrap();
    let last = Date::new(2024, 3, 2).unwrap();
    let days = date_range(first, last);
    assert_eq!(
        days,
        vec![
            first,
            Date::new(2024, 2, 28).unwrap(),
            Date::new(2024, 2, 29).unwrap(),
            Date::new(2024, 3, 1).unwrap(),
            last
        ]
    );
    assert_eq!(date_range(first, first), vec![first]);
    assert!(date_range(last, first).is_empty());
    assert_eq!(
        date_range(Date::new(9999, 12, 30).unwrap(), Date::new(9999, 12, 31).unwrap()).len(),
        2
    );
}

#[test]
fn training_starts_at_the_cutoff() {
    let start = training_start();
    assert_eq!(start, Date::new(2022, 11, 22).unwrap());
    let days = date_range(Date::new(2022, 11, 20).unwrap(), Date::new(2022, 11, 24).unwrap());
    assert_eq!(training_window_start(&days, start), 2);
    assert_eq!(training_window_start(&days, Date::new(2022, 1, 1).unwrap()), 0);
    assert_eq!(training_window_start(&days, Date::new(2023, 1, 1).unwrap()), 5);
    assert_eq!(training_window_start(&Vec::new(), start), 0);
}
