use bitgrep::filters::and::And;
use bitgrep::filters::entropy::Entropy;
use bitgrep::filters::equal::Equal;
use bitgrep::filters::filter::Filter;
use bitgrep::filters::max::Max;
use bitgrep::filters::min::Min;
use bitgrep::filters::notequal::NotEqual;
use bitgrep::filters::notequal_exact::NotEqualExact;
use bitgrep::types::float::{Float32, Float64};
use bitgrep::workers::entropy_processor::EntropyProducer;

fn f32v(value: f32) -> Float32 {
    Float32::from_bits(value.to_bits())
}

fn f64v(value: f64) -> Float64 {
    Float64::from_bits(value.to_bits())
}

struct EqualFilter(i32);

impl Filter<i32> for EqualFilter {
    fn includes(&self, result: i32) -> bool {
        return self.0 == result;
    }

    fn observe(&mut self, _: &[u8]) {}
}

/// Says no and counts how often it is asked.
struct Refusing<'a>(&'a std::cell::Cell<usize>);

impl<'a> Filter<i32> for Refusing<'a> {
    fn includes(&self, _: i32) -> bool {
        self.0.set(self.0.get() + 1);
        false
    }

    fn observe(&mut self, _: &[u8]) {}
}

struct FakeEntropyProducer(Option<f64>);

impl EntropyProducer for FakeEntropyProducer {
    fn entropy(&self) -> Option<Float64> {
        return self.0.map(f64v);
    }

    fn observe(&mut self, _: &[u8]) {}
}

/// Knows how many bytes it has been shown, and gives that as its entropy.
struct CountingProducer(usize);

impl EntropyProducer for CountingProducer {
    fn entropy(&self) -> Option<Float64> {
        Some(f64v(self.0 as f64))
    }

    fn observe(&mut self, bytes: &[u8]) {
        self.0 += bytes.len();
    }
}

#[test]
fn min_min_smaller_returns_false() {
    assert!(!Min::new(f64v(32.445)).includes(f64v(32.0)));
    assert!(!Min::new(32).includes(31));
    assert!(!Min::new(40u8).includes(0));
}

#[test]
fn min_min_equal_returns_true() {
    assert!(Min::new(f64v(32.445)).includes(f64v(32.445)));
    assert!(Min::new(31).includes(31));
    assert!(Min::new(40u8).includes(40u8));
}

#[test]
fn min_min_greater_returns_false() {
    assert!(Min::new(f64v(30.445)).includes(f64v(32.0)));
    assert!(Min::new(30).includes(31));
    assert!(Min::new(40u8).includes(44));
}

#[test]
fn max_greater_returns_false() {
    assert!(Max::new(f64v(32.445)).includes(f64v(32.0)));
    assert!(Max::new(32).includes(31));
    assert!(Max::new(40u8).includes(0));
}

#[test]
fn max_equal_returns_true() {
    assert!(Max::new(f64v(32.445)).includes(f64v(32.445)));
    assert!(Max::new(31).includes(31));
    assert!(Max::new(40u8).includes(40u8));
}

#[test]
fn max_smaller_returns_false() {
    assert!(!Max::new(f64v(30.445)).includes(f64v(32.0)));
    assert!(!Max::new(30).includes(31));
    assert!(!Max::new(40u8).includes(44));
}

#[test]
fn bounds_turn_away_what_is_not_finite() {
    assert!(!Min::new(f64v(0.0)).includes(f64v(f64::INFINITY)));
    assert!(!Min::new(f64v(f64::NEG_INFINITY)).includes(f64v(f64::NEG_INFINITY)));
    assert!(!Min::new(f64v(0.0)).includes(f64v(f64::NAN)));
    assert!(!Max::new(f64v(0.0)).includes(f64v(f64::NEG_INFINITY)));
    assert!(!Max::new(f64v(f64::INFINITY)).includes(f64v(f64::INFINITY)));
    assert!(!Max::new(f32v(0.0)).includes(f32v(f32::NAN)));
    assert!(!Min::new(f32v(0.0)).includes(f32v(f32::INFINITY)));

    assert!(Max::new(f64v(f64::INFINITY)).includes(f64v(f64::MAX)));
    assert!(Min::new(f64v(f64::NEG_INFINITY)).includes(f64v(f64::MIN)));
    assert!(!Min::new(f64v(f64::NAN)).includes(f64v(1.0)));
    assert!(!Max::new(f32v(f32::NAN)).includes(f32v(1.0)));
}

#[test]
fn bounds_order_floats_as_floats_are_ordered() {
    let values = [
        f64::MIN,
        -2.5,
        -1.0,
        -f64::MIN_POSITIVE,
        -0.0,
        0.0,
        f64::MIN_POSITIVE,
        1.0,
        32.445,
        f64::MAX,
    ];
    for a in values {
        for b in values {
            assert_eq!(Min::new(f64v(a)).includes(f64v(b)), a <= b);
            assert_eq!(Max::new(f64v(a)).includes(f64v(b)), b <= a);
            let (x, y) = (a as f32, b as f32);
            assert_eq!(Min::new(f32v(x)).includes(f32v(y)), y.is_finite() && x <= y);
            assert_eq!(Max::new(f32v(x)).includes(f32v(y)), y.is_finite() && y <= x);
        }
    }
}

#[test]
fn bounds_on_signed_integers() {
    assert!(Min::new(-5i8).includes(-5));
    assert!(Min::new(-5i8).includes(127));
    assert!(!Min::new(-5i8).includes(-128));
    assert!(Max::new(-5i64).includes(i64::MIN));
    assert!(!Max::new(-5i128).includes(0));
    assert!(Max::new(u128::MAX).includes(u128::MAX));
}

#[test]
fn filter_not_equal_returns_false() {
    assert!(!Equal::new(32i32).includes(34i32));
    assert!(!Equal::new(40u8).includes(0));
    assert!(!Equal::new(40u8).includes(0));
}

#[test]
fn filter_equal_returns_true() {
    assert!(Equal::new(31i32).includes(31i32));
    assert!(Equal::new(40u8).includes(40u8));
    assert!(Equal::new(0i64).includes(0i64));
}

#[test]
fn filter_float_not_equal_returns_false() {
    assert!(!Equal::<Float32>::new(f32v(32.445)).includes(f32v(33.445)));
    assert!(!Equal::<Float64>::new(f64v(32.44567)).includes(f64v(32.445)));
    assert!(!Equal::<Float64>::new(f64v(32.44567)).includes(f64v(32.445)));

    assert!(!Equal::<Float32>::new(f32v(-0.0)).includes(f32v(0.00001)));
    assert!(!Equal::<Float64>::new(f64v(0.0)).includes(f64v(0.00001)));

    assert!(!Equal::<Float64>::new(f64v(f64::INFINITY)).includes(f64v(f64::NEG_INFINITY)));
    assert!(!Equal::<Float32>::new(f32v(f32::NEG_INFINITY)).includes(f32v(f32::INFINITY)));
}

#[test]
fn filter_float_equal_returns_true() {
    assert!(Equal::<Float32>::new(f32v(32.445)).includes(f32v(32.445)));
    assert!(Equal::<Float64>::new(f64v(32.445 + f64::EPSILON)).includes(f64v(32.445)));
    assert!(Equal::<Float64>::new(f64v(32.445 - f64::EPSILON)).includes(f64v(32.445)));

    assert!(Equal::<Float32>::new(f32v(-0.0)).includes(f32v(0.0)));
    assert!(Equal::<Float64>::new(f64v(0.0)).includes(f64v(0.0)));
}

#[test]
fn filter_float_equal_zeroes_returns_true() {
    assert!(Equal::<Float64>::new(f64v(-0.0)).includes(f64v(0.0)));
    assert!(Equal::<Float32>::new(f32v(0.0)).includes(f32v(0.0)));
}

#[test]
fn filter_float_equal_special_returns_true() {
    assert!(Equal::<Float64>::new(f64v(f64::NAN)).includes(f64v(f64::NAN)));
    assert!(Equal::<Float32>::new(f32v(f32::NAN)).includes(f32v(-f32::NAN)));
    assert!(Equal::<Float64>::new(f64v(-f64::NAN)).includes(f64v(-f64::NAN)));
    assert!(Equal::<Float64>::new(f64v(f64::NAN)).includes(f64v(f64::NAN)));

    assert!(Equal::<Float64>::new(f64v(f64::INFINITY)).includes(f64v(f64::INFINITY)));
    assert!(Equal::<Float32>::new(f32v(f32::NEG_INFINITY)).includes(f32v(f32::NEG_INFINITY)));
}

#[test]
fn filter_not_equal_returns_true() {
    assert!(NotEqual::new(32i32).includes(34i32));
    assert!(NotEqual::new(40u8).includes(0));
    assert!(NotEqual::new(40u8).includes(0));
}

#[test]
fn filter_equal_returns_false() {
    assert!(!NotEqual::new(31i32).includes(31i32));
    assert!(!NotEqual::new(40u8).includes(40u8));
    assert!(!NotEqual::new(0i64).includes(0i64));
}

#[test]
fn filter_float_not_equal_returns_true() {
    assert!(NotEqual::<Float32>::new(f32v(32.445)).includes(f32v(33.445)));
    assert!(NotEqual::<Float64>::new(f64v(32.44567)).includes(f64v(32.445)));
    assert!(NotEqual::<Float64>::new(f64v(32.44567)).includes(f64v(32.445)));

    assert!(NotEqual::<Float32>::new(f32v(-0.0)).includes(f32v(0.00001)));
    assert!(NotEqual::<Float64>::new(f64v(0.0)).includes(f64v(0.00001)));
    assert!(NotEqual::<Float64>::new(f64v(f64::INFINITY)).includes(f64v(f64::NEG_INFINITY)));
    assert!(NotEqual::<Float32>::new(f32v(f32::NEG_INFINITY)).includes(f32v(f32::INFINITY)));
}

#[test]
fn filter_float_equal_returns_false() {
    assert!(!NotEqual::<Float32>::new(f32v(32.445)).includes(f32v(32.445)));
    assert!(!NotEqual::<Float64>::new(f64v(32.445 + f64::EPSILON)).includes(f64v(32.445)));
    assert!(!NotEqual::<Float64>::new(f64v(32.445 - f64::EPSILON)).includes(f64v(32.445)));

    assert!(!NotEqual::<Float32>::new(f32v(-0.0)).includes(f32v(0.0)));
    assert!(!NotEqual::<Float64>::new(f64v(0.0)).includes(f64v(0.0)));
}

#[test]
fn filter_float_equal_zeroes_returns_false() {
    assert!(!NotEqual::<Float64>::new(f64v(-0.0)).includes(f64v(0.0)));
    assert!(!NotEqual::<Float32>::new(f32v(0.0)).includes(f32v(0.0)));
}

#[test]
fn filter_float_equal_special_returns_false() {
    assert!(!NotEqual::<Float64>::new(f64v(f64::NAN)).includes(f64v(f64::NAN)));
    assert!(!NotEqual::<Float32>::new(f32v(f32::NAN)).includes(f32v(-f32::NAN)));
    assert!(!NotEqual::<Float64>::new(f64v(-f64::NAN)).includes(f64v(-f64::NAN)));
    assert!(!NotEqual::<Float64>::new(f64v(f64::NAN)).includes(f64v(f64::NAN)));

    assert!(!NotEqual::<Float64>::new(f64v(f64::INFINITY)).includes(f64v(f64::INFINITY)));
    assert!(!NotEqual::<Float32>::new(f32v(f32::NEG_INFINITY)).includes(f32v(f32::NEG_INFINITY)));
}

#[test]
fn filter_equal_ints_returns_false() {
    assert!(!NotEqualExact::new(32i32).includes(32i32));
    assert!(!NotEqualExact::new(-3i8).includes(-3));
    assert!(!NotEqualExact::new(0u8).includes(0));
}

#[test]
fn filter_equal_floats_returns_false() {
    assert!(!NotEqualExact::<Float64>::new(f64v(-0.0)).includes(f64v(0.0)));
    assert!(!NotEqualExact::<Float64>::new(f64v(-10.1)).includes(f64v(-10.1)));
    assert!(!NotEqualExact::<Float32>::new(f32v(0.0)).includes(f32v(0.0)));
    assert!(!NotEqualExact::<Float32>::new(f32v(31.3)).includes(f32v(31.3)));
}

#[test]
fn filter_notequal_ints_returns_true() {
    assert!(NotEqualExact::new(31i32).includes(34i32));
    assert!(NotEqualExact::new(41u8).includes(40u8));
    assert!(NotEqualExact::new(0i64).includes(2i64));
}

#[test]
fn filter_notequal_floats_returns_true() {
    assert!(NotEqualExact::<Float32>::new(f32v(0.0)).includes(f32v(32.445)));
    assert!(NotEqualExact::<Float64>::new(f64v(0.0 + f64::EPSILON)).includes(f64v(0.0)));
    assert!(NotEqualExact::<Float64>::new(f64v(10.0)).includes(f64v(32.445)));
    assert!(NotEqualExact::<Float32>::new(f32v(-33.0)).includes(f32v(0.0)));
}

#[test]
fn exact_and_tolerant_inequality_part_ways_at_nan_and_next_door() {
    let nan = f64v(f64::NAN);
    assert!(NotEqualExact::new(nan).includes(nan));
    assert!(!NotEqual::new(nan).includes(nan));

    let one = f64v(1.0);
    let next = Float64::from_bits(1.0f64.to_bits() + 1);
    assert!(NotEqualExact::new(one).includes(next));
    assert!(!NotEqual::new(one).includes(next));
}

#[test]
fn and_true_false_returns_false() {
    let and = And::with_filters(vec![Box::new(EqualFilter(2)), Box::new(EqualFilter(3))]);

    assert!(!and.includes(2));
    assert!(!and.includes(3));
}

#[test]
fn and_true_true_returns_true() {
    let and = And::with_filters(vec![Box::new(EqualFilter(3)), Box::new(EqualFilter(3))]);

    assert!(and.includes(3));
}

#[test]
fn and_false_false_returns_false() {
    let and = And::with_filters(vec![Box::new(EqualFilter(2)), Box::new(EqualFilter(1))]);

    assert!(!and.includes(3));
}

#[test]
fn and_add_method() {
    let mut and = And::new();
    and.add(Box::new(EqualFilter(2)));
    and.add(Box::new(EqualFilter(2)));
    and.add(Box::new(EqualFilter(2)));

    assert!(!and.includes(3));
    assert!(and.includes(2));
}

#[test]
fn and_without_members_accepts_everything() {
    let and: And<i32> = And::new();
    assert!(and.includes(0));
    assert!(and.includes(i32::MIN));
    assert!(and.includes(i32::MAX));

    let and: And<Float64> = And::with_filters(vec![]);
    assert!(and.includes(f64v(f64::NAN)));
}

#[test]
fn and_of_bounds_that_cannot_both_hold_accepts_nothing() {
    let filters: Vec<Box<dyn Filter<i32>>> = vec![Min::with_box(10), Max::with_box(5)];
    let and = And::with_filters(filters);

    assert!(!and.includes(7));
    assert!(!and.includes(10));
    assert!(!and.includes(5));
}

#[test]
fn and_stops_asking_at_the_first_no() {
    let first = std::cell::Cell::new(0);
    let second = std::cell::Cell::new(0);
    let filters: Vec<Box<dyn Filter<i32> + '_>> = vec![
        Box::new(EqualFilter(1)),
        Box::new(Refusing(&first)),
        Box::new(Refusing(&second)),
    ];
    let and = And::with_filters(filters);

    assert!(!and.includes(2));
    assert_eq!((first.get(), second.get()), (0, 0));
    assert!(!and.includes(1));
    assert_eq!((first.get(), second.get()), (1, 0));
}

#[test]
fn and_with_box_and_of_ands() {
    let inner = And::with_box(vec![Min::new(3u16), Min::new(5u16)]);
    let outer = And::with_filters(vec![inner, And::with_box(vec![Min::new(4u16)])]);

    assert!(outer.includes(5));
    assert!(!outer.includes(4));
}

#[test]
fn include_unwrap_turns_away_what_is_not_there() {
    assert!(!Min::new(3i32).include_unwrap(None));
    assert!(Min::new(3i32).include_unwrap(Some(3)));
    assert!(!Min::new(3i32).include_unwrap(Some(2)));
    assert!(!EqualFilter(3).include_unwrap(None));
    assert!(EqualFilter(3).include_unwrap(Some(3)));
    assert!(!And::<i32>::new().include_unwrap(None));
}

#[test]
fn include_none_returns_false() {
    let none_producer = FakeEntropyProducer(None);
    let dont_care = 0;

    assert!(!Entropy::new(f64v(5.0), none_producer).includes(dont_care));
}

#[test]
fn include_entropy_greater_than_max_returns_false() {
    let dont_care = 0;

    assert!(!Entropy::new(f64v(1.0), FakeEntropyProducer(Some(3.345678))).includes(dont_care));
    assert!(!Entropy::new(f64v(2.0), FakeEntropyProducer(Some(3.345678))).includes(dont_care));
    assert!(!Entropy::new(f64v(3.0), FakeEntropyProducer(Some(3.345678))).includes(dont_care));
    assert!(!Entropy::new(f64v(3.34), FakeEntropyProducer(Some(3.345678))).includes(dont_care));
}

#[test]
fn include_entropy_less_equal_than_max_returns_true() {
    let dont_care = 0;

    assert!(Entropy::new(f64v(3.345678), FakeEntropyProducer(Some(3.345678))).includes(dont_care));
    assert!(Entropy::new(f64v(3.5), FakeEntropyProducer(Some(3.345678))).includes(dont_care));
    assert!(Entropy::new(f64v(4.0), FakeEntropyProducer(Some(3.345678))).includes(dont_care));
    assert!(Entropy::new(f64v(5.0), FakeEntropyProducer(Some(3.345678))).includes(dont_care));
}

#[test]
fn entropy_filter_shows_its_producer_the_bytes() {
    let mut filter = Entropy::with_box(f64v(3.0), CountingProducer(0));

    assert!(Filter::<u8>::includes(&filter, 0));
    Filter::<u8>::observe(&mut filter, &[1u8, 2u8, 3u8]);
    assert!(Filter::<u8>::includes(&filter, 0));
    Filter::<u8>::observe(&mut filter, &[4u8]);
    assert!(!Filter::<u8>::includes(&filter, 0));
}

#[test]
fn entropy_filter_admits_by_the_order_of_floats() {
    let filter = Entropy::new(f64v(7.5), FakeEntropyProducer(None));

    assert!(filter.admits(Some(f64v(7.5))));
    assert!(filter.admits(Some(f64v(0.0))));
    assert!(filter.admits(Some(f64v(-0.0))));
    assert!(!filter.admits(Some(f64v(7.500000000000001))));
    assert!(!filter.admits(Some(f64v(f64::NAN))));
    assert!(!filter.admits(None));
}

#[test]
fn and_shows_every_member_the_bytes() {
    let mut and = And::with_filters(vec![
        Entropy::new(f64v(2.0), CountingProducer(0)),
        Entropy::new(f64v(4.0), CountingProducer(0)),
    ]);

    Filter::<u8>::observe(&mut and, &[1u8, 2u8, 3u8]);
    assert!(!Filter::<u8>::includes(&and, 0));
    let mut and = And::with_filters(vec![
        Entropy::new(f64v(3.0), CountingProducer(0)),
        Entropy::new(f64v(4.0), CountingProducer(0)),
    ]);
    Filter::<u8>::observe(&mut and, &[1u8, 2u8, 3u8]);
    assert!(Filter::<u8>::includes(&and, 0));
}

#[test]
fn min_smaller_returns_false() {
    assert_eq!(false, Min::new(f64v(32.445)).includes(f64v(32.0)));
    assert_eq!(false, Min::new(32).includes(31));
    assert_eq!(false, Min::new(40u8).includes(0));
}

#[test]
fn min_equal_returns_true() {
    assert_eq!(true, Min::new(f64v(32.445)).includes(f64v(32.445)));
    assert_eq!(true, Min::new(31).includes(31));
    assert_eq!(true, Min::new(40u8).includes(40u8));
}

#[test]
fn min_greater_returns_false() {
    assert_eq!(true, Min::new(f64v(30.445)).includes(f64v(32.0)));
    assert_eq!(true, Min::new(30).includes(31));
    assert_eq!(true, Min::new(40u8).includes(44));
}
