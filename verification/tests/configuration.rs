use bitgrep::filters::configuration::{Configuration, ConfigurationError, EntropyConfig};
use bitgrep::filters::filter::Filter;
use bitgrep::types::float::{Float32, Float64};
use bitgrep::workers::entropy_processor::EntropyProducer;

fn f32v(value: f32) -> Float32 {
    Float32::from_bits(value.to_bits())
}

fn f64v(value: f64) -> Float64 {
    Float64::from_bits(value.to_bits())
}

struct Fixed(Option<f64>);

impl EntropyProducer for Fixed {
    fn entropy(&self) -> Option<Float64> {
        self.0.map(f64v)
    }

    fn observe(&mut self, _: &[u8]) {}
}

fn boxed(entropy: Option<f64>) -> Box<dyn EntropyProducer> {
    Box::new(Fixed(entropy))
}

#[test]
fn nothing_asked_for_makes_no_filter() {
    let configuration: Configuration<i32> = Configuration::default();

    assert_eq!(configuration.create_filter().err(), Some(ConfigurationError::NoFilter));
}

#[test]
fn a_literal_with_a_bound_makes_no_filter() {
    let configuration: Configuration<i32> = Configuration {
        minimum: Some(1),
        literal: Some(3),
        ..Default::default()
    };
    assert_eq!(
        configuration.create_filter().err(),
        Some(ConfigurationError::LiteralWithRange)
    );

    let configuration: Configuration<i32> = Configuration {
        maximum: Some(1),
        literal: Some(3),
        entropy: Some(EntropyConfig { max_entropy: f64v(7.5), entropy_producer: boxed(None) }),
        ..Default::default()
    };
    assert_eq!(
        configuration.create_filter().err(),
        Some(ConfigurationError::LiteralWithRange)
    );
}

#[test]
fn a_range_lets_through_what_lies_in_it() {
    let configuration: Configuration<i32> = Configuration {
        minimum: Some(-3),
        maximum: Some(5),
        ..Default::default()
    };
    let filter = configuration.create_filter().expect("a filter");

    assert!(filter.includes(-3));
    assert!(filter.includes(0));
    assert!(filter.includes(5));
    assert!(!filter.includes(-4));
    assert!(!filter.includes(6));
}

#[test]
fn one_bound_alone() {
    let configuration: Configuration<u64> = Configuration {
        minimum: Some(10),
        ..Default::default()
    };
    let filter = configuration.create_filter().expect("a filter");
    assert!(filter.includes(10));
    assert!(filter.includes(u64::MAX));
    assert!(!filter.includes(9));

    let configuration: Configuration<Float32> = Configuration {
        maximum: Some(f32v(1.5)),
        ..Default::default()
    };
    let filter = configuration.create_filter().expect("a filter");
    assert!(filter.includes(f32v(1.5)));
    assert!(filter.includes(f32v(f32::MIN)));
    assert!(!filter.includes(f32v(1.5000001)));
    assert!(!filter.includes(f32v(f32::NEG_INFINITY)));
    assert!(!filter.includes(f32v(f32::NAN)));
}

#[test]
fn a_range_that_is_empty_lets_nothing_through() {
    let configuration: Configuration<i32> = Configuration {
        minimum: Some(10),
        maximum: Some(5),
        ..Default::default()
    };
    let filter = configuration.create_filter().expect("a filter");

    assert!(!filter.includes(7));
    assert!(!filter.includes(5));
    assert!(!filter.includes(10));
}

#[test]
fn a_literal_lets_through_what_equals_it() {
    let configuration: Configuration<Float64> = Configuration {
        literal: Some(f64v(33.248462071692536)),
        ..Default::default()
    };
    let filter = configuration.create_filter().expect("a filter");

    assert!(filter.includes(f64v(33.248462071692536)));
    assert!(filter.includes(Float64::from_bits(33.248462071692536f64.to_bits() + 4)));
    assert!(!filter.includes(Float64::from_bits(33.248462071692536f64.to_bits() + 5)));
    assert!(!filter.includes(f64v(33.2)));
}

#[test]
fn an_entropy_ceiling_alone_makes_a_filter() {
    let configuration: Configuration<u8> = Configuration {
        entropy: Some(EntropyConfig { max_entropy: f64v(7.5), entropy_producer: boxed(Some(7.0)) }),
        ..Default::default()
    };
    let filter = configuration.create_filter().expect("a filter");
    assert!(filter.includes(0));

    let configuration: Configuration<u8> = Configuration {
        entropy: Some(EntropyConfig { max_entropy: f64v(7.5), entropy_producer: boxed(Some(7.6)) }),
        ..Default::default()
    };
    let filter = configuration.create_filter().expect("a filter");
    assert!(!filter.includes(0));

    let configuration: Configuration<u8> = Configuration {
        entropy: Some(EntropyConfig { max_entropy: f64v(7.5), entropy_producer: boxed(None) }),
        ..Default::default()
    };
    let filter = configuration.create_filter().expect("a filter");
    assert!(!filter.includes(0));
}

#[test]
fn an_entropy_ceiling_narrows_a_range() {
    let configuration: Configuration<i16, Fixed> = Configuration {
        minimum: Some(0),
        maximum: Some(9),
        literal: None,
        entropy: Some(EntropyConfig { max_entropy: f64v(7.5), entropy_producer: Fixed(Some(7.5)) }),
    };
    let filter = configuration.create_filter().expect("a filter");
    assert!(filter.includes(0));
    assert!(filter.includes(9));
    assert!(!filter.includes(10));

    let configuration: Configuration<i16, Fixed> = Configuration {
        minimum: Some(0),
        maximum: Some(9),
        literal: None,
        entropy: Some(EntropyConfig { max_entropy: f64v(7.5), entropy_producer: Fixed(Some(8.0)) }),
    };
    let filter = configuration.create_filter().expect("a filter");
    assert!(!filter.includes(0));
    assert!(!filter.includes(9));
}
