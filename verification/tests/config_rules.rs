//! Startup validation of the configuration and the sampling decision.

use tracepipe::config::{Config, Sampler};
use tracepipe::data::TraceError;

fn base_config() -> Config {
    Config {
        service_name: String::from("data.transformation.agent"),
        collector_endpoint: String::from("http://collector:6831"),
        sampler: Sampler::AlwaysOn,
        max_events_per_span: 128,
        max_attributes_per_span: 32,
    }
}

#[test]
fn valid_configuration_passes() {
    assert_eq!(base_config().validate(), Ok(()));
}

#[test]
fn empty_service_name_is_fatal() {
    let mut cfg = base_config();
    cfg.service_name = String::new();
    assert_eq!(cfg.validate(), Err(TraceError::EmptyServiceName));
}

#[test]
fn empty_endpoint_is_fatal() {
    let mut cfg = base_config();
    cfg.collector_endpoint = String::new();
    assert_eq!(cfg.validate(), Err(TraceError::EmptyEndpoint));
}

#[test]
fn empty_service_name_is_reported_before_endpoint() {
    let mut cfg = base_config();
    cfg.service_name = String::new();
    cfg.collector_endpoint = String::new();
    assert_eq!(cfg.validate(), Err(TraceError::EmptyServiceName));
}

#[test]
fn sampler_decisions() {
    assert!(Sampler::AlwaysOn.should_sample(0));
    assert!(Sampler::AlwaysOn.should_sample(u32::MAX));
    assert!(!Sampler::AlwaysOff.should_sample(0));
    assert!(!Sampler::AlwaysOff.should_sample(u32::MAX));

    let half = Sampler::RatioPerMillion(500_000);
    assert!(half.should_sample(0));
    assert!(half.should_sample(499_999));
    assert!(!half.should_sample(500_000));
    assert!(!half.should_sample(999_999));
    // The draw is reduced modulo one million.
    assert!(half.should_sample(1_000_000));
    assert!(!half.should_sample(1_500_000));

    assert!(!Sampler::RatioPerMillion(0).should_sample(0));
    assert!(Sampler::RatioPerMillion(1_000_000).should_sample(999_999));
}
