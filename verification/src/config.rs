//! Pipeline configuration: the service name, the collector endpoint,
//! the sampling policy and the per-span limits, with the startup
//! validation that rejects a bad configuration before any tracing.

use vstd::prelude::*;
use crate::data::TraceError;

verus! {

/// The policy deciding which traces are recorded at the exporter
/// boundary. A ratio is given in parts per million.
#[derive(Clone, Copy, PartialEq, Eq, Structural, Debug)]
pub enum Sampler {
    AlwaysOn,
    AlwaysOff,
    RatioPerMillion(u32),
}

/// The sampling decision for one trace, given a uniformly drawn
/// number. Drawing the number is the host program's business; the
/// decision itself is a pure function of the policy and the draw.
pub open spec fn spec_should_sample(s: Sampler, draw: u32) -> bool {
    match s {
        Sampler::AlwaysOn => true,
        Sampler::AlwaysOff => false,
        Sampler::RatioPerMillion(m) => (draw as int % 1000000) < m,
    }
}

impl Sampler {
    /// Decides whether a trace with the given uniform draw is recorded.
    pub fn should_sample(&self, draw: u32) -> (r: bool)
        ensures
            r == spec_should_sample(*self, draw),
    {
        match self {
            Sampler::AlwaysOn => true,
            Sampler::AlwaysOff => false,
            Sampler::RatioPerMillion(m) => (draw % 1000000) < *m,
        }
    }
}

/// The pipeline's configuration.
pub struct Config {
    pub service_name: String,
    pub collector_endpoint: String,
    pub sampler: Sampler,
    pub max_events_per_span: u64,
    pub max_attributes_per_span: u64,
}

impl Config {
    /// Whether the configuration is acceptable: the service name and
    /// the collector endpoint must both be non-empty.
    pub open spec fn spec_valid(&self) -> bool {
        self.service_name@.len() > 0 && self.collector_endpoint@.len() > 0
    }

    /// Validates the configuration at startup. An empty service name
    /// or collector endpoint is a configuration fault, fatal before
    /// any tracing occurs.
    pub fn validate(&self) -> (r: Result<(), TraceError>)
        ensures
            r is Ok <==> self.spec_valid(),
            r == Err::<(), TraceError>(TraceError::EmptyServiceName) <==> self.service_name@.len()
                == 0,
            r == Err::<(), TraceError>(TraceError::EmptyEndpoint) <==> (self.service_name@.len()
                > 0 && self.collector_endpoint@.len() == 0),
    {
        if self.service_name.as_str().is_empty() {
            return Err(TraceError::EmptyServiceName);
        }
        if self.collector_endpoint.as_str().is_empty() {
            return Err(TraceError::EmptyEndpoint);
        }
        Ok(())
    }
}

} // verus!
