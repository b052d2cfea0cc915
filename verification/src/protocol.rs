//! Versioned client-facing protocol types shared by native and browser hosts.

use vstd::prelude::*;

use crate::runtime::ResourceLimits;
#[allow(unused_imports)]
use crate::runtime_error::default_limits;

verus! {

pub const API_VERSION: &'static str = "v1";

pub const PRODUCT: &'static str = "A/RVM";

pub const VERSION: &'static str = "0.1.0";

#[derive(Debug, Clone, Copy, PartialEq, Eq, Structural)]
pub struct FeatureStatus {
    pub available: bool,
    pub durable: bool,
}

#[derive(Debug, Clone, Copy, PartialEq, Eq, Structural)]
pub struct SystemFeatures {
    pub workspaces: FeatureStatus,
    pub capability_gatekeepers: FeatureStatus,
    pub bytecode_executor: FeatureStatus,
    pub wasm_executor: FeatureStatus,
    pub native_sandbox_executor: FeatureStatus,
    pub sessions: FeatureStatus,
    pub workflows: FeatureStatus,
}

#[derive(Debug, PartialEq, Eq)]
pub struct SystemInfo {
    pub product: String,
    pub version: String,
    pub api_version: String,
    pub runtime_limits: ResourceLimits,
    pub features: SystemFeatures,
}

/// What is there now: what runs is not durable, sessions are, and no executor outside the
/// bytecode machine is there.
pub open spec fn current_features() -> SystemFeatures {
    let transient = FeatureStatus { available: true, durable: false };
    let absent = FeatureStatus { available: false, durable: false };
    SystemFeatures {
        workspaces: transient,
        capability_gatekeepers: transient,
        bytecode_executor: transient,
        wasm_executor: absent,
        native_sandbox_executor: absent,
        sessions: FeatureStatus { available: true, durable: true },
        workflows: absent,
    }
}

impl SystemInfo {
    pub fn current() -> (r: Self)
        ensures
            r.product@ == PRODUCT@,
            r.version@ == VERSION@,
            r.api_version@ == API_VERSION@,
            r.runtime_limits == default_limits(),
            r.features == current_features(),
    {
        let transient = FeatureStatus { available: true, durable: false };
        let absent = FeatureStatus { available: false, durable: false };
        SystemInfo {
            product: PRODUCT.to_owned(),
            version: VERSION.to_owned(),
            api_version: API_VERSION.to_owned(),
            runtime_limits: ResourceLimits::default(),
            features: SystemFeatures {
                workspaces: transient,
                capability_gatekeepers: transient,
                bytecode_executor: transient,
                wasm_executor: absent,
                native_sandbox_executor: absent,
                sessions: FeatureStatus { available: true, durable: true },
                workflows: absent,
            },
        }
    }
}

} // verus!
