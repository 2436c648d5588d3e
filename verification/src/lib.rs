//! A bridge exposing three device-level battery-optimization operations
//! (query status, request exemption, open settings) to a host application
//! shell.  On the supported native platform each operation forwards to the
//! native permission subsystem; on every other platform it returns a
//! deterministic, inert default.
//!
//! This crate holds the verified part of the bridge: the status and error
//! data model, the dispatch decisions (what each operation returns for each
//! possible native outcome), the fixed registration identifiers, and the
//! wire codec for the status record and the error value.  The unverified
//! shell around it performs the actual native calls and hands their
//! outcomes to the functions here.

use vstd::prelude::*;

pub mod commands;
pub mod error;
pub mod wire;

pub use commands::check_battery_optimization_status;
pub use commands::open_battery_settings;
pub use commands::request_battery_optimization_exemption;
pub use commands::ActionReply;
pub use commands::NativeOperation;
pub use commands::StatusReply;
pub use error::Error;

verus! {

/// Battery optimization status returned by the bridge.
#[derive(Debug, Clone, Copy, PartialEq, Eq, Structural)]
pub struct BatteryStatus {
    /// Whether the app is subject to battery optimization (restricted
    /// background execution).
    pub is_optimized: bool,
    /// Whether the app is ignoring battery optimizations (unrestricted
    /// background access).
    pub is_ignoring_optimizations: bool,
}

/// The status reported on every platform other than the supported native
/// one: fully unrestricted, the safe default where this restriction model
/// does not exist.
pub fn default_status() -> (r: BatteryStatus)
    ensures
        r == (BatteryStatus { is_optimized: false, is_ignoring_optimizations: true }),
{
    BatteryStatus { is_optimized: false, is_ignoring_optimizations: true }
}

/// The package/namespace part of the fixed identifier pair under which the
/// native integration is registered at startup.
pub fn registration_domain() -> (r: String)
    ensures
        r@ == "com.plugin.android_battery_optimization"@,
{
    String::from_str("com.plugin.android_battery_optimization")
}

/// The component-name part of the fixed identifier pair under which the
/// native integration is registered at startup.
pub fn registration_component() -> (r: String)
    ensures
        r@ == "BatteryOptimizationPlugin"@,
{
    String::from_str("BatteryOptimizationPlugin")
}

/// Decide whether application startup may proceed, given the outcome of
/// the one-time native registration.
///
/// Platforms without the native subsystem register nothing and start up;
/// a successful registration starts up; a failed registration aborts
/// startup with the underlying platform error surfaced verbatim — startup
/// never continues silently with an unusable native handle.
pub fn resolve_registration(outcome: commands::ActionReply) -> (r: Result<(), String>)
    ensures
        match outcome {
            commands::ActionReply::Unavailable => r == Ok::<(), String>(()),
            commands::ActionReply::Done => r == Ok::<(), String>(()),
            commands::ActionReply::Failure(m) => r == Err::<(), String>(m),
        },
{
    match outcome {
        commands::ActionReply::Unavailable => Ok(()),
        commands::ActionReply::Done => Ok(()),
        commands::ActionReply::Failure(m) => Err(m),
    }
}

} // verus!
