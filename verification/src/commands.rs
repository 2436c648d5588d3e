//! The dispatch decisions of the bridge.
//!
//! Each callable operation is a single-shot request/response: the shell
//! around this crate determines the compiled target platform, performs the
//! native call where one is due, and hands the observed outcome to the
//! function here; the function decides the response the host application
//! receives.  On platforms other than the supported native one no native
//! call is attempted and each operation short-circuits to its fixed,
//! non-error default.

use crate::error::Error;
use crate::BatteryStatus;
use vstd::prelude::*;

verus! {

/// The outcome of the native status query, as the shell observed it.
#[derive(Debug)]
pub enum StatusReply {
    /// The build does not target the supported native platform, so no
    /// native call was attempted.
    Unavailable,
    /// The native status query returned this status.
    Value(BatteryStatus),
    /// The native status query failed; carries the native error's textual
    /// description.
    Failure(String),
}

/// The outcome of a native action (exemption request or settings
/// navigation), as the shell observed it.
#[derive(Debug)]
pub enum ActionReply {
    /// The build does not target the supported native platform, so no
    /// native call was attempted.
    Unavailable,
    /// The native action was dispatched successfully.
    Done,
    /// The native action failed; carries the native error's textual
    /// description.
    Failure(String),
}

/// The three operation names the native layer dispatches on.
#[derive(Debug, Clone, Copy, PartialEq, Eq, Structural)]
pub enum NativeOperation {
    CheckBatteryOptimizationStatus,
    RequestBatteryOptimizationExemption,
    OpenBatterySettings,
}

/// The exact string under which an operation is invoked on the native
/// layer; it must match the name the native side registers.
pub fn operation_name(op: &NativeOperation) -> (r: String)
    ensures
        match op {
            NativeOperation::CheckBatteryOptimizationStatus => r@
                == "checkBatteryOptimizationStatus"@,
            NativeOperation::RequestBatteryOptimizationExemption => r@
                == "requestBatteryOptimizationExemption"@,
            NativeOperation::OpenBatterySettings => r@ == "openBatterySettings"@,
        },
{
    match op {
        NativeOperation::CheckBatteryOptimizationStatus => String::from_str(
            "checkBatteryOptimizationStatus",
        ),
        NativeOperation::RequestBatteryOptimizationExemption => String::from_str(
            "requestBatteryOptimizationExemption",
        ),
        NativeOperation::OpenBatterySettings => String::from_str("openBatterySettings"),
    }
}

/// Decide the response of the status query.
///
/// Where no native platform is available the bridge reports "fully
/// unrestricted"; a native status is relayed unchanged; a native failure
/// surfaces verbatim as `Error::PluginInvoke`.
pub fn check_battery_optimization_status(reply: StatusReply) -> (r: Result<BatteryStatus, Error>)
    ensures
        match reply {
            StatusReply::Unavailable => r == Ok::<BatteryStatus, Error>(
                BatteryStatus { is_optimized: false, is_ignoring_optimizations: true },
            ),
            StatusReply::Value(s) => r == Ok::<BatteryStatus, Error>(s),
            StatusReply::Failure(m) => r == Err::<BatteryStatus, Error>(Error::PluginInvoke(m)),
        },
{
    match reply {
        StatusReply::Unavailable => Ok(crate::default_status()),
        StatusReply::Value(s) => Ok(s),
        StatusReply::Failure(m) => Err(Error::PluginInvoke(m)),
    }
}

/// Decide the response of the exemption request.
///
/// The request is fire-and-forget: a successful dispatch succeeds without
/// reporting the user's decision; on other platforms it succeeds trivially;
/// a native failure surfaces verbatim as `Error::PluginInvoke`.
pub fn request_battery_optimization_exemption(reply: ActionReply) -> (r: Result<(), Error>)
    ensures
        match reply {
            ActionReply::Unavailable => r == Ok::<(), Error>(()),
            ActionReply::Done => r == Ok::<(), Error>(()),
            ActionReply::Failure(m) => r == Err::<(), Error>(Error::PluginInvoke(m)),
        },
{
    match reply {
        ActionReply::Unavailable => Ok(()),
        ActionReply::Done => Ok(()),
        ActionReply::Failure(m) => Err(Error::PluginInvoke(m)),
    }
}

/// Decide the response of the settings navigation.
///
/// A successful native navigation succeeds; on other platforms the
/// operation succeeds trivially with no effect; a native failure surfaces
/// verbatim as `Error::PluginInvoke`.
pub fn open_battery_settings(reply: ActionReply) -> (r: Result<(), Error>)
    ensures
        match reply {
            ActionReply::Unavailable => r == Ok::<(), Error>(()),
            ActionReply::Done => r == Ok::<(), Error>(()),
            ActionReply::Failure(m) => r == Err::<(), Error>(Error::PluginInvoke(m)),
        },
{
    match reply {
        ActionReply::Unavailable => Ok(()),
        ActionReply::Done => Ok(()),
        ActionReply::Failure(m) => Err(Error::PluginInvoke(m)),
    }
}

} // verus!
