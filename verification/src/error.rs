//! The error model of the bridge: exactly two kinds of failure.

use vstd::prelude::*;

verus! {

/// The structured error a bridge operation can return.
#[derive(Debug, PartialEq, Eq)]
pub enum Error {
    /// A native invocation failed; carries the native error's textual
    /// description.  Propagated verbatim to the caller, never retried.
    PluginInvoke(String),
    /// The operation has no meaning on the current platform.  Reserved for
    /// future platform gating: platforms without the native subsystem
    /// currently short-circuit to success defaults instead of raising it.
    NotSupported,
}

impl Error {
    /// A human-readable description of the error, for diagnostics.
    pub fn describe(&self) -> (r: String)
        ensures
            match self {
                Error::PluginInvoke(m) => r@ == "Plugin invocation failed: "@ + m@,
                Error::NotSupported => r@ == "Not supported on this platform"@,
            },
    {
        match self {
            Error::PluginInvoke(m) => String::from_str("Plugin invocation failed: ").concat(
                m.as_str(),
            ),
            Error::NotSupported => String::from_str("Not supported on this platform"),
        }
    }
}

} // verus!
