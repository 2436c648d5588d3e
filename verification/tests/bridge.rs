use android_battery_optimization::commands::operation_name;
use android_battery_optimization::commands::ActionReply;
use android_battery_optimization::commands::NativeOperation;
use android_battery_optimization::commands::StatusReply;
use android_battery_optimization::wire::decode_battery_status;
use android_battery_optimization::wire::decode_error;
use android_battery_optimization::wire::encode_battery_status;
use android_battery_optimization::wire::encode_error;
use android_battery_optimization::check_battery_optimization_status;
use android_battery_optimization::default_status;
use android_battery_optimization::open_battery_settings;
use android_battery_optimization::registration_component;
use android_battery_optimization::registration_domain;
use android_battery_optimization::request_battery_optimization_exemption;
use android_battery_optimization::resolve_registration;
use android_battery_optimization::BatteryStatus;
use android_battery_optimization::Error;

fn status(is_optimized: bool, is_ignoring_optimizations: bool) -> BatteryStatus {
    BatteryStatus { is_optimized, is_ignoring_optimizations }
}

#[test]
fn non_native_status_reports_unrestricted() {
    let r = check_battery_optimization_status(StatusReply::Unavailable);
    assert_eq!(r, Ok(status(false, true)));
}

#[test]
fn non_native_exemption_succeeds() {
    assert_eq!(request_battery_optimization_exemption(ActionReply::Unavailable), Ok(()));
}

#[test]
fn non_native_settings_succeed() {
    assert_eq!(open_battery_settings(ActionReply::Unavailable), Ok(()));
}

#[test]
fn native_status_passes_through() {
    let r = check_battery_optimization_status(StatusReply::Value(status(true, false)));
    assert_eq!(r, Ok(status(true, false)));
    let r = check_battery_optimization_status(StatusReply::Value(status(false, true)));
    assert_eq!(r, Ok(status(false, true)));
}

#[test]
fn native_status_failure_surfaces() {
    let r = check_battery_optimization_status(StatusReply::Failure("M".to_string()));
    assert_eq!(r, Err(Error::PluginInvoke("M".to_string())));
}

#[test]
fn native_exemption_denied_surfaces() {
    let r = request_battery_optimization_exemption(ActionReply::Failure(
        "permission denied".to_string(),
    ));
    assert_eq!(r, Err(Error::PluginInvoke("permission denied".to_string())));
}

#[test]
fn native_exemption_dispatch_succeeds() {
    assert_eq!(request_battery_optimization_exemption(ActionReply::Done), Ok(()));
}

#[test]
fn native_settings_failure_surfaces() {
    let r = open_battery_settings(ActionReply::Failure("no activity".to_string()));
    assert_eq!(r, Err(Error::PluginInvoke("no activity".to_string())));
}

#[test]
fn registration_failure_aborts_startup() {
    let r = resolve_registration(ActionReply::Failure("plugin not loadable".to_string()));
    assert_eq!(r, Err("plugin not loadable".to_string()));
}

#[test]
fn registration_success_and_absence_start_up() {
    assert_eq!(resolve_registration(ActionReply::Done), Ok(()));
    assert_eq!(resolve_registration(ActionReply::Unavailable), Ok(()));
}

#[test]
fn default_status_is_unrestricted() {
    assert_eq!(default_status(), status(false, true));
}

#[test]
fn operation_names_are_exact() {
    assert_eq!(
        operation_name(&NativeOperation::CheckBatteryOptimizationStatus),
        "checkBatteryOptimizationStatus"
    );
    assert_eq!(
        operation_name(&NativeOperation::RequestBatteryOptimizationExemption),
        "requestBatteryOptimizationExemption"
    );
    assert_eq!(operation_name(&NativeOperation::OpenBatterySettings), "openBatterySettings");
}

#[test]
fn registration_identifiers_are_exact() {
    assert_eq!(registration_domain(), "com.plugin.android_battery_optimization");
    assert_eq!(registration_component(), "BatteryOptimizationPlugin");
}

#[test]
fn error_descriptions_are_exact() {
    assert_eq!(
        Error::PluginInvoke("M".to_string()).describe(),
        "Plugin invocation failed: M"
    );
    assert_eq!(Error::NotSupported.describe(), "Not supported on this platform");
}

#[test]
fn status_wire_text_is_exact() {
    assert_eq!(
        encode_battery_status(&status(false, true)),
        "{\"isOptimized\":false,\"isIgnoringOptimizations\":true}"
    );
    assert_eq!(
        encode_battery_status(&status(true, false)),
        "{\"isOptimized\":true,\"isIgnoringOptimizations\":false}"
    );
}

#[test]
fn status_round_trip_all_combinations() {
    for s in [status(false, false), status(false, true), status(true, false), status(true, true)] {
        let text = encode_battery_status(&s);
        assert_eq!(decode_battery_status(text.as_str()), Some(s));
    }
}

#[test]
fn status_decode_rejects_non_canonical_text() {
    assert_eq!(decode_battery_status(""), None);
    assert_eq!(decode_battery_status("{\"isOptimized\":false}"), None);
    assert_eq!(
        decode_battery_status("{\"isOptimized\": false,\"isIgnoringOptimizations\": true}"),
        None
    );
    assert_eq!(decode_battery_status("{\"kind\":\"notSupported\"}"), None);
}

#[test]
fn error_wire_text_is_exact() {
    assert_eq!(encode_error(&Error::NotSupported), "{\"kind\":\"notSupported\"}");
    assert_eq!(
        encode_error(&Error::PluginInvoke("permission denied".to_string())),
        "{\"kind\":\"pluginInvoke\",\"message\":\"permission denied\"}"
    );
}

#[test]
fn error_wire_escapes_quotes_and_backslashes() {
    assert_eq!(
        encode_error(&Error::PluginInvoke("say \"hi\" \\ bye".to_string())),
        "{\"kind\":\"pluginInvoke\",\"message\":\"say \\\"hi\\\" \\\\ bye\"}"
    );
}

#[test]
fn error_round_trip_both_variants() {
    let messages = ["", "permission denied", "a\"b\\c", "\\", "\"", "{\"kind\":\"x\"}"];
    for m in messages {
        let e = Error::PluginInvoke(m.to_string());
        let text = encode_error(&e);
        assert_eq!(decode_error(text.as_str()), Some(e));
    }
    let text = encode_error(&Error::NotSupported);
    assert_eq!(decode_error(text.as_str()), Some(Error::NotSupported));
}

#[test]
fn error_decode_rejects_non_canonical_text() {
    assert_eq!(decode_error(""), None);
    assert_eq!(decode_error("{\"kind\":\"pluginInvoke\",\"message\":\"x"), None);
    assert_eq!(decode_error("{\"kind\":\"pluginInvoke\",\"message\":\"a\\\"}"), None);
    assert_eq!(decode_error("{\"kind\":\"pluginInvoke\",\"message\":\"a\"}x"), None);
    assert_eq!(decode_error("{\"kind\":\"unknown\"}"), None);
    assert_eq!(decode_error("{\"isOptimized\":false,\"isIgnoringOptimizations\":true}"), None);
}
