//! Runtime settings.
//!
//! Every setting has a default and may be overridden by an environment
//! variable; the surrounding runtime reads the variables and hands the
//! raw strings in.  An unparseable override falls back to the default,
//! as does an unrecognised boolean.

use vstd::prelude::*;
use vstd::string::StringExecFns;

use crate::text::{lower_seq, parse_u16_spec, parse_u16, str_eq_lowered};

verus! {

/// The settings of the process: ports and certificates, the debounce
/// and reconcile clocks, the checksum and registry backends, and the
/// annotation toggles.
pub struct Settings {
    pub version: String,
    pub port: u16,
    pub secure_port: u16,
    pub certificate: String,
    pub certificate_key: String,
    pub update_debounce: u16,
    pub watch_dispatcher_first_reconcile: u16,
    pub watch_dispatcher_reconcile: u16,
    pub watch_dispatcher_debounce: u16,
    pub check_key_timeout: String,
    pub check_key_idle: u16,
    pub check_key_error_wait: u16,
    pub checksum_type: String,
    pub key_manager_type: String,
    pub set_deployment_annotations: bool,
    pub set_deployment_spec_annotations: bool,
    pub set_deployment_timestamp: bool,
    pub set_deployment_spec_timestamp: bool,
}

impl Settings {
    /// Whether the plain HTTP server is enabled.
    pub fn is_insecure_enabled(&self) -> (r: bool)
        ensures
            r == (self.port != 0),
    {
        self.port != 0
    }

    /// Whether the TLS server is enabled: a port and both PEM paths.
    pub fn is_secure_enabled(&self) -> (r: bool)
        ensures
            r == (self.secure_port != 0 && self.certificate@.len() > 0
                && self.certificate_key@.len() > 0),
    {
        self.secure_port != 0 && !self.certificate.as_str().is_empty()
            && !self.certificate_key.as_str().is_empty()
    }
}

/// The value of a numeric setting: the override when present and
/// parseable, else the default.
pub open spec fn u16_setting_spec(raw: Option<Seq<char>>, default: u16) -> u16 {
    match raw {
        None => default,
        Some(s) => match parse_u16_spec(s) {
            Some(v) => v,
            None => default,
        },
    }
}

/// Reads a numeric setting.
pub fn u16_setting(raw: Option<&str>, default: u16) -> (r: u16)
    ensures
        r == u16_setting_spec(
            match raw {
                None => None,
                Some(s) => Some(s@),
            },
            default,
        ),
{
    match raw {
        None => default,
        Some(s) => match parse_u16(s) {
            Some(v) => v,
            None => default,
        },
    }
}

/// The value of a boolean toggle: `true` or `false` in any casing,
/// else the default.
pub open spec fn bool_setting_spec(raw: Option<Seq<char>>, default: bool) -> bool {
    match raw {
        None => default,
        Some(s) => if lower_seq(s) == "true"@ {
            true
        } else if lower_seq(s) == "false"@ {
            false
        } else {
            default
        },
    }
}

/// Reads a boolean toggle.
pub fn bool_setting(raw: Option<&str>, default: bool) -> (r: bool)
    ensures
        r == bool_setting_spec(
            match raw {
                None => None,
                Some(s) => Some(s@),
            },
            default,
        ),
{
    match raw {
        None => default,
        Some(s) => {
            if str_eq_lowered(s, "true") {
                true
            } else if str_eq_lowered(s, "false") {
                false
            } else {
                default
            }
        },
    }
}

/// The value of a string setting: the override when present, else the
/// default.
pub open spec fn string_setting_spec(raw: Option<Seq<char>>, default: Seq<char>) -> Seq<char> {
    match raw {
        None => default,
        Some(s) => s,
    }
}

/// Reads a string setting.
pub fn string_setting(raw: Option<&str>, default: &str) -> (r: String)
    ensures
        r@ == string_setting_spec(
            match raw {
                None => None,
                Some(s) => Some(s@),
            },
            default@,
        ),
{
    match raw {
        None => String::from_str(default),
        Some(s) => String::from_str(s),
    }
}

/// The value of a backend selector: a known name in any casing is
/// normalised to lowercase, anything else is kept as given, and an
/// absent override yields the default.
pub open spec fn selector_setting_spec(
    raw: Option<Seq<char>>,
    first: Seq<char>,
    second: Seq<char>,
    default: Seq<char>,
) -> Seq<char> {
    match raw {
        None => default,
        Some(s) => if lower_seq(s) == first {
            first
        } else if lower_seq(s) == second {
            second
        } else {
            s
        },
    }
}

/// Reads a backend selector with two recognised names.
pub fn selector_setting(raw: Option<&str>, first: &str, second: &str, default: &str) -> (r:
    String)
    ensures
        r@ == selector_setting_spec(
            match raw {
                None => None,
                Some(s) => Some(s@),
            },
            first@,
            second@,
            default@,
        ),
{
    match raw {
        None => String::from_str(default),
        Some(s) => {
            if str_eq_lowered(s, first) {
                String::from_str(first)
            } else if str_eq_lowered(s, second) {
                String::from_str(second)
            } else {
                String::from_str(s)
            }
        },
    }
}

/// Builds the settings from the raw environment overrides, applying
/// the documented default for each one that is absent or unreadable.
pub fn build_settings(
    version: &str,
    port: Option<&str>,
    secure_port: Option<&str>,
    certificate: Option<&str>,
    certificate_key: Option<&str>,
    update_debounce: Option<&str>,
    watch_dispatcher_first_reconcile: Option<&str>,
    watch_dispatcher_reconcile: Option<&str>,
    watch_dispatcher_debounce: Option<&str>,
    check_key_timeout: Option<&str>,
    check_key_idle: Option<&str>,
    check_key_error_wait: Option<&str>,
    checksum_type: Option<&str>,
    key_manager_type: Option<&str>,
    set_deployment_annotations: Option<&str>,
    set_deployment_spec_annotations: Option<&str>,
    set_deployment_timestamp: Option<&str>,
    set_deployment_spec_timestamp: Option<&str>,
) -> (r: Settings)
    ensures
        r.version@ == version@,
        r.port == u16_setting_spec(opt_view(port), 8080),
        r.secure_port == u16_setting_spec(opt_view(secure_port), 8443),
        r.certificate@ == string_setting_spec(opt_view(certificate), ""@),
        r.certificate_key@ == string_setting_spec(opt_view(certificate_key), ""@),
        r.update_debounce == u16_setting_spec(opt_view(update_debounce), 60),
        r.watch_dispatcher_first_reconcile == u16_setting_spec(
            opt_view(watch_dispatcher_first_reconcile),
            30,
        ),
        r.watch_dispatcher_reconcile == u16_setting_spec(opt_view(watch_dispatcher_reconcile), 1800),
        r.watch_dispatcher_debounce == u16_setting_spec(opt_view(watch_dispatcher_debounce), 60),
        r.check_key_timeout@ == string_setting_spec(opt_view(check_key_timeout), "10s"@),
        r.check_key_idle == u16_setting_spec(opt_view(check_key_idle), 60),
        r.check_key_error_wait == u16_setting_spec(opt_view(check_key_error_wait), 60),
        r.checksum_type@ == selector_setting_spec(
            opt_view(checksum_type),
            "md5"@,
            "sha256"@,
            "md5"@,
        ),
        r.key_manager_type@ == selector_setting_spec(
            opt_view(key_manager_type),
            "memory"@,
            "null"@,
            "memory"@,
        ),
        r.set_deployment_annotations == bool_setting_spec(
            opt_view(set_deployment_annotations),
            true,
        ),
        r.set_deployment_spec_annotations == bool_setting_spec(
            opt_view(set_deployment_spec_annotations),
            true,
        ),
        r.set_deployment_timestamp == bool_setting_spec(opt_view(set_deployment_timestamp), true),
        r.set_deployment_spec_timestamp == bool_setting_spec(
            opt_view(set_deployment_spec_timestamp),
            false,
        ),
{
    Settings {
        version: String::from_str(version),
        port: u16_setting(port, 8080),
        secure_port: u16_setting(secure_port, 8443),
        certificate: string_setting(certificate, ""),
        certificate_key: string_setting(certificate_key, ""),
        update_debounce: u16_setting(update_debounce, 60),
        watch_dispatcher_first_reconcile: u16_setting(watch_dispatcher_first_reconcile, 30),
        watch_dispatcher_reconcile: u16_setting(watch_dispatcher_reconcile, 1800),
        watch_dispatcher_debounce: u16_setting(watch_dispatcher_debounce, 60),
        check_key_timeout: string_setting(check_key_timeout, "10s"),
        check_key_idle: u16_setting(check_key_idle, 60),
        check_key_error_wait: u16_setting(check_key_error_wait, 60),
        checksum_type: selector_setting(checksum_type, "md5", "sha256", "md5"),
        key_manager_type: selector_setting(key_manager_type, "memory", "null", "memory"),
        set_deployment_annotations: bool_setting(set_deployment_annotations, true),
        set_deployment_spec_annotations: bool_setting(set_deployment_spec_annotations, true),
        set_deployment_timestamp: bool_setting(set_deployment_timestamp, true),
        set_deployment_spec_timestamp: bool_setting(set_deployment_spec_timestamp, false),
    }
}

/// The characters of an optional borrowed string.
pub open spec fn opt_view(raw: Option<&str>) -> Option<Seq<char>> {
    match raw {
        None => None,
        Some(s) => Some(s@),
    }
}

} // verus!
