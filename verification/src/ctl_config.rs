//! The settings of the control program.
use crate::config::rules;
use crate::config::rules::{broken, is_blank, ConfigError};
use crate::config::types;
use crate::text;
use crate::toml_doc;
use crate::toml_doc::{get, parse_document, Table, TomlValue};
use vstd::prelude::*;

verus! {

#[derive(Debug, Clone)]
pub struct CtlConfig {
    pub server: String,
    pub token: Option<String>,
    pub timeout_ms: u64,
    pub output: String,
}

pub ghost struct CtlConfigV {
    pub server: Seq<char>,
    pub token: Option<Seq<char>>,
    pub timeout_ms: u64,
    pub output: Seq<char>,
}

impl View for CtlConfig {
    type V = CtlConfigV;

    open spec fn view(&self) -> CtlConfigV {
        CtlConfigV {
            server: self.server@,
            token: types::optional_view(self.token),
            timeout_ms: self.timeout_ms,
            output: self.output@,
        }
    }
}

pub open spec fn default_ctl_config() -> CtlConfigV {
    CtlConfigV { server: "127.0.0.1:19090"@, token: None, timeout_ms: 5000, output: "json"@ }
}

impl Default for CtlConfig {
    fn default() -> (r: Self)
        ensures
            r@ == default_ctl_config(),
    {
        CtlConfig {
            server: "127.0.0.1:19090".to_owned(),
            token: None,
            timeout_ms: 5000,
            output: "json".to_owned(),
        }
    }
}

/// The first rule that the settings break.
pub open spec fn ctl_config_error(c: CtlConfigV) -> Option<Seq<char>> {
    if rules::blank(c.server) {
        Some("control server must not be empty"@)
    } else if c.timeout_ms == 0 {
        Some("timeout_ms must be > 0"@)
    } else if c.output != "json"@ && c.output != "table"@ {
        Some("invalid output: "@ + c.output + " (expected: json|table)"@)
    } else {
        None
    }
}

/// An optional text of a table; an error where the key has another value.
pub open spec fn optional_text_at(t: toml_doc::TableV, key: Seq<char>) -> Result<
    Option<Seq<char>>,
    (),
> {
    match toml_doc::lookup(t, key) {
        None => Ok(None),
        Some(toml_doc::TomlV::Str(s)) => Ok(Some(s)),
        Some(_) => Err(()),
    }
}

/// An optional number of a table; an error where the key has another value.
pub open spec fn optional_number_at(t: toml_doc::TableV, key: Seq<char>) -> Result<
    Option<u64>,
    (),
> {
    match toml_doc::lookup(t, key) {
        None => Ok(None),
        Some(toml_doc::TomlV::Int(n)) => if n >= 0 {
            Ok(Some(n as u64))
        } else {
            Err(())
        },
        Some(_) => Err(()),
    }
}

pub open spec fn or_else(a: Option<Seq<char>>, b: Option<Seq<char>>) -> Option<Seq<char>> {
    if a is Some {
        a
    } else {
        b
    }
}

pub open spec fn readable(t: toml_doc::TableV) -> bool {
    &&& optional_text_at(t, "server"@) is Ok
    &&& optional_text_at(t, "token"@) is Ok
    &&& optional_number_at(t, "timeout_ms"@) is Ok
    &&& optional_text_at(t, "output"@) is Ok
    &&& optional_text_at(t, "control_listen"@) is Ok
    &&& optional_text_at(t, "control_token"@) is Ok
}

/// The settings that a table gives. The server and the token may also stand under the names that
/// the server itself has for them.
pub open spec fn ctl_config_of(t: toml_doc::TableV) -> CtlConfigV {
    let usual = default_ctl_config();
    let server = or_else(
        optional_text_at(t, "server"@)->Ok_0,
        optional_text_at(t, "control_listen"@)->Ok_0,
    );
    let output = optional_text_at(t, "output"@)->Ok_0;
    let timeout = optional_number_at(t, "timeout_ms"@)->Ok_0;
    CtlConfigV {
        server: if server is Some {
            server->0
        } else {
            usual.server
        },
        token: or_else(
            optional_text_at(t, "token"@)->Ok_0,
            optional_text_at(t, "control_token"@)->Ok_0,
        ),
        timeout_ms: if timeout is Some {
            timeout->0
        } else {
            usual.timeout_ms
        },
        output: if output is Some {
            output->0
        } else {
            usual.output
        },
    }
}

/// The settings that a document gives, or what is wrong with it.
pub open spec fn ctl_config_of_document(
    document: Option<toml_doc::TomlV>,
    path: Seq<char>,
) -> Result<CtlConfigV, Seq<char>> {
    match document {
        Some(toml_doc::TomlV::Table(t)) => if !readable(t) {
            Err("failed to parse control config file: "@ + path)
        } else if ctl_config_error(ctl_config_of(t)) is Some {
            Err(ctl_config_error(ctl_config_of(t))->0)
        } else {
            Ok(ctl_config_of(t))
        },
        _ => Err("failed to parse control config file: "@ + path),
    }
}

fn read_text(t: &Table, key: &str) -> (r: Result<Option<String>, ()>)
    ensures
        match optional_text_at(toml_doc::table_view(t@), key@) {
            Ok(s) => r is Ok && types::optional_view(r->Ok_0) == s,
            Err(_) => r is Err,
        },
{
    match get(t, key) {
        None => Ok(None),
        Some(TomlValue::Str(s)) => Ok(Some(s.clone())),
        Some(_) => Err(()),
    }
}

fn read_number(t: &Table, key: &str) -> (r: Result<Option<u64>, ()>)
    ensures
        r == optional_number_at(toml_doc::table_view(t@), key@),
{
    match get(t, key) {
        None => Ok(None),
        Some(TomlValue::Int(n)) => if *n >= 0 {
            Ok(Some(*n as u64))
        } else {
            Err(())
        },
        Some(_) => Err(()),
    }
}

fn unreadable(path: &str) -> (r: Result<CtlConfig, ConfigError>)
    ensures
        r is Err,
        r->Err_0.message@ == "failed to parse control config file: "@ + path@,
{
    Err(ConfigError { message: text::concat("failed to parse control config file: ", path) })
}

impl CtlConfig {
    /// Checks the settings.
    pub fn validate(&self) -> (r: Result<(), ConfigError>)
        ensures
            rules::error_text(r) == ctl_config_error(self@),
    {
        if is_blank(self.server.as_str()) {
            return broken("control server must not be empty");
        }
        if self.timeout_ms == 0 {
            return broken("timeout_ms must be > 0");
        }
        if !text::same(self.output.as_str(), "json") && !text::same(
            self.output.as_str(),
            "table",
        ) {
            let mut message = text::concat("invalid output: ", self.output.as_str());
            message.append(" (expected: json|table)");
            return broken(message.as_str());
        }
        Ok(())
    }

    /// The settings that a document gives; `path` is how the messages name it.
    pub fn from_document(document: &TomlValue, path: &str) -> (r: Result<Self, ConfigError>)
        ensures
            match ctl_config_of_document(Some(document@), path@) {
                Ok(c) => r is Ok && r->Ok_0@ == c,
                Err(e) => r is Err && r->Err_0.message@ == e,
            },
    {
        let t = match document {
            TomlValue::Table(t) => t,
            _ => return unreadable(path),
        };
        proof {
            toml_doc::lemma_table_view(*t);
        }
        match (
            read_text(t, "server"),
            read_text(t, "token"),
            read_number(t, "timeout_ms"),
            read_text(t, "output"),
            read_text(t, "control_listen"),
            read_text(t, "control_token"),
        ) {
            (Ok(server), Ok(token), Ok(timeout), Ok(output), Ok(listen), Ok(legacy)) => {
                let usual = CtlConfig::default();
                let cfg = CtlConfig {
                    server: match server {
                        Some(s) => s,
                        None => match listen {
                            Some(s) => s,
                            None => usual.server,
                        },
                    },
                    token: match token {
                        Some(s) => Some(s),
                        None => legacy,
                    },
                    timeout_ms: match timeout {
                        Some(n) => n,
                        None => usual.timeout_ms,
                    },
                    output: match output {
                        Some(s) => s,
                        None => usual.output,
                    },
                };
                match cfg.validate() {
                    Ok(_) => Ok(cfg),
                    Err(e) => Err(e),
                }
            },
            _ => unreadable(path),
        }
    }

    /// The settings that the text of a file gives.
    pub fn from_raw(raw: &str, path: &str) -> (r: Result<Self, ConfigError>)
        ensures
            match ctl_config_of_document(toml_doc::toml_document(raw@), path@) {
                Ok(c) => r is Ok && r->Ok_0@ == c,
                Err(e) => r is Err && r->Err_0.message@ == e,
            },
    {
        match parse_document(raw) {
            Ok(document) => CtlConfig::from_document(&document, path),
            Err(_) => unreadable(path),
        }
    }
}

} // verus!
