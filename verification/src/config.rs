//! Start-up settings: the API key, the base of short URLs, the database
//! location and the port, from the values of the environment variables.
use vstd::prelude::*;
use crate::text::{concat2, decimal, decimal_u64, parse_u16, parsed_u16};

verus! {

/// The base of short URLs when `BASE_URL` is not set.
pub const DEFAULT_BASE_URL: &'static str = "http://localhost:3000";

/// The database when `DATABASE_URL` is not set.
pub const DEFAULT_DATABASE_URL: &'static str = "sqlite:snipurl.db?mode=rwc";

/// The port when `PORT` is not set or is not a port number.
pub const DEFAULT_PORT: u16 = 3000;

/// The settings the service runs with.
#[derive(Debug)]
pub struct Config {
    pub api_key: String,
    pub base_url: String,
    pub database_url: String,
    pub port: u16,
}

/// The value of a setting: the variable's value when set, else `default`.
pub open spec fn setting_or(value: Option<String>, default: Seq<char>) -> Seq<char> {
    match value {
        Some(v) => v@,
        None => default,
    }
}

/// The port for the value of `PORT`: the number it holds when it parses as
/// a `u16`, else `DEFAULT_PORT`.
pub open spec fn port_setting(value: Option<String>) -> u16 {
    match value {
        Some(v) => match parsed_u16(v@) {
            Some(p) => p,
            None => DEFAULT_PORT,
        },
        None => DEFAULT_PORT,
    }
}

/// Whenever `PORT` holds a number that parses as a `u16`, that number is the
/// port, whatever its size; the default is used only when `PORT` is unset
/// or does not parse. In particular a port written in decimal is kept.
pub proof fn law_port_setting(value: String, port: u16)
    ensures
        parsed_u16(value@) matches Some(p) ==> port_setting(Some(value)) == p,
        parsed_u16(value@) is None ==> port_setting(Some(value)) == DEFAULT_PORT,
        port_setting(None) == DEFAULT_PORT,
        value@ == decimal(port as nat) ==> port_setting(Some(value)) == port,
{
    crate::laws::law_port_round_trip(port);
}

/// A setting that is given is used as given; the default only stands in for
/// one that is missing.
pub proof fn law_setting_or(value: Option<String>, default: Seq<char>)
    ensures
        value matches Some(v) ==> setting_or(value, default) == v@,
        value is None ==> setting_or(value, default) == default,
{
}

/// The settings for the values of `API_KEY`, `BASE_URL`, `DATABASE_URL` and
/// `PORT` (each `None` when unset): `None` when there is no API key.
pub fn load_config(
    api_key: Option<String>,
    base_url: Option<String>,
    database_url: Option<String>,
    port: Option<String>,
) -> (r: Option<Config>)
    ensures
        r is None <==> api_key is None,
        r matches Some(c) ==> {
            &&& api_key matches Some(k) && c.api_key@ == k@
            &&& c.base_url@ == setting_or(base_url, DEFAULT_BASE_URL@)
            &&& c.database_url@ == setting_or(database_url, DEFAULT_DATABASE_URL@)
            &&& c.port == port_setting(port)
            &&& (port matches Some(v) ==> (parsed_u16(v@) matches Some(p) ==> c.port == p))
            &&& (base_url matches Some(b) ==> c.base_url@ == b@)
            &&& (database_url matches Some(d) ==> c.database_url@ == d@)
        },
{
    let api_key = match api_key {
        Some(k) => k,
        None => {
            return None;
        },
    };
    let base_url = match base_url {
        Some(b) => b,
        None => String::from_str(DEFAULT_BASE_URL),
    };
    let database_url = match database_url {
        Some(d) => d,
        None => String::from_str(DEFAULT_DATABASE_URL),
    };
    let port = match port {
        Some(p) => match parse_u16(p.as_str()) {
            Some(n) => n,
            None => DEFAULT_PORT,
        },
        None => DEFAULT_PORT,
    };
    Some(Config { api_key, base_url, database_url, port })
}

/// The address to listen on: every interface, at `port`.
pub fn listen_address(port: u16) -> (a: String)
    ensures
        a@ == "0.0.0.0:"@ + decimal(port as nat),
{
    let digits = decimal_u64(port as u64);
    concat2("0.0.0.0:", digits.as_str())
}

} // verus!
