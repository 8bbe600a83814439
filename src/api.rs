use vstd::prelude::*;

use crate::text::{chars_of, decimal, parse_usize, parsed_usize, push_chars, push_decimal};

verus! {

/// The URL of the remote API's records after `last_id`.
pub open spec fn requests_url(authority: Seq<char>, last_id: nat) -> Seq<char> {
    "https://"@ + authority + "/api/requests/"@ + decimal(last_id)
}

/// URL of the remote API's records after `last_id`, at `authority`
/// (`host:port`).
pub fn api_requests_url(authority: &str, last_id: usize) -> (r: String)
    ensures
        r@ == requests_url(authority@, last_id as nat),
{
    let mut s = String::new();
    push_chars(&mut s, &chars_of("https://"));
    push_chars(&mut s, &chars_of(authority));
    push_chars(&mut s, &chars_of("/api/requests/"));
    push_decimal(&mut s, last_id);
    assert(s@ =~= requests_url(authority@, last_id as nat));
    s
}

/// Name of the header that carries the API secret.
pub const AUTH_HEADER: &'static str = "rp_auth";

/// Port used when the port text does not read as a number.
pub const DEFAULT_API_PORT: usize = 8443;

/// `addr:port`.
pub open spec fn authority(addr: Seq<char>, port: nat) -> Seq<char> {
    addr + ":"@ + decimal(port)
}

pub fn api_authority(addr: &str, port: usize) -> (r: String)
    ensures
        r@ == authority(addr@, port as nat),
{
    let mut s = String::new();
    push_chars(&mut s, &chars_of(addr));
    push_chars(&mut s, &chars_of(":"));
    push_decimal(&mut s, port);
    assert(s@ =~= authority(addr@, port as nat));
    s
}

/// Path of the history store of the project at `project`.
pub open spec fn store_path(project: Seq<char>) -> Seq<char> {
    project + "/hist.db"@
}

pub fn db_file_path(project: &str) -> (r: String)
    ensures
        r@ == store_path(project@),
{
    let mut s = String::new();
    push_chars(&mut s, &chars_of(project));
    push_chars(&mut s, &chars_of("/hist.db"));
    assert(s@ =~= store_path(project@));
    s
}

/// Connection settings of the remote API, as entered.
pub struct ApiSettings {
    pub addr: Option<String>,
    pub port: Option<usize>,
    pub secret: Option<String>,
}

pub open spec fn entered(input: Seq<char>) -> Option<Seq<char>> {
    if input.len() == 0 {
        None
    } else {
        Some(input)
    }
}

pub open spec fn opt_string_view(o: Option<String>) -> Option<Seq<char>> {
    match o {
        Some(s) => Some(s@),
        None => None,
    }
}

/// The port for port text `input`: none when empty, else the number it
/// reads as, else the default port.
pub open spec fn entered_port(input: Seq<char>) -> Option<nat> {
    if input.len() == 0 {
        None
    } else {
        match parsed_usize(input) {
            Some(p) => Some(p),
            None => Some(DEFAULT_API_PORT as nat),
        }
    }
}

impl ApiSettings {
    /// Settings from the three input fields; an empty field gives no value.
    pub fn from_inputs(addr: &str, port: &str, secret: &str) -> (r: ApiSettings)
        ensures
            opt_string_view(r.addr) == entered(addr@),
            opt_string_view(r.secret) == entered(secret@),
            match r.port {
                Some(p) => entered_port(port@) == Some(p as nat),
                None => entered_port(port@) is None,
            },
    {
        let a = chars_of(addr);
        let p = chars_of(port);
        let s = chars_of(secret);
        let addr = if a.len() == 0 {
            None
        } else {
            Some(addr.to_owned())
        };
        let port = if p.len() == 0 {
            None
        } else {
            match parse_usize(port) {
                Some(v) => Some(v),
                None => Some(DEFAULT_API_PORT),
            }
        };
        let secret = if s.len() == 0 {
            None
        } else {
            Some(secret.to_owned())
        };
        ApiSettings { addr, port, secret }
    }

    /// All three settings are present, so a connection can be made.
    pub fn is_complete(&self) -> (r: bool)
        ensures
            r == (self.addr is Some && self.port is Some && self.secret is Some),
    {
        self.addr.is_some() && self.port.is_some() && self.secret.is_some()
    }
}

} // verus!
