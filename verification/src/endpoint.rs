//! The remote endpoint: where requests go, the query a readings
//! request carries, and the decision taken when logging in.

use vstd::prelude::*;

use crate::api::ValidValidateResponse;
use crate::dates::{civil_of, iso_format, iso_text, MAX_CIVIL_TIMESTAMP};
use crate::error::{Error, ErrorKind};
use crate::period::{spec_period_code, ReadingPeriod};

verus! {

/// The production API base.
pub const BASE_URL: &'static str = "https://api.glowmarkt.com/api/v0-1";

/// The application identifier sent with every request.
pub const APPLICATION_ID: &'static str = "b0f1b774-a586-4f72-9edd-27ead8aa7a8d";

/// The API endpoint.  A non-default endpoint is normally only
/// useful for testing purposes.
#[derive(Clone, Debug)]
pub struct GlowmarktEndpoint {
    pub base_url: String,
    pub app_id: String,
}

impl Default for GlowmarktEndpoint {
    /// The production endpoint.
    fn default() -> (r: GlowmarktEndpoint)
        ensures
            r.base_url@ == BASE_URL@,
            r.app_id@ == APPLICATION_ID@,
    {
        GlowmarktEndpoint {
            base_url: String::from_str(BASE_URL),
            app_id: String::from_str(APPLICATION_ID),
        }
    }
}

impl GlowmarktEndpoint {
    /// The full URL of a path under this endpoint.
    pub fn url(&self, path: &str) -> (r: String)
        ensures
            r@ == self.base_url@ + seq!['/'] + path@,
    {
        proof {
            reveal_strlit("/");
        }
        let mut out = self.base_url.clone();
        out.append("/");
        out.append(path);
        proof {
            assert(out@ =~= self.base_url@ + seq!['/'] + path@);
        }
        out
    }
}

/// The request path of a resource's readings.
pub fn readings_path(resource_id: &str) -> (r: String)
    ensures
        r@ == "resource/"@ + resource_id@ + "/readings"@,
{
    let mut out = String::from_str("resource/");
    out.append(resource_id);
    out.append("/readings");
    proof {
        assert(out@ =~= "resource/"@ + resource_id@ + "/readings"@);
    }
    out
}

/// The query of a readings request: the window bounds as UTC ISO
/// text, the period code, a zero offset, and the fixed `sum`
/// aggregation function.
pub fn readings_query(start: i64, end: i64, period: ReadingPeriod) -> (r: Vec<(String, String)>)
    requires
        start <= end,
        0 <= start <= MAX_CIVIL_TIMESTAMP,
        0 <= end <= MAX_CIVIL_TIMESTAMP,
    ensures
        r@.len() == 5,
        r@[0].0@ == "from"@ && r@[0].1@ == iso_text(civil_of(start as int)),
        r@[1].0@ == "to"@ && r@[1].1@ == iso_text(civil_of(end as int)),
        r@[2].0@ == "period"@ && r@[2].1@ == spec_period_code(period),
        r@[3].0@ == "offset"@ && r@[3].1@ == "0"@,
        r@[4].0@ == "function"@ && r@[4].1@ == "sum"@,
{
    let mut out: Vec<(String, String)> = Vec::new();
    out.push((String::from_str("from"), iso_format(start)));
    out.push((String::from_str("to"), iso_format(end)));
    out.push((String::from_str("period"), period.code()));
    out.push((String::from_str("offset"), String::from_str("0")));
    out.push((String::from_str("function"), String::from_str("sum")));
    out
}

/// What a login attempt should do next.
#[derive(Clone, Debug)]
pub enum LoginPlan {
    /// The caller's token was checked and works: use it.
    UseToken,
    /// Exchange this username and password for a fresh token.
    Authenticate(String, String),
    /// Give up, with the message to report.
    Fail(String),
}

/// Decides how to log in, from what the caller supplied and what a
/// token check answered: a validated token is used as it is; a
/// token rejected for any reason other than failed authentication
/// aborts with that error; otherwise a supplied username and
/// password are exchanged for a token, and without both the login
/// fails with a fixed message.
pub fn login_decision(
    token_check: Option<Result<ValidValidateResponse, Error>>,
    username: Option<String>,
    password: Option<String>,
) -> (r: LoginPlan)
    ensures
        match token_check {
            Some(Ok(_)) => r is UseToken,
            Some(Err(e)) => if e.kind != ErrorKind::NotAuthenticated {
                r matches LoginPlan::Fail(msg) && msg@ == e.message@
            } else {
                credential_plan(r, username, password)
            },
            None => credential_plan(r, username, password),
        },
{
    match token_check {
        Some(Ok(_)) => LoginPlan::UseToken,
        Some(Err(e)) => {
            if !matches!(e.kind, ErrorKind::NotAuthenticated) {
                LoginPlan::Fail(e.message)
            } else {
                credential_decision(username, password)
            }
        },
        None => credential_decision(username, password),
    }
}

/// The plan a username/password pair yields: authenticate with both
/// when both are there, else fail with the fixed message.
pub open spec fn credential_plan(
    r: LoginPlan,
    username: Option<String>,
    password: Option<String>,
) -> bool {
    match (username, password) {
        (Some(u), Some(p)) => r matches LoginPlan::Authenticate(ru, rp) && ru@ == u@ && rp@
            == p@,
        _ => r matches LoginPlan::Fail(msg) && msg@ == "Must pass username and password."@,
    }
}

/// Turns the supplied credentials into a plan.
fn credential_decision(username: Option<String>, password: Option<String>) -> (r: LoginPlan)
    ensures
        credential_plan(r, username, password),
{
    match (username, password) {
        (Some(u), Some(p)) => LoginPlan::Authenticate(u, p),
        _ => LoginPlan::Fail(String::from_str("Must pass username and password.")),
    }
}

} // verus!
