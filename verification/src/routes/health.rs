//! `/healthz`.

use vstd::prelude::*;
use vstd::string::*;

verus! {

/// What the health check reports.
#[derive(Debug)]
pub struct Health {
    pub status: &'static str,
    pub version: String,
    pub uptime_seconds: u64,
}

/// The service is up.
pub fn healthz(version: &str, uptime_seconds: u64) -> (r: Health)
    ensures
        r.status@ == "ok"@,
        r.version@ == version@,
        r.uptime_seconds == uptime_seconds,
{
    Health { status: "ok", version: version.to_owned(), uptime_seconds }
}

} // verus!
