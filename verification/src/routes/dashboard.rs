//! `/dashboard`, gated by a key.

use vstd::prelude::*;

use crate::seating::text_view;
use crate::text::{
    decimal, law_first_is_replaced, law_nothing_to_replace, occurs_at, push_decimal, replace,
    replaced, same,
};

verus! {

/// The query of a dashboard request.
#[derive(Debug)]
pub struct DashboardQuery {
    pub key: Option<String>,
}

/// The page with the version and the uptime filled in.
pub open spec fn filled(html: Seq<char>, version: Seq<char>, uptime_seconds: u64) -> Seq<char> {
    replaced(
        replaced(html, "{{VERSION}}"@, version),
        "{{UPTIME_SECONDS}}"@,
        decimal(uptime_seconds as nat),
    )
}

/// The dashboard page. `None` (unauthorized) without the right key.
pub fn dashboard(q: &DashboardQuery, secret: &str, html: &str, version: &str, uptime_seconds: u64) -> (r:
    Option<String>)
    ensures
        match r {
            Some(page) => text_view(q.key) == Some(secret@) && page@ == filled(
                html@,
                version@,
                uptime_seconds,
            ),
            None => text_view(q.key) != Some(secret@),
        },
{
    match &q.key {
        Some(key) => {
            if !same(key.as_str(), secret) {
                return None;
            }
        },
        None => {
            return None;
        },
    }
    let mut uptime = String::new();
    push_decimal(&mut uptime, uptime_seconds as u128);
    assert(uptime@ =~= decimal(uptime_seconds as nat));
    proof {
        reveal_strlit("{{VERSION}}");
        reveal_strlit("{{UPTIME_SECONDS}}");
    }
    let html = replace(html, "{{VERSION}}", version);
    Some(replace(html.as_str(), "{{UPTIME_SECONDS}}", uptime.as_str()))
}

/// The version stands where `{{VERSION}}` stood and the uptime where
/// `{{UPTIME_SECONDS}}` stood; a page that holds neither is shown as it is.
pub proof fn law_page_is_filled(
    before: Seq<char>,
    after: Seq<char>,
    version: Seq<char>,
    uptime_seconds: u64,
)
    ensures
        (forall|i: int| 0 <= i ==> !#[trigger] occurs_at(before, "{{VERSION}}"@, i)) && (forall|
            i: int,
        |
            0 <= i ==> !#[trigger] occurs_at(before, "{{UPTIME_SECONDS}}"@, i)) ==> filled(
            before,
            version,
            uptime_seconds,
        ) == before,
        ({
            let html = before + "{{UPTIME_SECONDS}}"@ + after;
            (forall|i: int| 0 <= i ==> !#[trigger] occurs_at(html, "{{VERSION}}"@, i)) && (forall|
                i: int,
            |
                0 <= i < before.len() ==> !#[trigger] occurs_at(html, "{{UPTIME_SECONDS}}"@, i))
                ==> filled(html, version, uptime_seconds) == before + decimal(uptime_seconds as nat)
                + replaced(after, "{{UPTIME_SECONDS}}"@, decimal(uptime_seconds as nat))
        }),
        ({
            let html = before + "{{VERSION}}"@ + after;
            let page = before + version + replaced(after, "{{VERSION}}"@, version);
            (forall|i: int| 0 <= i < before.len() ==> !#[trigger] occurs_at(html, "{{VERSION}}"@, i))
                && (forall|i: int| 0 <= i ==> !#[trigger] occurs_at(page, "{{UPTIME_SECONDS}}"@, i))
                ==> filled(html, version, uptime_seconds) == page
        }),
{
    reveal_strlit("{{VERSION}}");
    reveal_strlit("{{UPTIME_SECONDS}}");
    let v = "{{VERSION}}"@;
    let u = "{{UPTIME_SECONDS}}"@;
    let time = decimal(uptime_seconds as nat);
    let none_v = |s: Seq<char>| forall|i: int| 0 <= i ==> !#[trigger] occurs_at(s, v, i);
    let none_u = |s: Seq<char>| forall|i: int| 0 <= i ==> !#[trigger] occurs_at(s, u, i);
    if none_v(before) && none_u(before) {
        law_nothing_to_replace(before, v, version);
        law_nothing_to_replace(before, u, time);
    }
    let timed = before + u + after;
    if none_v(timed) && (forall|i: int| 0 <= i < before.len() ==> !#[trigger] occurs_at(timed, u, i)) {
        law_nothing_to_replace(timed, v, version);
        law_first_is_replaced(before, u, time, after);
    }
    let html = before + v + after;
    let page = before + version + replaced(after, v, version);
    if (forall|i: int| 0 <= i < before.len() ==> !#[trigger] occurs_at(html, v, i)) && none_u(page) {
        law_first_is_replaced(before, v, version, after);
        law_nothing_to_replace(page, u, time);
    }
}

} // verus!
