//! The alert mail sent when the inbox worker pauses itself: whether one is
//! sent (recipient, relay and sender all configured), its subject, and its
//! body. Delivery is the caller's.
use vstd::prelude::*;
use crate::text::{to_chars, trim, trim_bounds, string_from_chars, push_str, push_decimal, decimal_digits};

verus! {

/// Where an alert goes: recipient, relay host and sender.
pub struct AlertRoute {
    pub to: String,
    pub host: String,
    pub from: String,
}

/// The alert's route when the recipient, the relay host and the sender are
/// all configured; none otherwise.
pub fn alert_route(admin_email: &Option<String>, smtp_host: &Option<String>, smtp_from: &Option<String>) -> (r: Option<AlertRoute>)
    ensures
        match (admin_email, smtp_host, smtp_from) {
            (Some(t), Some(h), Some(f)) => r matches Some(a) && a.to@ == t@ && a.host@ == h@ && a.from@ == f@,
            _ => r is None,
        },
{
    match (admin_email, smtp_host, smtp_from) {
        (Some(t), Some(h), Some(f)) => Some(AlertRoute { to: t.clone(), host: h.clone(), from: f.clone() }),
        _ => None,
    }
}

/// The host name from the contents of the host-name file: trimmed, and
/// `unknown` when the file is missing or blank.
pub open spec fn hostname_spec(contents: Option<Seq<char>>) -> Seq<char> {
    match contents {
        Some(c) => if trim(c).len() > 0 { trim(c) } else { "unknown"@ },
        None => "unknown"@,
    }
}

/// The host name named in alerts (see `hostname_spec`).
pub fn hostname_from(contents: Option<&str>) -> (r: String)
    ensures
        r@ == hostname_spec(match contents { Some(c) => Some(c@), None => None }),
{
    proof { reveal_strlit("unknown"); }
    match contents {
        Some(c) => {
            let v = to_chars(c);
            let (a, b) = trim_bounds(&v, 0, v.len());
            assert(v@.subrange(0, v@.len() as int) =~= c@);
            if a < b {
                string_from_chars(&v, a, b)
            } else {
                "unknown".to_owned()
            }
        },
        None => "unknown".to_owned(),
    }
}

/// `find-anything inbox worker paused (<count> consecutive timeouts)`
pub open spec fn alert_subject_spec(count: u32) -> Seq<char> {
    "find-anything inbox worker paused ("@ + decimal_digits(count as nat) + " consecutive timeouts)"@
}

/// The alert's subject.
pub fn alert_subject(count: u32) -> (r: String)
    ensures
        r@ == alert_subject_spec(count),
{
    let mut s = "find-anything inbox worker paused (".to_owned();
    push_decimal(&mut s, count as u64);
    push_str(&mut s, " consecutive timeouts)");
    s
}

/// The alert's body: which host paused after how many timeouts of how
/// long, when the last one happened, and how to resume and investigate.
pub open spec fn alert_body_spec(hostname: Seq<char>, count: u32, timeout_secs: u64, time: Seq<char>) -> Seq<char> {
    "The find-anything inbox worker on "@ + hostname + " has been automatically paused\nafter "@
        + decimal_digits(count as nat) + " consecutive request processing timeouts ("@
        + decimal_digits(timeout_secs as nat) + "s each).\n\nThis typically indicates a stuck database write lock or internal deadlock.\nTime of last timeout: "@
        + time
        + "\n\nNo further requests will be processed until the worker is resumed manually.\n\nTo resume:\nfind-admin inbox resume\n\nOr via the API:\nPOST /api/v1/admin/inbox/resume\n\nTo investigate, check the inbox/failed/ directory in the server data directory.\n"@
}

/// The alert's body (see `alert_body_spec`); `time` is the formatted local
/// time of the last timeout.
pub fn alert_body(hostname: &str, count: u32, timeout_secs: u64, time: &str) -> (r: String)
    ensures
        r@ == alert_body_spec(hostname@, count, timeout_secs, time@),
{
    let mut s = "The find-anything inbox worker on ".to_owned();
    push_str(&mut s, hostname);
    push_str(&mut s, " has been automatically paused\nafter ");
    push_decimal(&mut s, count as u64);
    push_str(&mut s, " consecutive request processing timeouts (");
    push_decimal(&mut s, timeout_secs);
    push_str(&mut s, "s each).\n\nThis typically indicates a stuck database write lock or internal deadlock.\nTime of last timeout: ");
    push_str(&mut s, time);
    push_str(&mut s, "\n\nNo further requests will be processed until the worker is resumed manually.\n\nTo resume:\nfind-admin inbox resume\n\nOr via the API:\nPOST /api/v1/admin/inbox/resume\n\nTo investigate, check the inbox/failed/ directory in the server data directory.\n");
    s
}

} // verus!
