//! What the client makes of the server's replies: lock and unlock answers,
//! the browser login flow, and the server address it talks to.
use vstd::prelude::*;
use crate::text::{concat, same_text, trim_end_char, trim_end_matching};

verus! {

/// The server a workspace talks to when its configuration names none.
pub open spec fn fallback_server() -> Seq<char> {
    "http://localhost:3000"@
}

/// The configured server, else the fallback one.
pub fn server_url_or_default(configured: &Option<String>) -> (u: String)
    ensures
        u@ == match configured.deep_view() {
            Some(s) => s,
            None => fallback_server(),
        },
{
    match configured {
        Some(s) => s.clone(),
        None => String::from_str("http://localhost:3000"),
    }
}

/// What a lock request came to: the HTTP status was a success and the
/// reply says `locked: true`; else the error to report. `outdated` says
/// that the server refused because the local copy is older than the
/// artifact's latest revision; `locked` is the reply's `locked` field when
/// it is a boolean.
pub open spec fn lock_reply_of(success: bool, outdated: bool, status: Seq<char>, locked: Option<bool>) -> Result<
    (),
    Seq<char>,
> {
    if !success {
        if outdated {
            Err("Lock denied: the local copy is outdated. Run 'rig pull' first."@)
        } else {
            Err("Lock request failed: "@ + status)
        }
    } else if locked != Some(true) {
        Err("Lock request denied by server"@)
    } else {
        Ok(())
    }
}

/// Judges the server's reply to a lock request.
pub fn lock_reply(success: bool, outdated: bool, status: &str, locked: Option<bool>) -> (r: Result<(), String>)
    ensures
        match lock_reply_of(success, outdated, status@, locked) {
            Ok(()) => r is Ok,
            Err(msg) => r matches Err(m) && m@ == msg,
        },
{
    if !success {
        if outdated {
            return Err(String::from_str("Lock denied: the local copy is outdated. Run 'rig pull' first."));
        }
        return Err(concat("Lock request failed: ", status));
    }
    match locked {
        Some(true) => Ok(()),
        _ => Err(String::from_str("Lock request denied by server")),
    }
}

/// What an unlock request came to. A refusal (HTTP 403) names the holder
/// the reply gives, or `another user`.
pub open spec fn unlock_reply_of(
    success: bool,
    forbidden: bool,
    status: Seq<char>,
    holder: Option<Seq<char>>,
) -> Result<(), Seq<char>> {
    if success {
        Ok(())
    } else if forbidden {
        Err(
            "Unlock denied: artifact is locked by "@ + match holder {
                Some(h) => h,
                None => "another user"@,
            },
        )
    } else {
        Err("Unlock request failed: "@ + status)
    }
}

/// Judges the server's reply to an unlock request.
pub fn unlock_reply(success: bool, forbidden: bool, status: &str, holder: Option<String>) -> (r: Result<(), String>)
    ensures
        match unlock_reply_of(success, forbidden, status@, holder.deep_view()) {
            Ok(()) => r is Ok,
            Err(msg) => r matches Err(m) && m@ == msg,
        },
{
    if success {
        return Ok(());
    }
    if forbidden {
        let who = match holder {
            Some(h) => h,
            None => String::from_str("another user"),
        };
        return Err(concat("Unlock denied: artifact is locked by ", who.as_str()));
    }
    Err(concat("Unlock request failed: ", status))
}

// ---------------------------------------------------------------------
// Browser login
// ---------------------------------------------------------------------

/// The server base credentials are stored under: the URL without trailing
/// slashes.
pub fn auth_base(server_url: &str) -> (b: String)
    ensures
        b@ == trim_end_char(server_url@, '/'),
{
    trim_end_matching(server_url, '/')
}

/// The web page where the user logs in and approves a CLI session.
pub open spec fn login_url_of(session: Seq<char>) -> Seq<char> {
    "http://localhost:3002/auth/login?cli_session="@ + session
}

/// The login page for CLI session `session`.
pub fn login_url(session: &str) -> (u: String)
    ensures
        u@ == login_url_of(session@),
{
    concat("http://localhost:3002/auth/login?cli_session=", session)
}

/// The next move of the login poll.
pub enum PollStep {
    /// The session was approved: store and use this token.
    Done(String),
    /// The session expired: give up.
    Expired,
    /// Not yet: ask again after a pause.
    Wait,
}

/// Decides the next move from one poll of the session's status: a
/// `success` with a token ends the wait, `expired` ends it with an error,
/// anything else (a `success` without a token too) waits.
pub fn poll_step(status: &str, token: Option<String>) -> (s: PollStep)
    ensures
        match s {
            PollStep::Done(t) => status@ == "success"@ && (token matches Some(k) && t@ == k@),
            PollStep::Expired => status@ == "expired"@,
            PollStep::Wait => !(status@ == "success"@ && token is Some) && status@ != "expired"@,
        },
{
    if same_text(status, "success") {
        match token {
            Some(t) => return PollStep::Done(t),
            None => {},
        }
    }
    if same_text(status, "expired") {
        proof {
            if status@ == "success"@ {
                reveal_strlit("success");
                reveal_strlit("expired");
                assert("success"@[0] != "expired"@[0]);
            }
        }
        PollStep::Expired
    } else {
        PollStep::Wait
    }
}

} // verus!
