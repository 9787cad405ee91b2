//! Login sessions and their expiry.

use vstd::prelude::*;
use vstd::string::*;

verus! {

/// A login session of a user. Times are milliseconds since the Unix epoch.
pub struct Session {
    pub uuid: String,
    pub user_uuid: String,
    pub created: i64,
    pub expires: i64,
    pub data: Option<String>,
}

impl Session {
    /// Whether the session has expired at time `now`: its expiry lies before `now`.
    pub fn is_expired(&self, now: i64) -> (r: bool)
        ensures
            r == (self.expires < now),
    {
        self.expires < now
    }
}

/// The uuids of the sessions, among `sessions`, whose expiry lies before `now`.
pub open spec fn expired_uuids(sessions: Seq<Session>, now: i64) -> Seq<Seq<char>>
    decreases sessions.len(),
{
    if sessions.len() == 0 {
        seq![]
    } else {
        let rest = expired_uuids(sessions.drop_last(), now);
        if sessions.last().expires < now {
            rest.push(sessions.last().uuid@)
        } else {
            rest
        }
    }
}

/// Law: cleaning up at time `now` deletes exactly the sessions whose expiry
/// lies before `now` (whatever their creation time), in the order given.
pub proof fn lemma_expired_are_those_past_expiry(sessions: Seq<Session>, now: i64)
    ensures
        expired_uuids(sessions, now) == sessions.filter(|x: Session| x.expires < now).map_values(
            |x: Session| x.uuid@,
        ),
    decreases sessions.len(),
{
    reveal_with_fuel(Seq::<_>::filter, 1);
    let past = |x: Session| x.expires < now;
    let uuid = |x: Session| x.uuid@;
    if sessions.len() > 0 {
        lemma_expired_are_those_past_expiry(sessions.drop_last(), now);
        let sub = sessions.drop_last().filter(past);
        assert(sessions.filter(past) == (if past(sessions.last()) { sub.push(sessions.last()) } else { sub }));
        assert(sub.push(sessions.last()).map_values(uuid) =~= sub.map_values(uuid).push(uuid(sessions.last())));
    } else {
        assert(sessions.filter(past).map_values(uuid) =~= seq![]);
    }
}

/// Operations on login sessions.
pub struct SessionSvc {}

impl SessionSvc {
    /// The sessions that cleaning up at time `now` deletes: the uuids of those
    /// whose expiry lies before `now`, in the order given.
    pub fn expired_sessions(sessions: &Vec<Session>, now: i64) -> (r: Vec<String>)
        ensures
            r@.map_values(|s: String| s@) == expired_uuids(sessions@, now),
            r@.map_values(|s: String| s@) == sessions@.filter(|x: Session| x.expires < now).map_values(
                |x: Session| x.uuid@,
            ),
    {
        proof {
            lemma_expired_are_those_past_expiry(sessions@, now);
        }
        let mut r: Vec<String> = Vec::new();
        let mut i: usize = 0;
        while i < sessions.len()
            invariant
                i <= sessions@.len(),
                r@.map_values(|s: String| s@) == expired_uuids(sessions@.take(i as int), now),
            decreases sessions@.len() - i,
        {
            assert(sessions@.take(i + 1).drop_last() =~= sessions@.take(i as int));
            if sessions[i].is_expired(now) {
                r.push(sessions[i].uuid.clone());
            }
            assert(r@.map_values(|s: String| s@) =~= expired_uuids(sessions@.take(i + 1), now));
            i = i + 1;
        }
        assert(sessions@.take(i as int) =~= sessions@);
        r
    }
}

/// The name of the cookie in which the service hands out a session's uuid.
pub const SESSION_COOKIE_NAME: &'static str = "X-Login-Session-ID";

/// The name of the cookie from which a request's session is read.
pub const REQUEST_SESSION_COOKIE_NAME: &'static str = "X-Login";

/// How many days a session cookie lives.
pub const SESSION_COOKIE_DAYS: i64 = 14;

/// The settings of the cookie that carries a session.
pub struct SessionCookie {
    pub name: String,
    pub value: String,
    pub path: String,
    pub secure: bool,
    pub max_age_days: i64,
}

impl SessionCookie {
    /// The cookie that hands out the session `session_uuid`: named
    /// `X-Login-Session-ID`, for every path, living 14 days, sent only over
    /// HTTPS when `secure` is set.
    pub fn for_session(session_uuid: &str, secure: bool) -> (r: SessionCookie)
        ensures
            r.name@ == "X-Login-Session-ID"@,
            r.value@ == session_uuid@,
            r.path@ == "/"@,
            r.secure == secure,
            r.max_age_days == 14,
    {
        SessionCookie {
            name: String::from_str(SESSION_COOKIE_NAME),
            value: String::from_str(session_uuid),
            path: String::from_str("/"),
            secure,
            max_age_days: SESSION_COOKIE_DAYS,
        }
    }
}

/// Why a request that needs a session was refused.
#[derive(Debug, PartialEq, Eq, Structural)]
pub enum SessionRejection {
    /// The request carries no session cookie.
    NoSessionId,
    /// No session has the uuid that the cookie carries.
    NoSessionFound,
}

impl SessionRejection {
    /// The text with which the service answers the refused request.
    pub fn message(&self) -> (r: &'static str)
        ensures
            r@ == (match self {
                SessionRejection::NoSessionId => "No session id found in request"@,
                SessionRejection::NoSessionFound => "No session found for provided session id"@,
            }),
    {
        match self {
            SessionRejection::NoSessionId => "No session id found in request",
            SessionRejection::NoSessionFound => "No session found for provided session id",
        }
    }
}

} // verus!
