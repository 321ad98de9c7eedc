//! Requests to crates.io: where they go, how often they may be sent, and when
//! a failed one is tried again.
use vstd::prelude::*;

verus! {

/// The crates.io API.
pub const CRATES_IO_URL: &'static str = "https://crates.io/api";

/// Where crates.io serves `.crate` archives.
pub const CRATE_IO_STATIC_DOWNLOAD_URL: &'static str = "https://static.crates.io/crates";

/// The user agent that each request names.
pub const USER_AGENT: &'static str = "crates.io_analysis (https://github.com/Mr-Leshiy/crates.io_analysis)";

/// The least time between the starts of two requests to crates.io, in
/// nanoseconds: one second.
pub const RATE_LIMIT_NANOS: u64 = 1_000_000_000;

/// How many times one request is sent before the fetch gives up.
pub const MAX_ATTEMPTS: u32 = 5;

/// Download statistics of one published crate version.
pub struct CrateStats {
    pub downloads: u32,
    pub created_at: String,
}

/// The body of a successful crate-version request.
pub struct CrateStatsResp {
    pub version: CrateStats,
}

/// The URL that describes version `version` of crate `name`.
pub open spec fn stats_url(name: Seq<char>, version: Seq<char>) -> Seq<char> {
    CRATES_IO_URL@ + "/v1/crates/"@ + name + "/"@ + version
}

/// The URL of the `.crate` archive of version `version` of crate `name`.
pub open spec fn download_url(name: Seq<char>, version: Seq<char>) -> Seq<char> {
    CRATE_IO_STATIC_DOWNLOAD_URL@ + "/"@ + name + "/"@ + name + "-"@ + version + ".crate"@
}

/// The directory that the archive of version `version` of crate `name`
/// unpacks into.
pub open spec fn unpacked_dir(name: Seq<char>, version: Seq<char>) -> Seq<char> {
    name + "-"@ + version
}

/// `{CRATES_IO_URL}/v1/crates/{name}/{version}`.
pub fn crate_stats_url(name: &str, version: &str) -> (url: String)
    ensures
        url@ == stats_url(name@, version@),
{
    let mut url = String::from_str(CRATES_IO_URL);
    url.append("/v1/crates/");
    url.append(name);
    url.append("/");
    url.append(version);
    url
}

/// `{CRATE_IO_STATIC_DOWNLOAD_URL}/{name}/{name}-{version}.crate`.
pub fn crate_download_url(name: &str, version: &str) -> (url: String)
    ensures
        url@ == download_url(name@, version@),
{
    let mut url = String::from_str(CRATE_IO_STATIC_DOWNLOAD_URL);
    url.append("/");
    url.append(name);
    url.append("/");
    url.append(name);
    url.append("-");
    url.append(version);
    url.append(".crate");
    url
}

/// `{name}-{version}`: the directory that a crate archive unpacks into.
pub fn crate_dir_name(name: &str, version: &str) -> (dir: String)
    ensures
        dir@ == unpacked_dir(name@, version@),
{
    let mut dir = String::from_str(name);
    dir.append("-");
    dir.append(version);
    dir
}

/// How long to wait before the next request, in nanoseconds, given the time
/// since the previous request (`None` when there is none to wait for):
/// whatever is left of the rate limit.
pub open spec fn pacing_wait(since_last_request: Option<u64>) -> u64 {
    match since_last_request {
        None => 0,
        Some(elapsed) => if elapsed < RATE_LIMIT_NANOS {
            (RATE_LIMIT_NANOS - elapsed) as u64
        } else {
            0
        },
    }
}

/// How long to wait before the next request, in nanoseconds, given the time
/// since the previous request (`None` when there is none to wait for).
pub fn rate_limit_wait(since_last_request: Option<u64>) -> (wait: u64)
    ensures
        wait == pacing_wait(since_last_request),
        since_last_request matches Some(elapsed) ==> elapsed + wait >= RATE_LIMIT_NANOS,
        since_last_request is None ==> wait == 0,
        since_last_request matches Some(elapsed) ==> (elapsed >= RATE_LIMIT_NANOS ==> wait == 0),
        since_last_request matches Some(elapsed) ==> (elapsed < RATE_LIMIT_NANOS ==> wait + elapsed
            == RATE_LIMIT_NANOS),
{
    match since_last_request {
        None => 0,
        Some(elapsed) => if elapsed < RATE_LIMIT_NANOS {
            RATE_LIMIT_NANOS - elapsed
        } else {
            0
        },
    }
}

/// The time since `t` when a monotonic clock reads `now`, zero if the clock
/// reads earlier.
pub open spec fn elapsed_since(t: u64, now: u64) -> u64 {
    if now >= t { (now - t) as u64 } else { 0 }
}

/// Keeps requests to crates.io apart: remembers when the last request was
/// answered, on a monotonic clock counted in nanoseconds.
pub struct RequestPacer {
    last_request: Option<u64>,
}

impl RequestPacer {
    /// When the last request was answered, if it is still to be waited for.
    pub closed spec fn last_request(&self) -> Option<u64> {
        self.last_request
    }

    /// A pacer before any request.
    pub fn new() -> (pacer: Self)
        ensures
            pacer.last_request() == None::<u64>,
    {
        RequestPacer { last_request: None }
    }

    /// How long to wait, when the clock reads `now`, before sending the next
    /// request; the last request is then forgotten, so that a request that
    /// fails to be answered leaves nothing to wait for.
    pub fn wait_before_request(&mut self, now: u64) -> (wait: u64)
        ensures
            final(self).last_request() == None::<u64>,
            wait == pacing_wait(
                match old(self).last_request() {
                    None => None,
                    Some(t) => Some(elapsed_since(t, now)),
                },
            ),
            old(self).last_request() matches Some(t) ==> (t <= now ==> now + wait >= t + RATE_LIMIT_NANOS),
    {
        let since = match self.last_request {
            None => None,
            Some(t) => Some(if now >= t { now - t } else { 0 }),
        };
        self.last_request = None;
        rate_limit_wait(since)
    }

    /// Records that a request was answered when the clock read `at`.
    pub fn request_answered(&mut self, at: u64)
        ensures
            final(self).last_request() == Some(at),
    {
        self.last_request = Some(at);
    }
}

/// The pause before a request is the least that keeps it a rate limit after
/// the previous one: nothing when there is no previous request or a second
/// has already passed, else exactly what is left of the second.
pub proof fn lemma_pacing_wait_is_least(elapsed: u64)
    ensures
        pacing_wait(None) == 0,
        elapsed >= 1_000_000_000 ==> pacing_wait(Some(elapsed)) == 0,
        elapsed < 1_000_000_000 ==> pacing_wait(Some(elapsed)) + elapsed == 1_000_000_000,
{
}

/// Two requests through one pacer are at least the rate limit apart: if the
/// earlier one was answered at `t` and the clock reads `now` when the later one
/// asks to go, it goes no earlier than `t` plus the rate limit.
pub proof fn lemma_requests_spaced(t: u64, now: u64)
    requires
        t <= now,
    ensures
        now + pacing_wait(Some(elapsed_since(t, now))) >= t + RATE_LIMIT_NANOS,
{
}

/// What to do once a request has been answered.
#[derive(Clone, Copy, Debug, PartialEq, Eq, Structural)]
pub enum ResponseAction {
    /// The answer is a success: use its body.
    Accept,
    /// Rebuild the client after a pause, then send the request again as
    /// attempt `next_attempt`.
    ResetAndRetry { next_attempt: u32 },
    /// Rebuild the client after a pause, then give the fetch up.
    ResetAndGiveUp,
}

/// Decides what follows answer `attempt` (counted from 1) of a request,
/// given whether its status is a success: a success is used; a failure resets
/// the client and, while fewer than `MAX_ATTEMPTS` attempts were made, leads to
/// one more attempt.
pub fn after_response(attempt: u32, success: bool) -> (action: ResponseAction)
    requires
        1 <= attempt <= MAX_ATTEMPTS,
    ensures
        success ==> action == ResponseAction::Accept,
        !success && attempt < MAX_ATTEMPTS ==> action == (ResponseAction::ResetAndRetry { next_attempt: (attempt + 1) as u32 }),
        !success && attempt == MAX_ATTEMPTS ==> action == ResponseAction::ResetAndGiveUp,
{
    if success {
        ResponseAction::Accept
    } else if attempt < MAX_ATTEMPTS {
        ResponseAction::ResetAndRetry { next_attempt: attempt + 1 }
    } else {
        ResponseAction::ResetAndGiveUp
    }
}

} // verus!
