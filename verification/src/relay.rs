//! The relay: a table of jobs by PIN, each holding one upload for one
//! download, and the rules of reserving, pushing and pulling.

use vstd::prelude::*;
use std::collections::HashMap;
use crate::cipher::password_accepted;
use crate::cipher::bcrypt_hash;
use crate::cipher::password_matches;
use crate::ident::decimal;
use crate::ident::is_pin;
use crate::ident::law_decimal_injective;
use crate::ident::parse_pin;
use crate::ident::PIN_MAX;
use crate::ident::PIN_MIN;

verus! {

broadcast use vstd::std_specs::hash::group_hash_axioms;

/// The status codes of the relay's answers.
pub const OK: u16 = 200;

pub const CREATED: u16 = 201;

pub const BAD_REQUEST: u16 = 400;

pub const INTERNAL_SERVER_ERROR: u16 = 500;

/// How long a push token is good for, in seconds.
pub const TOKEN_LIFETIME: u64 = 86_400;

/// What a job waits for.
#[derive(Debug, Clone, Copy, PartialEq, Eq, Structural)]
pub enum JobStatus {
    /// Reserved; the upload is awaited.
    PushReady,
    /// Uploaded; one download is awaited.
    PullReady,
}

/// A job of the relay.
#[derive(Debug)]
pub struct SyncJob {
    /// The bcrypt hash of the password that a pull must give.
    pub pw_hash: String,
    pub status: JobStatus,
    /// The bytes uploaded; empty until the push.
    pub data: Vec<u8>,
}

/// The mathematical content of a `SyncJob`.
pub ghost struct JobView {
    pub pw_hash: Seq<char>,
    pub status: JobStatus,
    pub data: Seq<u8>,
}

impl View for SyncJob {
    type V = JobView;

    open spec fn view(&self) -> JobView {
        JobView { pw_hash: self.pw_hash@, status: self.status, data: self.data@ }
    }
}

/// An answer of the relay that is not the data asked for.
#[derive(Debug)]
pub struct Reply {
    pub status: u16,
    pub body: String,
}

impl Reply {
    /// The reply has status `status` and body `body`.
    pub open spec fn is(&self, status: u16, body: Seq<char>) -> bool {
        self.status == status && self.body@ == body
    }
}

/// The result is the reply with status `status` and body `body`.
pub open spec fn replies<V>(r: Result<V, Reply>, status: u16, body: Seq<char>) -> bool {
    match r {
        Ok(_) => false,
        Err(reply) => reply.is(status, body),
    }
}

pub open spec fn invalid_credentials() -> Seq<char> {
    "invalid credentials"@
}

pub open spec fn token_spent() -> Seq<char> {
    "Token no longer valid"@
}

pub open spec fn token_used() -> Seq<char> {
    "Push token already used.  Please reserve a new one"@
}

pub open spec fn not_ready() -> Seq<char> {
    "Data is not ready.  It is possible it has already been pulled."@
}

pub open spec fn header_missing() -> Seq<char> {
    "Authorization header is missing"@
}

pub open spec fn header_invalid() -> Seq<char> {
    "Invalid bearer token"@
}

/// The prefix of the header value that carries a push token.
pub open spec fn bearer_prefix() -> Seq<char> {
    "Bearer "@
}

/// The settings of a relay process.
#[derive(Debug)]
pub struct ApplicationSettings {
    pin_secret: String,
}

impl ApplicationSettings {
    /// The secret that push tokens are signed with.
    pub closed spec fn secret(&self) -> Seq<char> {
        self.pin_secret@
    }

    /// The secret that push tokens are signed with.
    pub fn jwt_pin_secret(&self) -> (secret: String)
        ensures
            secret@ == self.secret(),
    {
        self.pin_secret.clone()
    }
}

/// The settings of a relay whose environment gives `pin_secret` for the
/// signing secret, or gives none.
pub fn get_app_config(pin_secret: Option<String>) -> (settings: ApplicationSettings)
    ensures
        settings.secret() == match pin_secret {
            Some(secret) => secret@,
            None => "LAND_STRIDER_PIN_SECRET"@,
        },
{
    match pin_secret {
        Some(pin_secret) => ApplicationSettings { pin_secret },
        None => ApplicationSettings { pin_secret: "LAND_STRIDER_PIN_SECRET".to_owned() },
    }
}

/// When a token issued at `now` expires, in seconds since the epoch.
pub fn token_expiry(now: u64) -> (exp: u64)
    ensures
        exp == if now + TOKEN_LIFETIME <= u64::MAX {
            (now + TOKEN_LIFETIME) as u64
        } else {
            u64::MAX
        },
{
    now.saturating_add(TOKEN_LIFETIME)
}

/// The answer to a request for the relay's root.
pub fn root() -> (body: &'static str)
    ensures
        body@ == "Hello, World!"@,
{
    "Hello, World!"
}

/// What the authorization header `header` gives: the token it carries, or
/// the reply that refuses it.
pub open spec fn bearer_outcome(header: Option<Seq<char>>, r: Result<String, Reply>) -> bool {
    match header {
        None => replies(r, BAD_REQUEST, header_missing()),
        Some(value) => if bearer_prefix().is_prefix_of(value) {
            r matches Ok(token) && token@ == value.skip(bearer_prefix().len() as int)
        } else {
            replies(r, BAD_REQUEST, header_invalid())
        },
    }
}

/// The push token that the authorization header carries.
pub fn bearer_token(header: Option<&str>) -> (r: Result<String, Reply>)
    ensures
        bearer_outcome(
            match header {
                Some(value) => Some(value@),
                None => None,
            },
            r,
        ),
{
    let value = match header {
        Some(value) => value,
        None => {
            return Err(
                Reply { status: BAD_REQUEST, body: "Authorization header is missing".to_owned() },
            );
        },
    };
    proof {
        reveal_strlit("Bearer ");
    }
    let n = value.unicode_len();
    let prefix: String = "Bearer ".to_owned();
    if n >= 7 {
        let head: String = value.substring_char(0, 7).to_owned();
        if head == prefix {
            let token: String = value.substring_char(7, n).to_owned();
            assert(value@.subrange(7, n as int) =~= value@.skip(7));
            assert(bearer_prefix() =~= value@.subrange(0, 7));
            return Ok(token);
        }
        assert(!bearer_prefix().is_prefix_of(value@));
    }
    Err(Reply { status: BAD_REQUEST, body: "Invalid bearer token".to_owned() })
}

/// The jobs of a relay, by PIN.
pub struct SyncJobs {
    jobs: HashMap<u32, SyncJob>,
}

impl View for SyncJobs {
    type V = Map<u32, JobView>;

    closed spec fn view(&self) -> Map<u32, JobView> {
        Map::new(|pin: u32| self.jobs@.contains_key(pin), |pin: u32| self.jobs@[pin]@)
    }
}

/// The job that the text `pin` names in `jobs`, if it names one.
pub open spec fn job_of(jobs: Map<u32, JobView>, pin: Seq<char>) -> Option<(u32, JobView)> {
    if exists|n: u32| PIN_MIN <= n <= PIN_MAX && pin == decimal(n as nat) && jobs.contains_key(n) {
        let n = choose|n: u32|
            PIN_MIN <= n <= PIN_MAX && pin == decimal(n as nat) && jobs.contains_key(n);
        Some((n, jobs[n]))
    } else {
        None
    }
}

/// A job that was just reserved under the password hash `pw_hash`.
pub open spec fn reserved_job(pw_hash: Seq<char>) -> JobView {
    JobView { pw_hash, status: JobStatus::PushReady, data: Seq::empty() }
}

/// The PIN `pin`, the numeral of `n`, was reserved under the password hash
/// `hash`.
pub open spec fn reserved_as(
    before: Map<u32, JobView>,
    pin: Seq<char>,
    n: u32,
    hash: Seq<char>,
    after: Map<u32, JobView>,
) -> bool {
    PIN_MIN <= n <= PIN_MAX && pin == decimal(n as nat) && after == before.insert(
        n,
        reserved_job(hash),
    )
}

/// What a push of `body` under the PIN `pin` does to the jobs, and what it
/// returns: the job must be there and await its upload.
pub open spec fn push_outcome(
    before: Map<u32, JobView>,
    pin: Seq<char>,
    body: Seq<u8>,
    after: Map<u32, JobView>,
    r: Result<(), Reply>,
) -> bool {
    match job_of(before, pin) {
        None => after == before && replies(r, BAD_REQUEST, token_spent()),
        Some((n, job)) => if job.status != JobStatus::PushReady {
            after == before && replies(r, BAD_REQUEST, token_used())
        } else {
            r is Ok && after == before.insert(
                n,
                JobView { pw_hash: job.pw_hash, status: JobStatus::PullReady, data: body },
            )
        },
    }
}

/// What a pull of the PIN `pin` with the password `pw` does to the jobs,
/// and what it returns.
///
/// A PIN without a job and a password that the job's hash does not accept
/// are refused alike, and the jobs stay as they are. With the right
/// password the job leaves the table, and its data is handed out, byte
/// for byte, if it was uploaded.
pub open spec fn pull_outcome(
    before: Map<u32, JobView>,
    pin: Seq<char>,
    pw: Seq<char>,
    after: Map<u32, JobView>,
    r: Result<Vec<u8>, Reply>,
) -> bool {
    match job_of(before, pin) {
        None => after == before && replies(r, BAD_REQUEST, invalid_credentials()),
        Some((n, job)) => if !password_accepted(pw, job.pw_hash) {
            after == before && replies(r, BAD_REQUEST, invalid_credentials())
        } else if job.status != JobStatus::PullReady {
            after == before.remove(n) && replies(r, BAD_REQUEST, not_ready())
        } else {
            &&& after == before.remove(n)
            &&& r matches Ok(data)
            &&& data@ == job.data
        },
    }
}

/// After a pull that handed out the data, a pull of the same PIN is
/// refused, whatever the password.
pub proof fn law_single_shot(
    jobs0: Map<u32, JobView>,
    pin: Seq<char>,
    pw: Seq<char>,
    jobs1: Map<u32, JobView>,
    first: Result<Vec<u8>, Reply>,
    again: Seq<char>,
    jobs2: Map<u32, JobView>,
    second: Result<Vec<u8>, Reply>,
)
    requires
        pull_outcome(jobs0, pin, pw, jobs1, first),
        first is Ok,
        pull_outcome(jobs1, pin, again, jobs2, second),
    ensures
        replies(second, BAD_REQUEST, invalid_credentials()),
        jobs2 == jobs1,
{
    let (n, job) = job_of(jobs0, pin)->0;
    assert(jobs1 == jobs0.remove(n));
    if job_of(jobs1, pin) is Some {
        let m = choose|m: u32|
            PIN_MIN <= m <= PIN_MAX && pin == decimal(m as nat) && jobs1.contains_key(m);
        law_decimal_injective(n as nat, m as nat);
    }
}

/// A pull with a password that the job's hash does not accept leaves the
/// job where it is: a pull with a password that it accepts then hands out
/// the uploaded data.
pub proof fn law_wrong_password_keeps_the_job(
    jobs0: Map<u32, JobView>,
    pin: Seq<char>,
    wrong: Seq<char>,
    jobs1: Map<u32, JobView>,
    first: Result<Vec<u8>, Reply>,
    right: Seq<char>,
    jobs2: Map<u32, JobView>,
    second: Result<Vec<u8>, Reply>,
)
    requires
        job_of(jobs0, pin) matches Some((n, job)) && job.status == JobStatus::PullReady
            && !password_accepted(wrong, job.pw_hash) && password_accepted(right, job.pw_hash),
        pull_outcome(jobs0, pin, wrong, jobs1, first),
        pull_outcome(jobs1, pin, right, jobs2, second),
    ensures
        replies(first, BAD_REQUEST, invalid_credentials()),
        jobs1 == jobs0,
        second matches Ok(data) && data@ == (job_of(jobs0, pin)->0).1.data,
{
}

/// A push turns a reserved job into one that a pull with the right
/// password empties exactly as it was pushed.
pub proof fn law_push_then_pull(
    jobs0: Map<u32, JobView>,
    pin: Seq<char>,
    body: Seq<u8>,
    jobs1: Map<u32, JobView>,
    pushed: Result<(), Reply>,
    pw: Seq<char>,
    jobs2: Map<u32, JobView>,
    pulled: Result<Vec<u8>, Reply>,
)
    requires
        push_outcome(jobs0, pin, body, jobs1, pushed),
        pushed is Ok,
        password_accepted(pw, (job_of(jobs0, pin)->0).1.pw_hash),
        pull_outcome(jobs1, pin, pw, jobs2, pulled),
    ensures
        pulled matches Ok(data) && data@ == body,
        !jobs2.contains_key((job_of(jobs0, pin)->0).0),
{
    let (n, job) = job_of(jobs0, pin)->0;
    assert(jobs1.contains_key(n));
    let m = choose|m: u32|
        PIN_MIN <= m <= PIN_MAX && pin == decimal(m as nat) && jobs1.contains_key(m);
    law_decimal_injective(n as nat, m as nat);
}

impl SyncJobs {
    /// A table without jobs.
    pub fn new() -> (jobs: Self)
        ensures
            jobs@ == Map::<u32, JobView>::empty(),
    {
        let jobs = SyncJobs { jobs: HashMap::new() };
        assert(jobs@ =~= Map::<u32, JobView>::empty());
        jobs
    }

    /// Whether the table has a job for the PIN `pin`.
    pub fn has_job(&self, pin: &str) -> (b: bool)
        ensures
            b == job_of(self@, pin@).is_some(),
    {
        match parse_pin(pin) {
            Some(n) => {
                let b = self.jobs.contains_key(&n);
                proof {
                    self.lemma_job_of(pin@, n);
                }
                b
            },
            None => false,
        }
    }

    proof fn lemma_job_of(&self, pin: Seq<char>, n: u32)
        requires
            PIN_MIN <= n <= PIN_MAX,
            pin == decimal(n as nat),
        ensures
            job_of(self@, pin) == if self@.contains_key(n) {
                Some((n, self@[n]))
            } else {
                None
            },
    {
        if job_of(self@, pin) is Some {
            let m = choose|m: u32|
                PIN_MIN <= m <= PIN_MAX && pin == decimal(m as nat) && self@.contains_key(m);
            law_decimal_injective(n as nat, m as nat);
        }
    }

    /// Enters a job for the PIN `pin` under the password hash `pw_hash`,
    /// in place of any job the PIN had.
    pub fn reserve(&mut self, pin: u32, pw_hash: String)
        ensures
            final(self)@ == old(self)@.insert(pin, reserved_job(pw_hash@)),
    {
        let job = SyncJob { pw_hash, status: JobStatus::PushReady, data: Vec::new() };
        let _old = self.jobs.insert(pin, job);
        assert(self@ =~= old(self)@.insert(pin, reserved_job(pw_hash@)));
    }

    /// Reserves the PIN `pin` for a job that the password `pw` will
    /// release. A text that is no PIN is refused, and so is a password
    /// that cannot be hashed.
    pub fn reserve_pin(&mut self, pin: &str, pw: &str) -> (r: Result<(), Reply>)
        ensures
            !is_pin(pin@) ==> r is Err && final(self)@ == old(self)@,
            r matches Err(reply) ==> (reply.status == INTERNAL_SERVER_ERROR && final(self)@
                == old(self)@),
            r is Ok ==> exists|n: u32, hash: Seq<char>|
                reserved_as(old(self)@, pin@, n, hash, final(self)@),
    {
        let number = match parse_pin(pin) {
            Some(number) => number,
            None => {
                return Err(
                    Reply { status: INTERNAL_SERVER_ERROR, body: "Failed to reserve pin".to_owned() },
                );
            },
        };
        let pw_hash = match bcrypt_hash(pw) {
            Ok(pw_hash) => pw_hash,
            Err(why) => {
                return Err(Reply { status: INTERNAL_SERVER_ERROR, body: why });
            },
        };
        let ghost hash = pw_hash@;
        self.reserve(number, pw_hash);
        assert(reserved_as(old(self)@, pin@, number, hash, self@));
        Ok(())
    }

    /// Takes the upload `body` for the job of the PIN `pin`.
    pub fn push_s(&mut self, pin: &str, body: Vec<u8>) -> (r: Result<(), Reply>)
        ensures
            push_outcome(old(self)@, pin@, body@, final(self)@, r),
    {
        let number = match parse_pin(pin) {
            Some(number) => number,
            None => {
                return Err(Reply { status: BAD_REQUEST, body: "Token no longer valid".to_owned() });
            },
        };
        proof {
            self.lemma_job_of(pin@, number);
        }
        let job = match self.jobs.remove(&number) {
            Some(job) => job,
            None => {
                assert(self@ =~= old(self)@);
                return Err(Reply { status: BAD_REQUEST, body: "Token no longer valid".to_owned() });
            },
        };
        if job.status != JobStatus::PushReady {
            let _none = self.jobs.insert(number, job);
            assert(self@ =~= old(self)@);
            return Err(
                Reply {
                    status: BAD_REQUEST,
                    body: "Push token already used.  Please reserve a new one".to_owned(),
                },
            );
        }
        let ghost hash = job.pw_hash@;
        let ready = SyncJob { pw_hash: job.pw_hash, status: JobStatus::PullReady, data: body };
        let _none = self.jobs.insert(number, ready);
        assert(self@ =~= old(self)@.insert(
            number,
            JobView { pw_hash: hash, status: JobStatus::PullReady, data: body@ },
        ));
        Ok(())
    }

    /// Hands out the upload of the job of the PIN `pin` to the holder of
    /// the password `pw`.
    pub fn pull(&mut self, pin: &str, pw: &str) -> (r: Result<Vec<u8>, Reply>)
        ensures
            pull_outcome(old(self)@, pin@, pw@, final(self)@, r),
    {
        let number = match parse_pin(pin) {
            Some(number) => number,
            None => {
                return Err(Reply { status: BAD_REQUEST, body: "invalid credentials".to_owned() });
            },
        };
        proof {
            self.lemma_job_of(pin@, number);
        }
        let sync_job = match self.jobs.remove(&number) {
            Some(sync_job) => sync_job,
            None => {
                assert(self@ =~= old(self)@);
                return Err(Reply { status: BAD_REQUEST, body: "invalid credentials".to_owned() });
            },
        };
        let correct_pw = password_matches(pw, sync_job.pw_hash.as_str());
        if !correct_pw {
            let _none = self.jobs.insert(number, sync_job);
            assert(self@ =~= old(self)@);
            return Err(Reply { status: BAD_REQUEST, body: "invalid credentials".to_owned() });
        }
        assert(self@ =~= old(self)@.remove(number));
        if sync_job.status != JobStatus::PullReady {
            return Err(
                Reply {
                    status: BAD_REQUEST,
                    body: "Data is not ready.  It is possible it has already been pulled.".to_owned(),
                },
            );
        }
        Ok(sync_job.data)
    }
}

} // verus!
