//! Acquiring a release: credentials, options, which source is tried when, how
//! requests are repeated, and how much is read of an answer.
use vstd::prelude::*;
use vstd::utf8::{decode_utf8, valid_utf8};

use crate::cache::{Artifact, DEFAULT_MAX_BYTES};
use crate::clock::{Duration, RetryPolicy};
use crate::error::{Fault, FetchError};
use crate::release::Platform;
use crate::text::{trim_text, trim_text_end};
use crate::web::WebUrl;

verus! {

/// The limit for what is read of an answer that is no archive.
pub const DEFAULT_MAX_RESPONSE_BYTES: u64 = 4_194_304;

/// Calls `zeroize::Zeroize::zeroize` on a string, which overwrites its bytes
/// and leaves it empty. That the bytes are overwritten is not stated.
#[verifier::external_body]
fn wipe(text: &mut String)
    ensures
        final(text)@ == Seq::<char>::empty(),
    opens_invariants none
    no_unwind
{
    zeroize::Zeroize::zeroize(text)
}

/// The name and password of a licensed account. The password is wiped when the
/// credentials are dropped, and neither is ever shown.
#[derive(Clone)]
pub struct AccountCredentials {
    pub username: String,
    password: String,
}

impl Drop for AccountCredentials {
    fn drop(&mut self)
        opens_invariants none
        no_unwind
    {
        wipe(&mut self.password);
    }
}

impl AccountCredentials {
    pub closed spec fn name(&self) -> Seq<char> {
        self.username@
    }

    pub closed spec fn secret(&self) -> Seq<char> {
        self.password@
    }

    fn trimmed(username: &str, password: &str) -> (r: Option<AccountCredentials>)
        ensures
            match r {
                Some(credentials) => {
                    &&& credentials.name() == crate::text::trim(username@)
                    &&& credentials.secret() == crate::text::trim_end(password@)
                    &&& credentials.name().len() > 0
                    &&& credentials.secret().len() > 0
                },
                None => crate::text::trim(username@).len() == 0 || crate::text::trim_end(
                    password@,
                ).len() == 0,
            },
    {
        let username = trim_text(username);
        let password = trim_text_end(password);
        if username.is_empty() || password.is_empty() {
            return None;
        }
        Some(
            AccountCredentials { username: username.to_owned(), password: password.to_owned() },
        )
    }

    /// Credentials from a name, which is trimmed, and a password, which is
    /// trimmed at its end.
    pub fn from_values(username: &str, password: &str) -> (r: Result<
        AccountCredentials,
        FetchError,
    >)
        ensures
            match r {
                Ok(credentials) => {
                    &&& credentials.name() == crate::text::trim(username@)
                    &&& credentials.secret() == crate::text::trim_end(password@)
                    &&& credentials.name().len() > 0
                    &&& credentials.secret().len() > 0
                },
                Err(e) => {
                    &&& crate::text::trim(username@).len() == 0 || crate::text::trim_end(
                        password@,
                    ).len() == 0
                    &&& e@ == Fault::InvalidRelease("credentials must not be empty"@)
                },
            },
    {
        match AccountCredentials::trimmed(username, password) {
            Some(credentials) => Ok(credentials),
            None => Err(FetchError::InvalidRelease("credentials must not be empty".to_owned())),
        }
    }

    /// Credentials from the contents of a name file and a password file.
    pub fn from_files(username: &str, password: &str) -> (r: Result<AccountCredentials, FetchError>)
        ensures
            match r {
                Ok(credentials) => {
                    &&& credentials.name() == crate::text::trim(username@)
                    &&& credentials.secret() == crate::text::trim_end(password@)
                    &&& credentials.name().len() > 0
                    &&& credentials.secret().len() > 0
                },
                Err(e) => {
                    &&& crate::text::trim(username@).len() == 0 || crate::text::trim_end(
                        password@,
                    ).len() == 0
                    &&& e@ == Fault::InvalidRelease("credentials files must not be empty"@)
                },
            },
    {
        match AccountCredentials::trimmed(username, password) {
            Some(credentials) => Ok(credentials),
            None => Err(
                FetchError::InvalidRelease("credentials files must not be empty".to_owned()),
            ),
        }
    }

    /// What may be shown of credentials: nothing of them.
    pub fn redacted(&self) -> (r: String)
        ensures
            r@
                == "AccountCredentials { username: \"<redacted>\", password: \"<redacted>\" }"@,
    {
        "AccountCredentials { username: \"<redacted>\", password: \"<redacted>\" }".to_owned()
    }

    /// The fields of the login form.
    pub fn login_form<'a>(&'a self, token: &'a str) -> (r: [(&'static str, &'a str); 3])
        ensures
            r@[0].0@ == "username"@ && r@[0].1@ == self.name(),
            r@[1].0@ == "password"@ && r@[1].1@ == self.secret(),
            r@[2].0@ == "csrfmiddlewaretoken"@ && r@[2].1@ == token@,
    {
        [
            ("username", self.username.as_str()),
            ("password", self.password.as_str()),
            ("csrfmiddlewaretoken", token),
        ]
    }
}

/// How a release is fetched.
#[derive(Debug, Clone)]
pub struct FetchOptions {
    pub site: WebUrl,
    pub platform: Platform,
    pub max_bytes: u64,
    pub timeout: Duration,
    pub max_response_bytes: u64,
    pub retry: RetryPolicy,
    /// The acquisition time to record. Without one it is the time of the clock.
    pub acquired_at_unix: Option<u64>,
}

impl Default for FetchOptions {
    fn default() -> (r: FetchOptions)
        ensures
            crate::web::is_official_site(r.site@),
            r.site@.text == "https://foundryvtt.com/"@,
            r.platform == Platform::Node,
            r.max_bytes == DEFAULT_MAX_BYTES,
            r.timeout@ == 90 * 1_000_000_000,
            r.max_response_bytes == DEFAULT_MAX_RESPONSE_BYTES,
            r.retry.max_attempts == 3,
            r.retry.initial_backoff@ == 250 * 1_000_000,
            r.acquired_at_unix is None,
            r.max_bytes == 4_294_967_296,
            r.max_response_bytes == 4_194_304,
    {
        FetchOptions {
            site: WebUrl {
                text: "https://foundryvtt.com/".to_owned(),
                scheme: "https".to_owned(),
                host: Some("foundryvtt.com".to_owned()),
                port: Some(443),
            },
            platform: Platform::Node,
            max_bytes: DEFAULT_MAX_BYTES,
            timeout: Duration::from_secs(90),
            max_response_bytes: DEFAULT_MAX_RESPONSE_BYTES,
            retry: RetryPolicy { max_attempts: 3, initial_backoff: Duration::from_millis(250) },
            acquired_at_unix: None,
        }
    }
}

impl FetchOptions {
    /// The acquisition time to record when the clock says `now`.
    pub fn acquisition_time(&self, now: u64) -> (r: u64)
        ensures
            r == match self.acquired_at_unix {
                Some(given) => given,
                None => now,
            },
    {
        match self.acquired_at_unix {
            Some(given) => given,
            None => now,
        }
    }
}

/// Whether a status says that a request succeeded.
pub open spec fn is_success(status: u16) -> bool {
    200 <= status <= 299
}

/// Whether a status says that the same request may succeed later.
pub open spec fn is_retryable(status: u16) -> bool {
    status == 429 || 500 <= status <= 599
}

pub fn retryable_status(status: u16) -> (r: bool)
    ensures
        r == is_retryable(status),
{
    status == 429 || (500 <= status && status <= 599)
}

/// How an attempt to send a request ended.
#[derive(Debug, Clone, Copy)]
pub enum SendOutcome {
    /// The request could not be made once more.
    NotRepeatable,
    /// No answer came.
    Failed,
    /// An answer came, with this status.
    Answered(u16),
}

/// What follows an attempt to send a request.
#[derive(Debug, Clone, Copy)]
pub enum RetryStep {
    /// Pause, then try again.
    Pause(Duration),
    /// Hand out the answer.
    Accept,
    /// Give up.
    Fail,
}

/// How often a request is sent at most.
pub open spec fn attempts(policy: RetryPolicy) -> int {
    if policy.max_attempts == 0 {
        1
    } else {
        policy.max_attempts as int
    }
}

/// Whether another attempt follows attempt `attempt`, counted from zero.
pub open spec fn tries_again(policy: RetryPolicy, attempt: u8, outcome: SendOutcome) -> bool {
    attempt + 1 < attempts(policy) && match outcome {
        SendOutcome::NotRepeatable => false,
        SendOutcome::Failed => true,
        SendOutcome::Answered(status) => is_retryable(status),
    }
}

/// Decides what follows attempt `attempt`, counted from zero: failures and
/// answers that may become better are tried again, as often as the policy
/// allows; the last answer is handed out as it is.
pub fn retry_step(policy: RetryPolicy, attempt: u8, outcome: SendOutcome) -> (r: RetryStep)
    ensures
        match r {
            RetryStep::Pause(pause) => tries_again(policy, attempt, outcome) && pause@
                == policy.pause(attempt),
            RetryStep::Accept => !tries_again(policy, attempt, outcome) && outcome is Answered,
            RetryStep::Fail => !tries_again(policy, attempt, outcome) && !(outcome is Answered),
        },
{
    let last: u8 = if policy.max_attempts == 0 {
        0
    } else {
        policy.max_attempts - 1
    };
    match outcome {
        SendOutcome::NotRepeatable => RetryStep::Fail,
        SendOutcome::Failed => if attempt < last {
            RetryStep::Pause(policy.delay(attempt))
        } else {
            RetryStep::Fail
        },
        SendOutcome::Answered(status) => if attempt < last && retryable_status(status) {
            RetryStep::Pause(policy.delay(attempt))
        } else {
            RetryStep::Accept
        },
    }
}

/// A request is sent at least once and at most as often as the policy says:
/// whatever comes of the last attempt, none follows.
pub proof fn lemma_attempts_are_bounded(policy: RetryPolicy, attempt: u8, outcome: SendOutcome)
    requires
        attempt + 1 >= attempts(policy),
    ensures
        !tries_again(policy, attempt, outcome),
        1 <= attempts(policy) <= u8::MAX,
{
}

/// Whether a chunk fits behind what came before it.
pub open spec fn fits(size: nat, chunk: nat, max_bytes: u64) -> bool {
    size + chunk <= max_bytes
}

/// Counts a chunk of a download. `size` is what came before it.
pub fn count_chunk(size: u64, chunk: u64, max_bytes: u64) -> (r: Result<u64, FetchError>)
    ensures
        match r {
            Ok(total) => fits(size as nat, chunk as nat, max_bytes) && total == size + chunk,
            Err(e) => !fits(size as nat, chunk as nat, max_bytes) && e@ == Fault::TooLarge {
                limit: max_bytes,
            },
        },
{
    match size.checked_add(chunk) {
        Some(total) => if total > max_bytes {
            Err(FetchError::TooLarge { limit: max_bytes })
        } else {
            Ok(total)
        },
        None => Err(FetchError::TooLarge { limit: max_bytes }),
    }
}

/// Counts a block of a file that is copied. The count stops at its largest
/// value.
pub fn count_copied(copied: u64, block: u64, max_bytes: u64) -> (r: Result<u64, FetchError>)
    ensures
        ({
            let total = if copied + block > u64::MAX {
                u64::MAX as int
            } else {
                copied + block
            };
            match r {
                Ok(n) => n == total && total <= max_bytes,
                Err(e) => total > max_bytes && e@ == Fault::TooLarge { limit: max_bytes },
            }
        }),
{
    let total: u64 = copied.saturating_add(block);
    if total > max_bytes {
        Err(FetchError::TooLarge { limit: max_bytes })
    } else {
        Ok(total)
    }
}

/// Puts a chunk of an answer behind what was read of it, unless that is too
/// much.
pub fn append_limited(body: &mut Vec<u8>, chunk: &[u8], max_bytes: u64) -> (r: Result<
    (),
    FetchError,
>)
    ensures
        match r {
            Ok(()) => fits(old(body)@.len(), chunk@.len(), max_bytes) && final(body)@ == old(body)@
                + chunk@,
            Err(e) => {
                &&& final(body)@ == old(body)@
                &&& !fits(old(body)@.len(), chunk@.len(), max_bytes)
                &&& e@ == Fault::TooLarge { limit: max_bytes }
            },
        },
{
    let size: u64 = body.len() as u64;
    match count_chunk(size, chunk.len() as u64, max_bytes) {
        Ok(_) => {
            let ghost before = body@;
            body.extend_from_slice(chunk);
            assert(body@ == before + chunk@);
            Ok(())
        },
        Err(e) => Err(e),
    }
}

/// All chunks of a transfer together.
pub open spec fn total_len(chunks: Seq<u64>) -> nat
    decreases chunks.len(),
{
    if chunks.len() == 0 {
        0
    } else {
        total_len(chunks.drop_last()) + chunks.last() as nat
    }
}

/// Whether chunk after chunk was counted without a fault.
pub open spec fn all_counted(chunks: Seq<u64>, max_bytes: u64) -> bool
    decreases chunks.len(),
{
    chunks.len() == 0 || (all_counted(chunks.drop_last(), max_bytes) && fits(
        total_len(chunks.drop_last()),
        chunks.last() as nat,
        max_bytes,
    ))
}

/// A transfer in chunks goes through exactly where the whole is not too large.
pub proof fn lemma_transfer_is_limited(chunks: Seq<u64>, max_bytes: u64)
    ensures
        all_counted(chunks, max_bytes) <==> total_len(chunks) <= max_bytes,
    decreases chunks.len(),
{
    if chunks.len() > 0 {
        lemma_transfer_is_limited(chunks.drop_last(), max_bytes);
    }
}

/// Checks the status of an answer.
pub fn check_status(status: u16, context: &str) -> (r: Result<(), FetchError>)
    ensures
        match r {
            Ok(()) => is_success(status),
            Err(e) => !is_success(status) && e@ == Fault::Remote { status, context: context@ },
        },
{
    if 200 <= status && status <= 299 {
        Ok(())
    } else {
        Err(FetchError::Remote { status, context: context.to_owned() })
    }
}

/// `String::from_utf8`: the text of bytes that are UTF-8, and nothing for bytes
/// that are not.
#[verifier::external_body]
fn text_from_utf8(bytes: Vec<u8>) -> (r: Option<String>)
    ensures
        match r {
            Some(text) => valid_utf8(bytes@) && text@ == decode_utf8(bytes@),
            None => !valid_utf8(bytes@),
        },
{
    String::from_utf8(bytes).ok()
}

/// What speaks against an answer that should be a text.
pub open spec fn text_fault(status: u16, body: Seq<u8>, context: Seq<char>) -> Option<Fault> {
    if !is_success(status) {
        Some(Fault::Remote { status, context })
    } else if !valid_utf8(body) {
        Some(Fault::InvalidArchive(context + " was not valid UTF-8"@))
    } else {
        None
    }
}

/// The text of an answer.
pub fn checked_text(status: u16, body: Vec<u8>, context: &str) -> (r: Result<String, FetchError>)
    ensures
        match r {
            Ok(text) => text_fault(status, body@, context@) is None && text@ == decode_utf8(body@),
            Err(e) => text_fault(status, body@, context@) == Some(e@),
        },
{
    match check_status(status, context) {
        Ok(()) => {},
        Err(e) => return Err(e),
    }
    match text_from_utf8(body) {
        Some(text) => Ok(text),
        None => {
            let mut message = context.to_owned();
            message.append(" was not valid UTF-8");
            Err(FetchError::InvalidArchive(message))
        },
    }
}

/// The files and the mode that an acquisition was asked for with.
#[derive(Debug, Clone, Default)]
pub struct AcquireSources {
    pub release_url_file: Option<String>,
    pub username_file: Option<String>,
    pub password_file: Option<String>,
    pub offline: bool,
}

/// Which sources have been tried.
#[derive(Debug, Clone, Copy, PartialEq, Eq, Structural)]
pub enum AcquireStage {
    Start,
    AfterSignedUrl,
    AfterAccount,
}

/// Which source is tried next.
#[derive(Debug)]
pub enum AcquireAction {
    /// The signed URL in this file.
    SignedUrl(String),
    /// The account whose name and password are in these files.
    Account { username_file: String, password_file: String },
    /// The cache.
    Cached,
    /// None: the name or the password is missing.
    Refuse,
}

/// The content of an `AcquireAction`.
pub ghost enum Source {
    SignedUrl(Seq<char>),
    Account { username_file: Seq<char>, password_file: Seq<char> },
    Cached,
    Refuse,
}

impl View for AcquireAction {
    type V = Source;

    open spec fn view(&self) -> Source {
        match self {
            AcquireAction::SignedUrl(path) => Source::SignedUrl(path@),
            AcquireAction::Account { username_file, password_file } => Source::Account {
                username_file: username_file@,
                password_file: password_file@,
            },
            AcquireAction::Cached => Source::Cached,
            AcquireAction::Refuse => Source::Refuse,
        }
    }
}

/// The source that the name and password files stand for.
pub open spec fn account_source(sources: AcquireSources) -> Source {
    match (sources.username_file, sources.password_file) {
        (Some(username), Some(password)) => Source::Account {
            username_file: username@,
            password_file: password@,
        },
        (None, None) => Source::Cached,
        _ => Source::Refuse,
    }
}

/// Which source is tried at a stage.
pub open spec fn source_at(sources: AcquireSources, stage: AcquireStage) -> Source {
    if sources.offline || stage == AcquireStage::AfterAccount {
        Source::Cached
    } else {
        match sources.release_url_file {
            Some(path) if stage == AcquireStage::Start => Source::SignedUrl(path@),
            _ => account_source(sources),
        }
    }
}

/// The stage that follows once the source at a stage has failed.
pub open spec fn stage_after(sources: AcquireSources, stage: AcquireStage) -> AcquireStage {
    if source_at(sources, stage) is SignedUrl {
        AcquireStage::AfterSignedUrl
    } else {
        AcquireStage::AfterAccount
    }
}

/// The sources that are tried from a stage on, where each of them fails.
pub open spec fn plan(sources: AcquireSources, stage: AcquireStage) -> Seq<Source>
    decreases
            match stage {
                AcquireStage::Start => 2int,
                AcquireStage::AfterSignedUrl => 1,
                AcquireStage::AfterAccount => 0,
            },
{
    let source = source_at(sources, stage);
    if source is SignedUrl || source is Account {
        seq![source] + plan(sources, stage_after(sources, stage))
    } else {
        seq![source]
    }
}

/// Decides which source is tried next: a signed URL first, then an account,
/// and the cache last. Offline, only the cache is used.
pub fn next_source(sources: &AcquireSources, stage: AcquireStage) -> (r: AcquireAction)
    ensures
        r@ == source_at(*sources, stage),
{
    if sources.offline {
        return AcquireAction::Cached;
    }
    match stage {
        AcquireStage::Start => {
            if let Some(path) = &sources.release_url_file {
                return AcquireAction::SignedUrl(path.clone());
            }
        },
        AcquireStage::AfterSignedUrl => {},
        AcquireStage::AfterAccount => return AcquireAction::Cached,
    }
    match (&sources.username_file, &sources.password_file) {
        (Some(username_file), Some(password_file)) => AcquireAction::Account {
            username_file: username_file.clone(),
            password_file: password_file.clone(),
        },
        (None, None) => AcquireAction::Cached,
        _ => AcquireAction::Refuse,
    }
}

/// The order of the sources: a signed URL where one is given, then the account
/// where its name and password are given, then the cache. A name without a
/// password, or the other way round, ends the acquisition before the cache.
pub proof fn lemma_precedence(sources: AcquireSources)
    requires
        !sources.offline,
    ensures
        plan(sources, AcquireStage::Start) == (match sources.release_url_file {
            Some(path) => seq![Source::SignedUrl(path@)],
            None => Seq::empty(),
        }) + (match (sources.username_file, sources.password_file) {
            (Some(username), Some(password)) => seq![
                Source::Account { username_file: username@, password_file: password@ },
                Source::Cached,
            ],
            (None, None) => seq![Source::Cached],
            _ => seq![Source::Refuse],
        }),
{
    reveal_with_fuel(plan, 4);
}

/// Offline, nothing but the cache is ever tried.
pub proof fn lemma_offline_uses_only_the_cache(sources: AcquireSources, stage: AcquireStage)
    requires
        sources.offline,
    ensures
        plan(sources, stage) == seq![Source::Cached],
{
}

/// What an acquisition ends with, once the cache was asked: the cached archive,
/// or else the last fault of a source that was tried.
pub open spec fn finished(
    cached: Result<Option<Artifact>, FetchError>,
    last_error: Option<FetchError>,
) -> Result<Artifact, FetchError> {
    match cached {
        Ok(Some(artifact)) => Ok(artifact),
        Ok(None) => match last_error {
            Some(e) => Err(e),
            None => Err(FetchError::NoAcquisitionSource),
        },
        Err(e) => Err(e),
    }
}

/// What an acquisition ends with, once the cache was asked.
pub fn finish_acquisition(
    cached: Result<Option<Artifact>, FetchError>,
    last_error: Option<FetchError>,
) -> (r: Result<Artifact, FetchError>)
    ensures
        r == finished(cached, last_error),
{
    match cached {
        Ok(Some(artifact)) => Ok(artifact),
        Ok(None) => match last_error {
            Some(e) => Err(e),
            None => Err(FetchError::NoAcquisitionSource),
        },
        Err(e) => Err(e),
    }
}

/// What an acquisition is told.
#[derive(Debug)]
pub enum AcquireEvent {
    Begin,
    /// How the signed URL or the account did.
    Tried(Result<Artifact, FetchError>),
    /// The credentials of the account could not be read.
    Unreadable(FetchError),
    /// What the cache holds.
    Cached(Result<Option<Artifact>, FetchError>),
}

/// What an acquisition does next.
#[derive(Debug)]
pub enum AcquireMove {
    Try(AcquireAction),
    End(Result<Artifact, FetchError>),
}

/// The content of an `AcquireMove`.
pub ghost enum Turn {
    Try(Source),
    End(Result<Artifact, FetchError>),
}

impl View for AcquireMove {
    type V = Turn;

    open spec fn view(&self) -> Turn {
        match self {
            AcquireMove::Try(action) => Turn::Try(action@),
            AcquireMove::End(result) => Turn::End(*result),
        }
    }
}

/// What is done at a stage: its source is tried, unless the name or the
/// password is missing.
pub open spec fn turn_at(sources: AcquireSources, stage: AcquireStage) -> Turn {
    match source_at(sources, stage) {
        Source::Refuse => Turn::End(Err(FetchError::NoAcquisitionSource)),
        source => Turn::Try(source),
    }
}

/// What follows an event: the stage, the last error, and what is done.
pub open spec fn acquire_next(
    sources: AcquireSources,
    stage: AcquireStage,
    last_error: Option<FetchError>,
    event: AcquireEvent,
) -> (AcquireStage, Option<FetchError>, Turn) {
    match event {
        AcquireEvent::Begin => (stage, last_error, turn_at(sources, stage)),
        AcquireEvent::Tried(Ok(artifact)) => (stage, None, Turn::End(Ok(artifact))),
        AcquireEvent::Tried(Err(e)) => (
            stage_after(sources, stage),
            Some(e),
            turn_at(sources, stage_after(sources, stage)),
        ),
        AcquireEvent::Unreadable(e) => (stage, None, Turn::End(Err(e))),
        AcquireEvent::Cached(cached) => (stage, None, Turn::End(finished(cached, last_error))),
    }
}

/// Decides what is done at a stage.
fn move_at(sources: &AcquireSources, stage: AcquireStage) -> (r: AcquireMove)
    ensures
        r@ == turn_at(*sources, stage),
{
    match next_source(sources, stage) {
        AcquireAction::Refuse => AcquireMove::End(Err(FetchError::NoAcquisitionSource)),
        action => AcquireMove::Try(action),
    }
}

/// Decides what follows an event. An archive ends the acquisition, and no other
/// source is tried. A source that fails leaves its error and leads to the next.
/// Credentials that cannot be read end the acquisition at once, and what the
/// cache holds ends it last.
pub fn acquire_step(
    sources: &AcquireSources,
    stage: AcquireStage,
    last_error: Option<FetchError>,
    event: AcquireEvent,
) -> (r: (AcquireStage, Option<FetchError>, AcquireMove))
    ensures
        (r.0, r.1, r.2@) == acquire_next(*sources, stage, last_error, event),
{
    match event {
        AcquireEvent::Begin => (stage, last_error, move_at(sources, stage)),
        AcquireEvent::Tried(Ok(artifact)) => (stage, None, AcquireMove::End(Ok(artifact))),
        AcquireEvent::Tried(Err(e)) => {
            let next = match next_source(sources, stage) {
                AcquireAction::SignedUrl(_) => AcquireStage::AfterSignedUrl,
                _ => AcquireStage::AfterAccount,
            };
            (next, Some(e), move_at(sources, next))
        },
        AcquireEvent::Unreadable(e) => (stage, None, AcquireMove::End(Err(e))),
        AcquireEvent::Cached(cached) => (
            stage,
            None,
            AcquireMove::End(finish_acquisition(cached, last_error)),
        ),
    }
}

/// How each source would do.
pub ghost struct Outcomes {
    pub signed_url: Result<Artifact, FetchError>,
    /// Why the credentials cannot be read, where they cannot.
    pub unreadable: Option<FetchError>,
    pub account: Result<Artifact, FetchError>,
    pub cached: Result<Option<Artifact>, FetchError>,
}

/// What is told once a source was tried.
pub open spec fn event_of(source: Source, outcomes: Outcomes) -> AcquireEvent {
    match source {
        Source::SignedUrl(_) => AcquireEvent::Tried(outcomes.signed_url),
        Source::Account { .. } => match outcomes.unreadable {
            Some(e) => AcquireEvent::Unreadable(e),
            None => AcquireEvent::Tried(outcomes.account),
        },
        _ => AcquireEvent::Cached(outcomes.cached),
    }
}

/// What an acquisition ends with that goes on from what follows an event, within
/// so many tries.
pub open spec fn run_from(
    sources: AcquireSources,
    outcomes: Outcomes,
    next: (AcquireStage, Option<FetchError>, Turn),
    tries: nat,
) -> Option<Result<Artifact, FetchError>>
    decreases tries,
{
    match next.2 {
        Turn::End(result) => Some(result),
        Turn::Try(source) => if tries == 0 {
            None
        } else {
            run_from(
                sources,
                outcomes,
                acquire_next(sources, next.0, next.1, event_of(source, outcomes)),
                (tries - 1) as nat,
            )
        },
    }
}

/// What a whole acquisition ends with. No acquisition takes more than three
/// tries.
pub open spec fn acquisition(sources: AcquireSources, outcomes: Outcomes) -> Option<
    Result<Artifact, FetchError>,
> {
    run_from(
        sources,
        outcomes,
        acquire_next(sources, AcquireStage::Start, None, AcquireEvent::Begin),
        3,
    )
}

/// What a whole acquisition ends with once the signed URL, where there is one,
/// has failed with `last_error`.
pub open spec fn without_signed_url(
    sources: AcquireSources,
    outcomes: Outcomes,
    last_error: Option<FetchError>,
) -> Result<Artifact, FetchError> {
    match account_source(sources) {
        Source::Account { .. } => match (outcomes.unreadable, outcomes.account) {
            (Some(e), _) => Err(e),
            (None, Ok(artifact)) => Ok(artifact),
            (None, Err(e)) => finished(outcomes.cached, Some(e)),
        },
        Source::Refuse => Err(FetchError::NoAcquisitionSource),
        _ => finished(outcomes.cached, last_error),
    }
}

/// What a whole acquisition ends with. Offline it is what the cache holds. An
/// archive from the signed URL is the result, and the account is not tried;
/// else one from the account is; else it is what the cache holds, or the error
/// of the last source that was tried. Credentials that cannot be read, or of
/// which one is missing, are an error before the cache is asked.
pub proof fn lemma_acquisition(sources: AcquireSources, outcomes: Outcomes)
    ensures
        acquisition(sources, outcomes) == Some(
            if sources.offline {
                finished(outcomes.cached, None)
            } else {
                match (sources.release_url_file, outcomes.signed_url) {
                    (Some(_), Ok(artifact)) => Ok(artifact),
                    (Some(_), Err(e)) => without_signed_url(sources, outcomes, Some(e)),
                    (None, _) => without_signed_url(sources, outcomes, None),
                }
            },
        ),
{
    reveal_with_fuel(run_from, 5);
}

/// The archive that a source gives, where it gives one.
pub open spec fn given(source: Source, outcomes: Outcomes) -> Option<Artifact> {
    match event_of(source, outcomes) {
        AcquireEvent::Tried(Ok(artifact)) => Some(artifact),
        AcquireEvent::Cached(Ok(Some(artifact))) if source is Cached => Some(artifact),
        _ => None,
    }
}

/// The first source in the plan that gives an archive decides the acquisition,
/// unless an account comes before it whose credentials cannot be read.
pub proof fn lemma_first_success_is_the_result(
    sources: AcquireSources,
    outcomes: Outcomes,
    i: int,
)
    requires
        0 <= i < plan(sources, AcquireStage::Start).len(),
        given(plan(sources, AcquireStage::Start)[i], outcomes) is Some,
        forall|j: int|
            0 <= j < i ==> given(#[trigger] plan(sources, AcquireStage::Start)[j], outcomes) is None,
        outcomes.unreadable is Some ==> forall|j: int|
            0 <= j < i ==> !(#[trigger] plan(sources, AcquireStage::Start)[j] is Account),
    ensures
        acquisition(sources, outcomes) == Some(
            Ok::<Artifact, FetchError>(
                given(plan(sources, AcquireStage::Start)[i], outcomes)->Some_0,
            ),
        ),
{
    let all = plan(sources, AcquireStage::Start);
    lemma_acquisition(sources, outcomes);
    if sources.offline {
        lemma_offline_uses_only_the_cache(sources, AcquireStage::Start);
    } else {
        lemma_precedence(sources);
    }
    if i > 0 {
        assert(given(all[0], outcomes) is None);
        assert(outcomes.unreadable is Some ==> !(all[0] is Account));
    }
    if i > 1 {
        assert(given(all[1], outcomes) is None);
        assert(outcomes.unreadable is Some ==> !(all[1] is Account));
    }
}

/// A status says success in its first digit.
pub proof fn lemma_statuses(status: u16)
    ensures
        is_success(status) <==> status / 100 == 2,
        is_retryable(status) <==> status == 429 || status / 100 == 5,
        !(is_success(status) && is_retryable(status)),
{
}

/// A request that failed is sent again while the policy leaves an attempt, and
/// so is one whose answer was 429 or a server error. Nothing else is sent again.
pub proof fn lemma_what_is_sent_again(policy: RetryPolicy, attempt: u8, status: u16)
    ensures
        tries_again(policy, attempt, SendOutcome::Failed) <==> attempt + 1 < policy.max_attempts,
        tries_again(policy, attempt, SendOutcome::Answered(status)) <==> attempt + 1
            < policy.max_attempts && (status == 429 || status / 100 == 5),
        !tries_again(policy, attempt, SendOutcome::NotRepeatable),
{
}

/// A text is accepted exactly where it came with success and is UTF-8; the
/// status counts first.
pub proof fn lemma_accepted_texts(status: u16, body: Seq<u8>, context: Seq<char>)
    ensures
        text_fault(status, body, context) is None <==> status / 100 == 2 && valid_utf8(body),
        status / 100 != 2 ==> text_fault(status, body, context) == Some(
            Fault::Remote { status, context },
        ),
        status / 100 == 2 && !valid_utf8(body) ==> text_fault(status, body, context) == Some(
            Fault::InvalidArchive(context + " was not valid UTF-8"@),
        ),
{
}

/// A transfer is as long as its parts together, however it is cut.
pub proof fn lemma_total_len(a: Seq<u64>, b: Seq<u64>, n: u64)
    ensures
        total_len(seq![n]) == n,
        total_len(a + b) == total_len(a) + total_len(b),
    decreases b.len(),
{
    assert(seq![n].drop_last() == Seq::<u64>::empty());
    assert(total_len(Seq::<u64>::empty()) == 0);
    if b.len() == 0 {
        assert(a + b == a);
    } else {
        assert((a + b).drop_last() == a + b.drop_last());
        assert((a + b).last() == b.last());
        lemma_total_len(a, b.drop_last(), n);
    }
}

/// An archive in the cache is the result, whatever failed before. Without one
/// the last error is, and without an error that there was no source. A cache
/// that fails is an error of its own.
pub proof fn lemma_ends_with_the_cache(
    artifact: Artifact,
    error: FetchError,
    last: Option<FetchError>,
)
    ensures
        finished(Ok(Some(artifact)), last) == Ok::<Artifact, FetchError>(artifact),
        finished(Ok(None), Some(error)) == Err::<Artifact, FetchError>(error),
        finished(Ok(None), None) == Err::<Artifact, FetchError>(FetchError::NoAcquisitionSource),
        finished(Err(error), last) == Err::<Artifact, FetchError>(error),
{
}

/// Offline, neither the signed URL nor the account has any bearing on the result.
pub proof fn lemma_offline_ignores_the_network(
    sources: AcquireSources,
    a: Outcomes,
    b: Outcomes,
)
    requires
        sources.offline,
        a.cached == b.cached,
    ensures
        acquisition(sources, a) == acquisition(sources, b),
        a.cached matches Ok(Some(artifact)) ==> acquisition(sources, a) == Some(
            Ok::<Artifact, FetchError>(artifact),
        ),
        a.cached matches Ok(None) ==> acquisition(sources, a) == Some(
            Err::<Artifact, FetchError>(FetchError::NoAcquisitionSource),
        ),
{
    lemma_acquisition(sources, a);
    lemma_acquisition(sources, b);
}

/// Online, an archive from the signed URL is the result. Where there is no such
/// URL or it fails, an archive from the account is, provided that its name and
/// its password are given and can be read. Where one of them is missing, there
/// is no source, and where they cannot be read, that is the error. Where no
/// account is given, or it fails too, the cache decides.
pub proof fn lemma_online_order(sources: AcquireSources, outcomes: Outcomes)
    requires
        !sources.offline,
    ensures
        sources.release_url_file is Some && outcomes.signed_url is Ok ==> acquisition(
            sources,
            outcomes,
        ) == Some(Ok::<Artifact, FetchError>(outcomes.signed_url->Ok_0)),
        sources.release_url_file is None || outcomes.signed_url is Err ==> {
            let last = if sources.release_url_file is Some {
                Some(outcomes.signed_url->Err_0)
            } else {
                None
            };
            let both = sources.username_file is Some && sources.password_file is Some;
            let neither = sources.username_file is None && sources.password_file is None;
            &&& both && outcomes.unreadable is Some ==> acquisition(sources, outcomes) == Some(
                Err::<Artifact, FetchError>(outcomes.unreadable->0),
            )
            &&& both && outcomes.unreadable is None && outcomes.account is Ok ==> acquisition(
                sources,
                outcomes,
            ) == Some(Ok::<Artifact, FetchError>(outcomes.account->Ok_0))
            &&& both && outcomes.unreadable is None && outcomes.account is Err ==> acquisition(
                sources,
                outcomes,
            ) == Some(finished(outcomes.cached, Some(outcomes.account->Err_0)))
            &&& neither ==> acquisition(sources, outcomes) == Some(finished(outcomes.cached, last))
            &&& !both && !neither ==> acquisition(sources, outcomes) == Some(
                Err::<Artifact, FetchError>(FetchError::NoAcquisitionSource),
            )
        },
{
    lemma_acquisition(sources, outcomes);
}

/// What follows an attempt: a pause of the policy's length before another one,
/// the answer, or the end. Success and refusals are handed out at once.
pub proof fn lemma_what_follows_an_attempt(
    policy: RetryPolicy,
    attempt: u8,
    outcome: SendOutcome,
    r: RetryStep,
)
    requires
        call_ensures(retry_step, (policy, attempt, outcome), r),
    ensures
        outcome matches SendOutcome::Answered(status) ==> {
            &&& attempt + 1 < policy.max_attempts && (status == 429 || status / 100 == 5)
                ==> (r matches RetryStep::Pause(pause) && pause@ == policy.pause(attempt))
            &&& !(attempt + 1 < policy.max_attempts && (status == 429 || status / 100 == 5))
                ==> r is Accept
        },
        outcome is Failed && attempt + 1 < policy.max_attempts ==> (r matches RetryStep::Pause(
            pause,
        ) && pause@ == policy.pause(attempt)),
        outcome is Failed && attempt + 1 >= policy.max_attempts ==> r is Fail,
        outcome is NotRepeatable ==> r is Fail,
{
}

/// A chunk is counted exactly where it fits, and a count that would not fit in 64
/// bits fits nowhere.
pub proof fn lemma_counted_chunks(size: u64, chunk: u64, max_bytes: u64, r: Result<u64, FetchError>)
    requires
        call_ensures(count_chunk, (size, chunk, max_bytes), r),
    ensures
        size + chunk <= max_bytes ==> (r matches Ok(total) && total == size + chunk),
        size + chunk > max_bytes ==> (r matches Err(e) && e@ == (Fault::TooLarge {
            limit: max_bytes,
        })),
{
}

/// A block of a copy is counted exactly where it fits; only under the largest
/// limit does a longer copy count as that.
pub proof fn lemma_counted_blocks(copied: u64, block: u64, max_bytes: u64, r: Result<u64, FetchError>)
    requires
        call_ensures(count_copied, (copied, block, max_bytes), r),
    ensures
        copied + block <= max_bytes ==> (r matches Ok(total) && total == copied + block),
        copied + block > max_bytes && max_bytes < u64::MAX ==> (r matches Err(e) && e@
            == (Fault::TooLarge { limit: max_bytes })),
        copied + block > u64::MAX && max_bytes == u64::MAX ==> (r matches Ok(total) && total
            == u64::MAX),
{
}

/// Credentials are a name and a password that are not blank: the name without
/// the white space around it, the password without that at its end.
pub proof fn lemma_given_credentials(
    username: &str,
    password: &str,
    r: Result<AccountCredentials, FetchError>,
)
    requires
        call_ensures(AccountCredentials::from_values, (username, password), r) || call_ensures(
            AccountCredentials::from_files,
            (username, password),
            r,
        ),
    ensures
        r is Ok <==> crate::text::trim(username@).len() > 0 && crate::text::trim_end(password@).len()
            > 0,
        r matches Ok(credentials) ==> {
            &&& !crate::text::is_white(credentials.name()[0])
            &&& !crate::text::is_white(credentials.name().last())
            &&& crate::text::has_text(username@, credentials.name())
            &&& !crate::text::is_white(credentials.secret().last())
            &&& credentials.secret().is_prefix_of(password@)
            &&& forall|k: int|
                credentials.secret().len() <= k < password@.len() ==> crate::text::is_white(
                    #[trigger] password@[k],
                )
        },
{
    crate::text::lemma_trim_cut(username@);
    crate::text::lemma_trim_end_cut(password@);
}

/// The time that is recorded is the one that was given, or else the clock's.
pub proof fn lemma_acquisition_times(options: &FetchOptions, now: u64, r: u64)
    requires
        call_ensures(FetchOptions::acquisition_time, (options, now), r),
    ensures
        options.acquired_at_unix is Some ==> r == options.acquired_at_unix->0,
        options.acquired_at_unix is None ==> r == now,
{
}

}
