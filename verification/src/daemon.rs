//! The service that acquires archives for Nix builds: which requests it takes,
//! and what it answers.
use vstd::prelude::*;

use crate::cache::{Artifact, Record};
use crate::error::FetchError;
use crate::release::{Platform, ReleaseId, SourceKind};
use crate::text::{chars_of, same_text, starts_with};

verus! {

/// How much is read of a request.
pub const MAX_REQUEST_BYTES: usize = 16_384;

/// How long an answer may be, with the line end behind it.
pub const MAX_RESPONSE_BYTES: usize = 16_384;

/// The byte that ends a line.
pub const LINE_END: u8 = 10;

/// The version of the protocol.
pub const PROTOCOL_VERSION: u32 = 1;

#[derive(Debug)]
pub struct AcquireRequest {
    pub schema_version: u32,
    pub release: String,
    pub platform: Platform,
    pub expected_sri: String,
}

/// The content of an `AcquireRequest`.
pub ghost struct Ask {
    pub schema_version: u32,
    pub release: Seq<char>,
    pub platform: Platform,
    pub expected_sri: Seq<char>,
}

impl View for AcquireRequest {
    type V = Ask;

    open spec fn view(&self) -> Ask {
        Ask {
            schema_version: self.schema_version,
            release: self.release@,
            platform: self.platform,
            expected_sri: self.expected_sri@,
        }
    }
}

#[derive(Debug)]
pub struct AcquireResponse {
    pub schema_version: u32,
    pub status: &'static str,
    pub path: Option<String>,
    pub release: Option<String>,
    pub nix_sri: Option<String>,
    pub error: Option<String>,
}

/// The content of an `AcquireResponse`.
pub ghost struct Reply {
    pub schema_version: u32,
    pub status: Seq<char>,
    pub path: Option<Seq<char>>,
    pub release: Option<Seq<char>>,
    pub nix_sri: Option<Seq<char>>,
    pub error: Option<Seq<char>>,
}

impl View for AcquireResponse {
    type V = Reply;

    open spec fn view(&self) -> Reply {
        Reply {
            schema_version: self.schema_version,
            status: self.status@,
            path: crate::text::text_of(self.path),
            release: crate::text::text_of(self.release),
            nix_sri: crate::text::text_of(self.nix_sri),
            error: crate::text::text_of(self.error),
        }
    }
}

/// The answer that hands out an archive.
pub open spec fn ready_reply(archive: Seq<char>, record: Record) -> Reply {
    Reply {
        schema_version: PROTOCOL_VERSION,
        status: "ready"@,
        path: Some(archive),
        release: Some(record.release.shown()),
        nix_sri: Some(record.nix_sri),
        error: None,
    }
}

/// The answer that hands out nothing.
pub open spec fn error_reply(message: Seq<char>) -> Reply {
    Reply {
        schema_version: PROTOCOL_VERSION,
        status: "error"@,
        path: None,
        release: None,
        nix_sri: None,
        error: Some(message),
    }
}

impl AcquireResponse {
    pub fn ready(artifact: &Artifact) -> (r: AcquireResponse)
        ensures
            r@ == ready_reply(artifact.archive@, artifact.provenance@),
    {
        AcquireResponse {
            schema_version: PROTOCOL_VERSION,
            status: "ready",
            path: Some(artifact.archive.clone()),
            release: Some(artifact.provenance.release.display()),
            nix_sri: Some(artifact.provenance.nix_sri.clone()),
            error: None,
        }
    }

    pub fn error(message: &str) -> (r: AcquireResponse)
        ensures
            r@ == error_reply(message@),
    {
        AcquireResponse {
            schema_version: PROTOCOL_VERSION,
            status: "error",
            path: None,
            release: None,
            nix_sri: None,
            error: Some(message.to_owned()),
        }
    }
}

/// The answer to a request that could not be read. `reason` says why.
pub fn unreadable_request(reason: &str) -> (r: AcquireResponse)
    ensures
        r@ == error_reply("invalid request: "@ + reason@),
{
    let mut message = "invalid request: ".to_owned();
    message.append(reason);
    AcquireResponse::error(message.as_str())
}

/// What speaks against a request.
pub open spec fn request_fault(request: Ask) -> Option<Seq<char>> {
    if request.schema_version != PROTOCOL_VERSION {
        Some("unsupported acquisition protocol version"@)
    } else if request.platform != Platform::Linux {
        Some("only the Linux Foundry archive is licensed by this service"@)
    } else if crate::release::release_of(request.release) is None {
        Some("invalid Foundry release identifier"@)
    } else if !"sha256-"@.is_prefix_of(request.expected_sri) {
        Some("expected_sri must be a sha256 SRI digest"@)
    } else {
        None
    }
}

/// Checks a request, and reads the release that it asks for.
pub fn check_request(request: &AcquireRequest) -> (r: Result<ReleaseId, AcquireResponse>)
    ensures
        match r {
            Ok(release) => request_fault(request@) is None && crate::release::release_of(
                request@.release,
            ) == Some(release),
            Err(response) => request_fault(request@) is Some && response@ == error_reply(
                request_fault(request@)->Some_0,
            ),
        },
{
    if request.schema_version != PROTOCOL_VERSION {
        return Err(AcquireResponse::error("unsupported acquisition protocol version"));
    }
    match request.platform {
        Platform::Linux => {},
        Platform::Node => return Err(
            AcquireResponse::error("only the Linux Foundry archive is licensed by this service"),
        ),
    }
    let release = match ReleaseId::parse(request.release.as_str()) {
        Ok(release) => release,
        Err(_) => return Err(AcquireResponse::error("invalid Foundry release identifier")),
    };
    let sri = chars_of(request.expected_sri.as_str());
    let start = chars_of("sha256-");
    if !starts_with(sri.as_slice(), start.as_slice()) {
        return Err(AcquireResponse::error("expected_sri must be a sha256 SRI digest"));
    }
    Ok(release)
}

/// What is done once the cache was asked for an archive.
#[derive(Debug)]
pub enum AfterCache {
    /// The archive is there.
    Have(Artifact),
    /// It has to be acquired through the account.
    Acquire,
    /// It is there, and is refused.
    Refuse(FetchError),
}

/// Decides what is done once the cache was asked. An archive that is refused is
/// not acquired anew.
pub fn after_cache(cached: Result<Option<Artifact>, FetchError>) -> (r: AfterCache)
    ensures
        r == match cached {
            Ok(Some(artifact)) => AfterCache::Have(artifact),
            Ok(None) => AfterCache::Acquire,
            Err(e) => AfterCache::Refuse(e),
        },
{
    match cached {
        Ok(Some(artifact)) => AfterCache::Have(artifact),
        Ok(None) => AfterCache::Acquire,
        Err(e) => AfterCache::Refuse(e),
    }
}

/// The answer to a request: `acquired` is the archive, where there is one, and
/// `published` whether the build group could be let read it.
pub open spec fn reply_to(
    request: Ask,
    acquired: Option<(Seq<char>, Record)>,
    published: bool,
) -> Reply {
    match (request_fault(request), acquired) {
        (Some(message), _) => error_reply(message),
        (None, None) => error_reply("licensed Foundry archive acquisition failed"@),
        (None, Some((archive, record))) => if record.nix_sri != request.expected_sri {
            error_reply("cached archive hash does not match the declared Nix hash"@)
        } else if !published {
            error_reply("cannot publish the validated archive to the Nix build group"@)
        } else {
            ready_reply(archive, record)
        },
    }
}

/// The archive of an acquisition that succeeded.
pub open spec fn archive_of(acquired: Result<Artifact, FetchError>) -> Option<
    (Seq<char>, Record),
> {
    match acquired {
        Ok(artifact) => Some((artifact.archive@, artifact.provenance@)),
        Err(_) => None,
    }
}

/// Decides whether an archive is published: only the one that the request
/// declared is. Otherwise the answer is fixed.
pub fn judge(request: &AcquireRequest, acquired: Result<Artifact, FetchError>) -> (r: Result<
    Artifact,
    AcquireResponse,
>)
    requires
        request_fault(request@) is None,
    ensures
        match r {
            Ok(artifact) => acquired == Ok::<Artifact, FetchError>(artifact)
                && artifact.provenance@.nix_sri == request@.expected_sri,
            Err(response) => {
                &&& acquired matches Ok(artifact) ==> artifact.provenance@.nix_sri
                    != request@.expected_sri
                &&& response@ == reply_to(request@, archive_of(acquired), true)
                &&& response@ == reply_to(request@, archive_of(acquired), false)
            },
        },
{
    match acquired {
        Ok(artifact) => if same_text(
            artifact.provenance.nix_sri.as_str(),
            request.expected_sri.as_str(),
        ) {
            Ok(artifact)
        } else {
            Err(
                AcquireResponse::error(
                    "cached archive hash does not match the declared Nix hash",
                ),
            )
        },
        Err(_) => Err(AcquireResponse::error("licensed Foundry archive acquisition failed")),
    }
}

/// The answer once the declared archive was published, or could not be.
pub fn publish(request: &AcquireRequest, artifact: &Artifact, published: bool) -> (r:
    AcquireResponse)
    requires
        request_fault(request@) is None,
        artifact.provenance@.nix_sri == request@.expected_sri,
    ensures
        r@ == reply_to(request@, Some((artifact.archive@, artifact.provenance@)), published),
{
    if published {
        AcquireResponse::ready(artifact)
    } else {
        AcquireResponse::error("cannot publish the validated archive to the Nix build group")
    }
}

/// How far the service is with a request.
#[derive(Debug)]
pub enum ServeState {
    Start,
    /// The cache was asked.
    Cache,
    /// The archive is being acquired through the account.
    Account,
    /// The archive that the request declared is being published.
    Publish(Artifact),
    Done,
}

/// What the service is told.
#[derive(Debug)]
pub enum ServeEvent {
    Requested,
    CacheAnswered(Result<Option<Artifact>, FetchError>),
    Acquired(Result<Artifact, FetchError>),
    Published(bool),
}

/// What the service does next.
#[derive(Debug)]
pub enum ServeAction {
    /// Ask the cache for a release.
    AskCache(ReleaseId),
    /// Acquire the release through the account.
    Acquire,
    /// Let the build group read the cache.
    Publish,
    Reply(AcquireResponse),
}

/// Whether an event can come in a state. An archive is published only for a
/// valid request that declared it.
pub open spec fn serves(request: Ask, state: ServeState, event: ServeEvent) -> bool {
    match event {
        ServeEvent::Requested => state is Start,
        ServeEvent::CacheAnswered(_) => state is Cache && request_fault(request) is None,
        ServeEvent::Acquired(_) => state is Account && request_fault(request) is None,
        ServeEvent::Published(_) => {
            &&& state matches ServeState::Publish(artifact) && artifact.provenance@.nix_sri
                == request.expected_sri
            &&& request_fault(request) is None
        },
    }
}

/// The archive that an event brings.
pub open spec fn brings(state: ServeState, event: ServeEvent) -> Option<(Seq<char>, Record)> {
    match event {
        ServeEvent::CacheAnswered(Ok(Some(artifact))) => Some(
            (artifact.archive@, artifact.provenance@),
        ),
        ServeEvent::Acquired(Ok(artifact)) => Some((artifact.archive@, artifact.provenance@)),
        ServeEvent::Published(_) => match state {
            ServeState::Publish(artifact) => Some((artifact.archive@, artifact.provenance@)),
            _ => None,
        },
        _ => None,
    }
}

/// Whether the archive that the cache or the account handed out is published.
fn after_archive(request: &AcquireRequest, acquired: Result<Artifact, FetchError>) -> (r: (
    ServeState,
    ServeAction,
))
    requires
        request_fault(request@) is None,
    ensures
        match r.1 {
            ServeAction::Publish => acquired matches Ok(artifact) && artifact.provenance@.nix_sri
                == request@.expected_sri && r.0 == ServeState::Publish(artifact),
            ServeAction::Reply(response) => {
                &&& r.0 is Done
                &&& acquired matches Ok(artifact) ==> artifact.provenance@.nix_sri
                    != request@.expected_sri
                &&& response@ == reply_to(request@, archive_of(acquired), false)
            },
            _ => false,
        },
{
    match judge(request, acquired) {
        Ok(artifact) => (ServeState::Publish(artifact), ServeAction::Publish),
        Err(response) => (ServeState::Done, ServeAction::Reply(response)),
    }
}

/// Decides what the service does next. The cache is asked first; the account is
/// used only where the cache has nothing; only the archive that the request
/// declared is published; and only what was published is handed out.
pub fn serve(request: &AcquireRequest, state: ServeState, event: ServeEvent) -> (r: (
    ServeState,
    ServeAction,
))
    requires
        serves(request@, state, event),
    ensures
        match r.1 {
            ServeAction::AskCache(release) => {
                &&& event is Requested
                &&& request_fault(request@) is None
                &&& crate::release::release_of(request@.release) == Some(release)
                &&& r.0 is Cache
            },
            ServeAction::Acquire => {
                &&& event matches ServeEvent::CacheAnswered(Ok(None))
                &&& r.0 is Account
            },
            ServeAction::Publish => {
                &&& !(event is Published)
                &&& r.0 matches ServeState::Publish(artifact) && brings(state, event) == Some(
                    (artifact.archive@, artifact.provenance@),
                ) && artifact.provenance@.nix_sri == request@.expected_sri
            },
            ServeAction::Reply(response) => {
                &&& r.0 is Done
                &&& event is Requested ==> request_fault(request@) is Some
                &&& !(event matches ServeEvent::CacheAnswered(Ok(None)))
                &&& !(event is Published) ==> (brings(state, event) matches Some((_, record))
                    ==> record.nix_sri != request@.expected_sri)
                &&& response@ == reply_to(
                    request@,
                    brings(state, event),
                    event == ServeEvent::Published(true),
                )
            },
        },
        r.0 matches ServeState::Publish(_) ==> r.1 is Publish,
{
    match event {
        ServeEvent::Requested => match check_request(request) {
            Ok(release) => (ServeState::Cache, ServeAction::AskCache(release)),
            Err(response) => (ServeState::Done, ServeAction::Reply(response)),
        },
        ServeEvent::CacheAnswered(cached) => match after_cache(cached) {
            AfterCache::Have(artifact) => after_archive(request, Ok(artifact)),
            AfterCache::Acquire => (ServeState::Account, ServeAction::Acquire),
            AfterCache::Refuse(e) => after_archive(request, Err(e)),
        },
        ServeEvent::Acquired(acquired) => after_archive(request, acquired),
        ServeEvent::Published(published) => match state {
            ServeState::Publish(artifact) => (
                ServeState::Done,
                ServeAction::Reply(publish(request, &artifact, published)),
            ),
            _ => (
                ServeState::Done,
                ServeAction::Reply(
                    AcquireResponse::error("licensed Foundry archive acquisition failed"),
                ),
            ),
        },
    }
}

/// Frames an encoded answer as a line, unless it is too long.
pub fn frame_response(encoded: Vec<u8>) -> (r: Option<Vec<u8>>)
    ensures
        match r {
            Some(line) => line@ == encoded@.push(LINE_END) && line@.len() <= MAX_RESPONSE_BYTES,
            None => encoded@.len() + 1 > MAX_RESPONSE_BYTES,
        },
        r is Some <==> encoded@.len() < 16_384,
        r matches Some(line) ==> line@ == encoded@.push(10),
{
    let mut line = encoded;
    line.push(LINE_END);
    if line.len() > MAX_RESPONSE_BYTES {
        None
    } else {
        Some(line)
    }
}

/// An archive is handed out only to a valid request, only with the exact hash
/// that the request declares, and only once it was published.
pub proof fn lemma_ready_only_with_the_declared_hash(
    request: Ask,
    acquired: Option<(Seq<char>, Record)>,
    published: bool,
)
    requires
        reply_to(request, acquired, published).status == "ready"@,
    ensures
        request_fault(request) is None,
        published,
        acquired is Some,
        acquired->Some_0.1.nix_sri == request.expected_sri,
        reply_to(request, acquired, published).path == Some(acquired->Some_0.0),
        reply_to(request, acquired, published).nix_sri == Some(request.expected_sri),
{
    reveal_strlit("ready");
    reveal_strlit("error");
    assert("ready"@[0] == 'r' && "error"@[0] == 'e');
}

/// A refused request is answered the same way whatever the cache holds.
pub proof fn lemma_refused_request_learns_nothing(
    request: Ask,
    a: Option<(Seq<char>, Record)>,
    b: Option<(Seq<char>, Record)>,
    published_a: bool,
    published_b: bool,
)
    requires
        request_fault(request) is Some,
    ensures
        reply_to(request, a, published_a) == reply_to(request, b, published_b),
        reply_to(request, a, published_a).path is None,
{
}

/// A request for a release by its name, with the SRI digest of an archive, is
/// always taken.
pub proof fn lemma_proper_request_is_taken(release: ReleaseId, digest: Seq<u8>)
    ensures
        request_fault(
            Ask {
                schema_version: PROTOCOL_VERSION,
                release: release.shown(),
                platform: Platform::Linux,
                expected_sri: crate::digest::sri_text(digest),
            },
        ) is None,
{
    crate::release::lemma_shown_reads_back(release);
}

/// An archive that was put into the cache is handed out to whoever asks for its
/// release and declares the hash of its contents.
pub proof fn lemma_cached_archive_is_served(
    archive: Seq<char>,
    release: ReleaseId,
    source: SourceKind,
    contents: Seq<u8>,
    size: u64,
    acquired_at: u64,
)
    ensures
        ({
            let record = crate::cache::new_record(
                release,
                Platform::Linux,
                source,
                contents,
                size,
                acquired_at,
            );
            let request = Ask {
                schema_version: PROTOCOL_VERSION,
                release: release.shown(),
                platform: Platform::Linux,
                expected_sri: crate::digest::sri_text(crate::digest::sha256(contents)),
            };
            reply_to(request, Some((archive, record)), true) == ready_reply(archive, record)
        }),
{
    lemma_proper_request_is_taken(release, crate::digest::sha256(contents));
}

/// A request is taken exactly where it speaks the first version of the protocol,
/// asks for the Linux archive of a release, and declares a SHA-256 SRI text.
pub proof fn lemma_accepted_requests(request: Ask)
    ensures
        request_fault(request) is None <==> {
            &&& request.schema_version == 1
            &&& request.platform is Linux
            &&& crate::release::release_of(request.release) is Some
            &&& "sha256-"@.is_prefix_of(request.expected_sri)
        },
        request.schema_version != 1 ==> request_fault(request) == Some(
            "unsupported acquisition protocol version"@,
        ),
        request.schema_version == 1 && request.platform is Node ==> request_fault(request) == Some(
            "only the Linux Foundry archive is licensed by this service"@,
        ),
        request.schema_version == 1 && request.platform is Linux && crate::release::release_of(
            request.release,
        ) is None ==> request_fault(request) == Some("invalid Foundry release identifier"@),
{
}

/// A valid request whose archive was acquired with the declared hash and
/// published is answered with the path, the release and the hash, and nothing
/// else is.
pub proof fn lemma_ready_replies(
    request: Ask,
    archive: Seq<char>,
    record: Record,
    published: bool,
)
    requires
        request_fault(request) is None,
    ensures
        record.nix_sri == request.expected_sri && published ==> reply_to(
            request,
            Some((archive, record)),
            published,
        ) == (Reply {
            schema_version: 1,
            status: "ready"@,
            path: Some(archive),
            release: Some(record.release.shown()),
            nix_sri: Some(record.nix_sri),
            error: None,
        }),
        record.nix_sri != request.expected_sri ==> reply_to(
            request,
            Some((archive, record)),
            published,
        ) == (Reply {
            schema_version: 1,
            status: "error"@,
            path: None,
            release: None,
            nix_sri: None,
            error: Some("cached archive hash does not match the declared Nix hash"@),
        }),
        record.nix_sri == request.expected_sri && !published ==> reply_to(
            request,
            Some((archive, record)),
            published,
        ) == (Reply {
            schema_version: 1,
            status: "error"@,
            path: None,
            release: None,
            nix_sri: None,
            error: Some("cannot publish the validated archive to the Nix build group"@),
        }),
        reply_to(request, None, published) == (Reply {
            schema_version: 1,
            status: "error"@,
            path: None,
            release: None,
            nix_sri: None,
            error: Some("licensed Foundry archive acquisition failed"@),
        }),
{
}

/// A request that is refused is answered with the reason and nothing else.
pub proof fn lemma_refusals(
    request: Ask,
    acquired: Option<(Seq<char>, Record)>,
    published: bool,
)
    requires
        request_fault(request) is Some,
    ensures
        reply_to(request, acquired, published) == (Reply {
            schema_version: 1,
            status: "error"@,
            path: None,
            release: None,
            nix_sri: None,
            error: request_fault(request),
        }),
{
}

/// An archive comes from the cache or from the account, and is the one that was
/// set aside while it is published; nothing else brings one.
pub proof fn lemma_what_brings_an_archive(
    artifact: Artifact,
    error: FetchError,
    state: ServeState,
    published: bool,
)
    ensures
        brings(state, ServeEvent::CacheAnswered(Ok(Some(artifact)))) == Some(
            (artifact.archive@, artifact.provenance@),
        ),
        brings(state, ServeEvent::Acquired(Ok(artifact))) == Some(
            (artifact.archive@, artifact.provenance@),
        ),
        brings(ServeState::Publish(artifact), ServeEvent::Published(published)) == Some(
            (artifact.archive@, artifact.provenance@),
        ),
        brings(state, ServeEvent::Requested) is None,
        brings(state, ServeEvent::CacheAnswered(Ok(None))) is None,
        brings(state, ServeEvent::CacheAnswered(Err(error))) is None,
        brings(state, ServeEvent::Acquired(Err(error))) is None,
{
}

/// An answer is framed as a line where it is shorter than sixteen kibibytes, and
/// is not sent otherwise.
pub proof fn lemma_framed_answers(encoded: Vec<u8>, r: Option<Vec<u8>>)
    requires
        call_ensures(frame_response, (encoded,), r),
    ensures
        encoded@.len() < 16_384 ==> (r matches Some(line) && line@.last() == 10
            && line@.drop_last() == encoded@),
        encoded@.len() >= 16_384 ==> r is None,
{
}

/// The account is used only where the cache has nothing: what is there is taken,
/// and what is refused is not acquired anew.
pub proof fn lemma_cache_comes_first(cached: Result<Option<Artifact>, FetchError>, r: AfterCache)
    requires
        call_ensures(after_cache, (cached,), r),
    ensures
        r is Acquire <==> (cached matches Ok(None)),
        r is Refuse <==> cached is Err,
        cached matches Ok(Some(artifact)) ==> r == AfterCache::Have(artifact),
{
}

/// Only an archive with the hash that the request declares is published.
pub proof fn lemma_only_the_declared_archive_is_published(
    request: &AcquireRequest,
    acquired: Result<Artifact, FetchError>,
    r: Result<Artifact, AcquireResponse>,
)
    requires
        request_fault(request@) is None,
        call_ensures(judge, (request, acquired), r),
    ensures
        r is Ok <==> (acquired matches Ok(artifact) && artifact.provenance.nix_sri@
            == request.expected_sri@),
        r matches Ok(artifact) ==> acquired == Ok::<Artifact, FetchError>(artifact),
        r matches Err(response) ==> response.status@ == "error"@ && response.path is None,
{
}

/// What is handed out was published: the path and the hash of the archive come
/// with `ready`, and nothing of it with an error.
pub proof fn lemma_only_the_published_is_handed_out(
    request: &AcquireRequest,
    artifact: &Artifact,
    published: bool,
    r: AcquireResponse,
)
    requires
        request_fault(request@) is None,
        artifact.provenance@.nix_sri == request@.expected_sri,
        call_ensures(publish, (request, artifact, published), r),
    ensures
        published ==> r.status@ == "ready"@ && crate::text::text_of(r.path) == Some(
            artifact.archive@,
        ) && crate::text::text_of(r.nix_sri) == Some(artifact.provenance.nix_sri@) && r.error is None,
        !published ==> r.status@ == "error"@ && r.path is None && r.nix_sri is None && r.error is Some,
{
    assert(r@.path == crate::text::text_of(r.path));
    assert(r@.nix_sri == crate::text::text_of(r.nix_sri));
    assert(r@.error == crate::text::text_of(r.error));
}

/// The service asks the cache first, turns to the account only where the cache
/// has nothing, publishes what either brings with the declared hash, and answers
/// once it was published or could not be.
pub proof fn lemma_serving(
    request: &AcquireRequest,
    state: ServeState,
    event: ServeEvent,
    r: (ServeState, ServeAction),
)
    requires
        serves(request@, state, event),
        call_ensures(serve, (request, state, event), r),
    ensures
        event is Requested ==> (r.1 is AskCache <==> request_fault(request@) is None) && (
        r.1 is Reply <==> request_fault(request@) is Some),
        r.1 is Acquire <==> (event matches ServeEvent::CacheAnswered(Ok(None))),
        (event matches ServeEvent::CacheAnswered(Ok(Some(artifact)))
            && artifact.provenance.nix_sri@ == request.expected_sri@) ==> r.1 is Publish,
        (event matches ServeEvent::Acquired(Ok(artifact)) && artifact.provenance.nix_sri@
            == request.expected_sri@) ==> r.1 is Publish,
        (event matches ServeEvent::CacheAnswered(Err(_))) ==> r.1 is Reply,
        (event matches ServeEvent::Acquired(Err(_))) ==> r.1 is Reply,
        event is Published ==> r.1 is Reply,
        (event matches ServeEvent::Published(published) && r.1 matches ServeAction::Reply(response)
            && (published <==> response.status@ == "ready"@)) || !(event is Published),
{
    reveal_strlit("ready");
    reveal_strlit("error");
    assert("ready"@[0] == 'r' && "error"@[0] == 'e');
}

}
