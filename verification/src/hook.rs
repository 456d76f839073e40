//! The build hook: what it reads from a derivation, and what it makes of the
//! answer of the acquisition service.
use vstd::prelude::*;

use crate::daemon::PROTOCOL_VERSION;
use crate::json::{first_key, json_error, json_node, JsonNode, Node};
use crate::paths::{absolute, has_parent};
use crate::text::{chars_of, same_text};

verus! {

/// How long the description of a derivation may be.
pub const MAX_DERIVATION_BYTES: usize = 2_097_152;

#[derive(Debug)]
pub enum HookError {
    /// The description of the derivation is no JSON, for this reason.
    Metadata(String),
    NoDerivations,
    NoEnvironment,
    NoRelease,
    NoHash,
    AcquisitionFailed(String),
    NoCachePath,
    UnsafeCachePath,
}

/// The content of a `HookError`.
pub ghost enum HookFault {
    Metadata(Seq<char>),
    NoDerivations,
    NoEnvironment,
    NoRelease,
    NoHash,
    AcquisitionFailed(Seq<char>),
    NoCachePath,
    UnsafeCachePath,
}

impl View for HookError {
    type V = HookFault;

    open spec fn view(&self) -> HookFault {
        match self {
            HookError::Metadata(text) => HookFault::Metadata(text@),
            HookError::NoDerivations => HookFault::NoDerivations,
            HookError::NoEnvironment => HookFault::NoEnvironment,
            HookError::NoRelease => HookFault::NoRelease,
            HookError::NoHash => HookFault::NoHash,
            HookError::AcquisitionFailed(text) => HookFault::AcquisitionFailed(text@),
            HookError::NoCachePath => HookFault::NoCachePath,
            HookError::UnsafeCachePath => HookFault::UnsafeCachePath,
        }
    }
}

/// What is shown of a fault.
pub open spec fn hook_fault_text(fault: HookFault) -> Seq<char> {
    match fault {
        HookFault::Metadata(_) => "parse derivation metadata"@,
        HookFault::NoDerivations => "derivation metadata has no derivations"@,
        HookFault::NoEnvironment => "derivation metadata has no environment"@,
        HookFault::NoRelease => "licensed Foundry derivation has no release marker"@,
        HookFault::NoHash => "licensed Foundry derivation has no hash marker"@,
        HookFault::AcquisitionFailed(text) => "licensed Foundry acquisition failed: "@ + text,
        HookFault::NoCachePath => "acquisition response did not include a cache path"@,
        HookFault::UnsafeCachePath => "acquisition response returned an unsafe cache path"@,
    }
}

impl HookError {
    /// The text that is shown of the error.
    pub fn message(&self) -> (r: String)
        ensures
            r@ == hook_fault_text(self@),
    {
        match self {
            HookError::Metadata(_) => "parse derivation metadata".to_owned(),
            HookError::NoDerivations => "derivation metadata has no derivations".to_owned(),
            HookError::NoEnvironment => "derivation metadata has no environment".to_owned(),
            HookError::NoRelease => "licensed Foundry derivation has no release marker".to_owned(),
            HookError::NoHash => "licensed Foundry derivation has no hash marker".to_owned(),
            HookError::AcquisitionFailed(text) => {
                let mut out = "licensed Foundry acquisition failed: ".to_owned();
                out.append(text.as_str());
                out
            },
            HookError::NoCachePath => "acquisition response did not include a cache path".to_owned(),
            HookError::UnsafeCachePath => "acquisition response returned an unsafe cache path".to_owned(),
        }
    }
}

/// The text at a place in the environment of a derivation.
pub open spec fn node_text(node: Node) -> Option<Seq<char>> {
    match node {
        Node::Text(text) => Some(text),
        _ => None,
    }
}

/// What the environment of a derivation says of a licensed source: nothing
/// where it is not marked as one, and otherwise the release and the hash, both
/// of which it has to give.
pub open spec fn markers(licensed: Node, release: Node, sri: Node) -> Result<
    Option<(Seq<char>, Seq<char>)>,
    HookFault,
> {
    if node_text(licensed) != Some("1"@) {
        Ok(None)
    } else {
        match (node_text(release), node_text(sri)) {
            (None, _) => Err(HookFault::NoRelease),
            (Some(_), None) => Err(HookFault::NoHash),
            (Some(release), Some(sri)) => Ok(Some((release, sri))),
        }
    }
}

/// The content of markers.
pub open spec fn marker_texts(r: Result<Option<(String, String)>, HookError>) -> Result<
    Option<(Seq<char>, Seq<char>)>,
    HookFault,
> {
    match r {
        Ok(Some((release, sri))) => Ok(Some((release@, sri@))),
        Ok(None) => Ok(None),
        Err(e) => Err(e@),
    }
}

/// Reads the markers of a licensed source from what stands in the environment
/// of a derivation.
pub fn read_markers(licensed: JsonNode, release: JsonNode, sri: JsonNode) -> (r: Result<
    Option<(String, String)>,
    HookError,
>)
    ensures
        marker_texts(r) == markers(licensed@, release@, sri@),
{
    let marked = match &licensed {
        JsonNode::Text(text) => same_text(text.as_str(), "1"),
        _ => false,
    };
    if !marked {
        return Ok(None);
    }
    match (release, sri) {
        (JsonNode::Text(release), JsonNode::Text(sri)) => Ok(Some((release, sri))),
        (JsonNode::Text(_), _) => Err(HookError::NoHash),
        _ => Err(HookError::NoRelease),
    }
}

/// A character of a key as it stands in a JSON pointer.
pub open spec fn escaped_step(c: char) -> Seq<char> {
    if c == '~' {
        seq!['~', '0']
    } else if c == '/' {
        seq!['~', '1']
    } else {
        seq![c]
    }
}

/// A key as it stands in a JSON pointer.
pub open spec fn escaped(key: Seq<char>) -> Seq<char>
    decreases key.len(),
{
    if key.len() == 0 {
        seq![]
    } else {
        escaped_step(key[0]) + escaped(key.drop_first())
    }
}

/// The key that a step of a JSON pointer names.
pub open spec fn named(step: Seq<char>) -> Seq<char>
    decreases step.len(),
{
    if step.len() == 0 {
        seq![]
    } else if step.len() > 1 && step[0] == '~' && step[1] == '0' {
        seq!['~'] + named(step.skip(2))
    } else if step.len() > 1 && step[0] == '~' && step[1] == '1' {
        seq!['/'] + named(step.skip(2))
    } else {
        seq![step[0]] + named(step.drop_first())
    }
}

/// A key as it stands in a JSON pointer.
fn escape(key: &str) -> (r: String)
    ensures
        r@ == escaped(key@),
{
    let chars = chars_of(key);
    let mut out = String::new();
    let mut i: usize = 0;
    assert(chars@.skip(0) == chars@);
    assert(out@ + escaped(chars@) == escaped(chars@));
    while i < chars.len()
        invariant
            i <= chars.len(),
            chars@ == key@,
            out@ + escaped(chars@.skip(i as int)) == escaped(key@),
        decreases chars.len() - i,
    {
        let c = chars[i];
        let ghost before = out@;
        let ghost rest = escaped(chars@.skip(i + 1));
        assert(chars@.skip(i as int).drop_first() == chars@.skip(i + 1));
        if c == '~' {
            out.push('~');
            out.push('0');
        } else if c == '/' {
            out.push('~');
            out.push('1');
        } else {
            out.push(c);
        }
        assert(out@ == before + escaped_step(c));
        assert(out@ + rest == before + (escaped_step(c) + rest));
        i = i + 1;
    }
    assert(chars@.skip(i as int) == Seq::<char>::empty());
    assert(out@ + Seq::<char>::empty() == out@);
    out
}

/// An escaped key is one step of a pointer, and that step names the key.
pub proof fn lemma_escaped_key_is_named(key: Seq<char>)
    ensures
        named(escaped(key)) == key,
        !escaped(key).contains('/'),
    decreases key.len(),
{
    if key.len() > 0 {
        let c = key[0];
        let rest = escaped(key.drop_first());
        let step = escaped(key);
        lemma_escaped_key_is_named(key.drop_first());
        if step.contains('/') {
            let i = choose|i: int| 0 <= i < step.len() && step[i] == '/';
            if i >= escaped_step(c).len() {
                assert(rest.contains(rest[i - escaped_step(c).len()]));
            }
        }
        if c == '~' || c == '/' {
            assert(step.skip(2) == rest);
        } else {
            assert(step.drop_first() == rest);
        }
        assert(seq![c] + key.drop_first() == key);
    }
}

/// The pointer to the environment of the derivation with a key.
pub open spec fn environment(key: Seq<char>) -> Seq<char> {
    "/derivations/"@ + escaped(key) + "/env"@
}

/// The markers in the description of a derivation. The description that counts
/// is the first of those that the document holds.
pub open spec fn document_markers(document: Seq<u8>) -> Result<
    Option<(Seq<char>, Seq<char>)>,
    HookFault,
> {
    match crate::json::json_fault(document) {
        Some(text) => Err(HookFault::Metadata(text)),
        None => if crate::json::json_at(document, "/derivations"@) != Node::Object {
            Err(HookFault::NoDerivations)
        } else {
            match crate::json::json_first_key(document, "/derivations"@) {
                None => Err(HookFault::NoEnvironment),
                Some(key) => if crate::json::json_at(document, environment(key)) != Node::Object {
                    Err(HookFault::NoEnvironment)
                } else {
                    markers(
                        crate::json::json_at(
                            document,
                            environment(key) + "/FOUNDRY_LICENSED_SOURCE"@,
                        ),
                        crate::json::json_at(document, environment(key) + "/FOUNDRY_RELEASE"@),
                        crate::json::json_at(document, environment(key) + "/FOUNDRY_EXPECTED_SRI"@),
                    )
                },
            }
        },
    }
}

/// What stands at a place in the environment of a derivation.
fn environment_node(document: &[u8], env: &str, name: &str) -> (r: JsonNode)
    ensures
        r@ == crate::json::json_at(document@, env@ + name@),
{
    let mut pointer = env.to_owned();
    pointer.append(name);
    json_node(document, pointer.as_str())
}

fn is_object(node: &JsonNode) -> (r: bool)
    ensures
        r == (node@ == Node::Object),
{
    match node {
        JsonNode::Object => true,
        _ => false,
    }
}

/// Reads the markers of a licensed source from the description of a derivation.
/// `success` says whether there is one. Nothing is read from one that is too
/// long.
pub fn derivation_markers(success: bool, document: &[u8]) -> (r: Result<
    Option<(String, String)>,
    HookError,
>)
    ensures
        marker_texts(r) == if !success || document@.len() > MAX_DERIVATION_BYTES {
            Ok::<Option<(Seq<char>, Seq<char>)>, HookFault>(None)
        } else {
            document_markers(document@)
        },
        success && document@.len() <= 2_097_152 ==> marker_texts(r) == document_markers(document@),
        document@.len() > 2_097_152 ==> marker_texts(r) == Ok::<
            Option<(Seq<char>, Seq<char>)>,
            HookFault,
        >(None),
{
    if !success || document.len() > MAX_DERIVATION_BYTES {
        return Ok(None);
    }
    match json_error(document) {
        Some(text) => return Err(HookError::Metadata(text)),
        None => {},
    }
    if !is_object(&json_node(document, "/derivations")) {
        return Err(HookError::NoDerivations);
    }
    let key = match first_key(document, "/derivations") {
        Some(key) => key,
        None => return Err(HookError::NoEnvironment),
    };
    let mut env = "/derivations/".to_owned();
    env.append(escape(key.as_str()).as_str());
    env.append("/env");
    if !is_object(&json_node(document, env.as_str())) {
        return Err(HookError::NoEnvironment);
    }
    read_markers(
        environment_node(document, env.as_str(), "/FOUNDRY_LICENSED_SOURCE"),
        environment_node(document, env.as_str(), "/FOUNDRY_RELEASE"),
        environment_node(document, env.as_str(), "/FOUNDRY_EXPECTED_SRI"),
    )
}

/// The answer of the acquisition service, as the hook reads it.
#[derive(Debug)]
pub struct HookResponse {
    pub schema_version: u32,
    pub status: String,
    pub path: Option<String>,
    pub error: Option<String>,
}

/// What speaks against an answer.
pub open spec fn response_fault(
    schema_version: u32,
    status: Seq<char>,
    path: Option<Seq<char>>,
    error: Option<Seq<char>>,
) -> Option<HookFault> {
    if schema_version != PROTOCOL_VERSION || status != "ready"@ {
        Some(
            HookFault::AcquisitionFailed(
                match error {
                    Some(text) => text,
                    None => "unknown error"@,
                },
            ),
        )
    } else if path is None {
        Some(HookFault::NoCachePath)
    } else {
        None
    }
}

/// The path in an answer.
pub fn response_path(response: HookResponse) -> (r: Result<String, HookError>)
    ensures
        ({
            let fault = response_fault(
                response.schema_version,
                response.status@,
                crate::text::text_of(response.path),
                crate::text::text_of(response.error),
            );
            match r {
                Ok(path) => fault is None && response.path == Some(path),
                Err(e) => fault == Some(e@),
            }
        }),
{
    if response.schema_version != PROTOCOL_VERSION || !same_text(
        response.status.as_str(),
        "ready",
    ) {
        return Err(
            HookError::AcquisitionFailed(
                match response.error {
                    Some(text) => text,
                    None => "unknown error".to_owned(),
                },
            ),
        );
    }
    match response.path {
        Some(path) => Ok(path),
        None => Err(HookError::NoCachePath),
    }
}

/// Checks the path in an answer: it is absolute, it leads nowhere up, and a
/// regular file stands there, as `regular` says.
pub fn validate_cache_path(path: &str, regular: bool) -> (r: Result<(), HookError>)
    ensures
        match r {
            Ok(()) => crate::paths::is_absolute(path@) && !crate::paths::has_parent_step(path@)
                && regular,
            Err(e) => {
                &&& !crate::paths::is_absolute(path@) || crate::paths::has_parent_step(path@)
                    || !regular
                &&& e@ == HookFault::UnsafeCachePath
            },
        },
{
    let chars = chars_of(path);
    if !absolute(path) || has_parent(chars.as_slice()) || !regular {
        Err(HookError::UnsafeCachePath)
    } else {
        Ok(())
    }
}

/// What the hook prints: the mapping that lets the build see the archive.
pub fn sandbox_paths(path: &str) -> (r: String)
    ensures
        r@ == "extra-sandbox-paths\n/build/foundryvtt-licensed-source="@ + path@ + "\n\n"@,
{
    let mut out = "extra-sandbox-paths\n/build/foundryvtt-licensed-source=".to_owned();
    out.append(path);
    out.append("\n\n");
    out
}

/// The hook takes the path from every answer that hands out an archive, and
/// reports the message of every other.
pub proof fn lemma_hook_understands_the_service(
    request: crate::daemon::Ask,
    acquired: Option<(Seq<char>, crate::cache::Record)>,
    published: bool,
)
    ensures
        ({
            let reply = crate::daemon::reply_to(request, acquired, published);
            let fault = response_fault(reply.schema_version, reply.status, reply.path, reply.error);
            if reply.status == "ready"@ {
                fault is None && reply.path is Some
            } else {
                reply.error is Some && fault == Some(
                    HookFault::AcquisitionFailed(reply.error->Some_0),
                )
            }
        }),
{
    reveal_strlit("ready");
    reveal_strlit("error");
    assert("ready"@[0] == 'r' && "error"@[0] == 'e');
}

/// Only a source that is marked with the text `1` is licensed, and then both its
/// release and its hash are read; one that is missing is named.
pub proof fn lemma_licensed_sources(licensed: Node, release: Node, sri: Node)
    ensures
        licensed != Node::Text("1"@) ==> markers(licensed, release, sri) == Ok::<
            Option<(Seq<char>, Seq<char>)>,
            HookFault,
        >(None),
        licensed == Node::Text("1"@) && release is Text && sri is Text ==> markers(
            licensed,
            release,
            sri,
        ) == Ok::<Option<(Seq<char>, Seq<char>)>, HookFault>(
            Some((release->Text_0, sri->Text_0)),
        ),
        licensed == Node::Text("1"@) && !(release is Text) ==> markers(licensed, release, sri)
            == Err::<Option<(Seq<char>, Seq<char>)>, HookFault>(HookFault::NoRelease),
        licensed == Node::Text("1"@) && release is Text && !(sri is Text) ==> markers(
            licensed,
            release,
            sri,
        ) == Err::<Option<(Seq<char>, Seq<char>)>, HookFault>(HookFault::NoHash),
{
}

/// A key without `~` and `/` stands in a pointer as it is.
pub proof fn lemma_plain_key(key: Seq<char>)
    requires
        !key.contains('~'),
        !key.contains('/'),
    ensures
        escaped(key) == key,
    decreases key.len(),
{
    if key.len() > 0 {
        let rest = key.drop_first();
        assert(key.contains(key[0]));
        assert forall|c: char| rest.contains(c) implies key.contains(c) by {
            let i = choose|i: int| 0 <= i < rest.len() && rest[i] == c;
            assert(key[i + 1] == c);
        }
        lemma_plain_key(rest);
        assert(seq![key[0]] + rest == key);
    }
}

/// The markers of a derivation stand in the environment of the first derivation
/// of the document, under their names.
pub proof fn lemma_where_markers_stand(
    document: Seq<u8>,
    key: Seq<char>,
    release: Seq<char>,
    sri: Seq<char>,
)
    requires
        crate::json::json_fault(document) is None,
        crate::json::json_at(document, "/derivations"@) is Object,
        crate::json::json_first_key(document, "/derivations"@) == Some(key),
        crate::json::json_at(document, "/derivations/"@ + escaped(key) + "/env"@) is Object,
    ensures
        ({
            let env = "/derivations/"@ + escaped(key) + "/env"@;
            &&& crate::json::json_at(document, env + "/FOUNDRY_LICENSED_SOURCE"@) == Node::Text(
                "1"@,
            ) && crate::json::json_at(document, env + "/FOUNDRY_RELEASE"@) == Node::Text(release)
                && crate::json::json_at(document, env + "/FOUNDRY_EXPECTED_SRI"@) == Node::Text(sri)
                ==> document_markers(document) == Ok::<
                Option<(Seq<char>, Seq<char>)>,
                HookFault,
            >(Some((release, sri)))
            &&& crate::json::json_at(document, env + "/FOUNDRY_LICENSED_SOURCE"@) != Node::Text(
                "1"@,
            ) ==> document_markers(document) == Ok::<Option<(Seq<char>, Seq<char>)>, HookFault>(
                None,
            )
        }),
{
}

/// What is no JSON, holds no derivations or gives no environment is refused.
pub proof fn lemma_refused_documents(document: Seq<u8>)
    ensures
        crate::json::json_fault(document) is Some ==> document_markers(document) == Err::<
            Option<(Seq<char>, Seq<char>)>,
            HookFault,
        >(HookFault::Metadata(crate::json::json_fault(document)->0)),
        crate::json::json_fault(document) is None && !(crate::json::json_at(
            document,
            "/derivations"@,
        ) is Object) ==> document_markers(document) == Err::<
            Option<(Seq<char>, Seq<char>)>,
            HookFault,
        >(HookFault::NoDerivations),
        crate::json::json_fault(document) is None && crate::json::json_at(
            document,
            "/derivations"@,
        ) is Object && crate::json::json_first_key(document, "/derivations"@) is None
            ==> document_markers(document) == Err::<Option<(Seq<char>, Seq<char>)>, HookFault>(
            HookFault::NoEnvironment,
        ),
{
}

/// An answer is accepted exactly where it speaks the first version of the
/// protocol, says `ready` and gives a path; the error of any other is reported.
pub proof fn lemma_accepted_answers(
    schema_version: u32,
    status: Seq<char>,
    path: Option<Seq<char>>,
    error: Option<Seq<char>>,
)
    ensures
        response_fault(schema_version, status, path, error) is None <==> schema_version == 1
            && status == "ready"@ && path is Some,
        schema_version == 1 && status == "ready"@ && path is None ==> response_fault(
            schema_version,
            status,
            path,
            error,
        ) == Some(HookFault::NoCachePath),
        (schema_version != 1 || status != "ready"@) && error is Some ==> response_fault(
            schema_version,
            status,
            path,
            error,
        ) == Some(HookFault::AcquisitionFailed(error->0)),
        (schema_version != 1 || status != "ready"@) && error is None ==> response_fault(
            schema_version,
            status,
            path,
            error,
        ) == Some(HookFault::AcquisitionFailed("unknown error"@)),
{
}

/// A path is handed to the build exactly where it is absolute, has no `..`
/// between its slashes, and a regular file stands there.
pub proof fn lemma_validated_cache_paths(
    path: &str,
    parts: Seq<Seq<char>>,
    regular: bool,
    r: Result<(), HookError>,
)
    requires
        parts.len() > 0,
        forall|i: int| 0 <= i < parts.len() ==> !(#[trigger] parts[i]).contains('/'),
        path@ == crate::text::joined_with(parts, '/'),
        call_ensures(validate_cache_path, (path, regular), r),
    ensures
        r is Ok <==> path@.len() > 0 && path@[0] == '/' && !parts.contains(".."@) && regular,
        r matches Err(e) ==> e@ == HookFault::UnsafeCachePath,
{
    crate::paths::lemma_parent_steps(parts);
}

/// What is printed maps the place in the build to the path, and to no other.
pub proof fn lemma_printed_mappings(a: &str, b: &str, x: String, y: String)
    requires
        call_ensures(sandbox_paths, (a,), x),
        call_ensures(sandbox_paths, (b,), y),
    ensures
        x@ == y@ <==> a@ == b@,
        ("extra-sandbox-paths\n/build/foundryvtt-licensed-source="@ + a@).is_prefix_of(x@),
{
    let start = "extra-sandbox-paths\n/build/foundryvtt-licensed-source="@;
    let end = "\n\n"@;
    assert(x@.take((start + a@).len() as int) == start + a@);
    if x@ == y@ {
        assert(x@.len() == start.len() + a@.len() + end.len());
        assert(y@.len() == start.len() + b@.len() + end.len());
        assert(x@.subrange(start.len() as int, (start.len() + a@.len()) as int) == a@);
        assert(y@.subrange(start.len() as int, (start.len() + b@.len()) as int) == b@);
    }
}

}
