//! The acquisition service, the build hook, and the texts that they work on.
use foundry_circle::cache::{Artifact, Provenance};
use foundry_circle::daemon::{
    after_cache, check_request, frame_response, judge, publish, serve, unreadable_request,
    AcquireRequest, AcquireResponse, AfterCache, ServeAction, ServeEvent, ServeState,
    MAX_RESPONSE_BYTES,
};
use foundry_circle::error::FetchError;
use foundry_circle::hook::{
    derivation_markers, read_markers, response_path, sandbox_paths, validate_cache_path,
    HookError, HookResponse, MAX_DERIVATION_BYTES,
};
use foundry_circle::json::JsonNode;
use foundry_circle::paths::{absolute, join, safe_zip_path, same_path};
use foundry_circle::release::{Platform, ReleaseId, SourceKind};
use foundry_circle::text::{
    chars_of, contains, decimal_text, parse_unsigned, same_but_case, trim_text, trim_text_end, white,
};

fn request() -> AcquireRequest {
    AcquireRequest {
        schema_version: 1,
        release: "13.351".into(),
        platform: Platform::Linux,
        expected_sri: "sha256-abc=".into(),
    }
}

fn artifact(sri: &str) -> Artifact {
    Artifact {
        archive: "/var/lib/foundry/FoundryVTT-Linux-13.351.zip".into(),
        provenance: Provenance {
            release: ReleaseId { major: 13, build: 351 },
            platform: Platform::Linux,
            source: SourceKind::LicensedAccount,
            sha256: "00".into(),
            nix_sri: sri.into(),
            size: 1,
            acquired_at: "then".into(),
            acquired_at_unix: 1,
        },
    }
}

fn message(response: &AcquireResponse) -> &str {
    assert_eq!(response.schema_version, 1);
    assert_eq!(response.status, "error");
    assert!(response.path.is_none() && response.release.is_none() && response.nix_sri.is_none());
    response.error.as_deref().unwrap()
}

#[test]
fn requests_are_checked() {
    assert_eq!(
        check_request(&request()).unwrap(),
        ReleaseId { major: 13, build: 351 }
    );
    let refused = |request: AcquireRequest| {
        let response = check_request(&request).unwrap_err();
        message(&response).to_string()
    };
    let mut bad = request();
    bad.schema_version = 2;
    assert_eq!(refused(bad), "unsupported acquisition protocol version");
    let mut bad = request();
    bad.platform = Platform::Node;
    assert_eq!(
        refused(bad),
        "only the Linux Foundry archive is licensed by this service"
    );
    let mut bad = request();
    bad.release = "latest".into();
    assert_eq!(refused(bad), "invalid Foundry release identifier");
    for sri in ["", "sha512-abc="] {
        let mut bad = request();
        bad.expected_sri = sri.into();
        assert_eq!(refused(bad), "expected_sri must be a sha256 SRI digest");
    }
    assert_eq!(
        message(&unreadable_request("EOF at line 1")),
        "invalid request: EOF at line 1"
    );
}

#[test]
fn archive_is_handed_out_only_with_the_declared_hash() {
    let request = request();
    let (state, action) = serve(&request, ServeState::Start, ServeEvent::Requested);
    assert!(matches!(
        action,
        ServeAction::AskCache(ReleaseId { major: 13, build: 351 })
    ));
    let (state, action) = serve(&request, state, ServeEvent::CacheAnswered(Ok(None)));
    assert!(matches!(action, ServeAction::Acquire));
    let (state, action) = serve(&request, state, ServeEvent::Acquired(Ok(artifact("sha256-abc="))));
    assert!(matches!(action, ServeAction::Publish));
    let (state, action) = serve(&request, state, ServeEvent::Published(true));
    assert!(matches!(state, ServeState::Done));
    match action {
        ServeAction::Reply(response) => {
            assert_eq!(response.status, "ready");
            assert_eq!(
                response.path.as_deref(),
                Some("/var/lib/foundry/FoundryVTT-Linux-13.351.zip")
            );
            assert_eq!(response.release.as_deref(), Some("13.351"));
            assert_eq!(response.nix_sri.as_deref(), Some("sha256-abc="));
            assert!(response.error.is_none());
        }
        other => panic!("unexpected {other:?}"),
    }
    let (_, action) = serve(
        &request,
        ServeState::Cache,
        ServeEvent::CacheAnswered(Ok(Some(artifact("sha256-other=")))),
    );
    assert!(matches!(
        action,
        ServeAction::Reply(response) if message(&response)
            == "cached archive hash does not match the declared Nix hash"
    ));
    let (_, action) = serve(
        &request,
        ServeState::Cache,
        ServeEvent::CacheAnswered(Err(FetchError::NoAcquisitionSource)),
    );
    assert!(matches!(
        action,
        ServeAction::Reply(response) if message(&response)
            == "licensed Foundry archive acquisition failed"
    ));
    let (_, action) = serve(
        &request,
        ServeState::Publish(artifact("sha256-abc=")),
        ServeEvent::Published(false),
    );
    assert!(matches!(
        action,
        ServeAction::Reply(response) if message(&response)
            == "cannot publish the validated archive to the Nix build group"
    ));
}

#[test]
fn answers_follow_from_what_was_acquired() {
    assert!(matches!(after_cache(Ok(None)), AfterCache::Acquire));
    assert!(matches!(after_cache(Ok(Some(artifact("x")))), AfterCache::Have(_)));
    assert!(matches!(
        after_cache(Err(FetchError::NoAcquisitionSource)),
        AfterCache::Refuse(FetchError::NoAcquisitionSource)
    ));
    let good = judge(&request(), Ok(artifact("sha256-abc="))).unwrap();
    assert_eq!(publish(&request(), &good, true).status, "ready");
    assert!(judge(&request(), Ok(artifact("sha256-x="))).is_err());
}

#[test]
fn answers_are_lines_of_limited_length() {
    assert_eq!(frame_response(b"{}".to_vec()).unwrap(), b"{}\n");
    assert!(frame_response(vec![b'x'; MAX_RESPONSE_BYTES - 1]).is_some());
    assert!(frame_response(vec![b'x'; MAX_RESPONSE_BYTES]).is_none());
}

#[test]
fn cache_path_must_be_absolute_and_regular() {
    assert!(validate_cache_path("relative.zip", false).is_err());
    assert!(validate_cache_path("/var/lib/foundry/../archive.zip", false).is_err());
    assert!(validate_cache_path("relative.zip", true).is_err());
    assert!(validate_cache_path("/var/lib/foundry/../archive.zip", true).is_err());
    assert!(validate_cache_path("/var/lib/foundry/archive.zip", false).is_err());
}

#[test]
fn cache_path_accepts_a_regular_absolute_file() {
    assert!(validate_cache_path("/tmp/directory/archive.zip", true).is_ok());
    assert!(validate_cache_path("/tmp/..archive.zip", true).is_ok());
}

fn markers(document: &str) -> Result<Option<(String, String)>, HookError> {
    derivation_markers(true, document.as_bytes())
}

#[test]
fn markers_are_read_from_the_derivation() {
    let licensed = r#"{"derivations": {"/nix/store/a~b.drv": {"env": {
        "FOUNDRY_LICENSED_SOURCE": "1", "FOUNDRY_RELEASE": "13.351",
        "FOUNDRY_EXPECTED_SRI": "sha256-abc="}}}}"#;
    assert_eq!(
        markers(licensed).unwrap(),
        Some(("13.351".into(), "sha256-abc=".into()))
    );
    assert_eq!(derivation_markers(false, licensed.as_bytes()).unwrap(), None);
    let mut long = licensed.as_bytes().to_vec();
    long.resize(MAX_DERIVATION_BYTES + 1, b' ');
    assert_eq!(derivation_markers(true, &long).unwrap(), None);
    let ordinary = r#"{"derivations": {"x": {"env": {"FOUNDRY_LICENSED_SOURCE": "0"}}}}"#;
    assert_eq!(markers(ordinary).unwrap(), None);
    let two = r#"{"derivations": {"b": {"env": {}}, "a": {"env": {
        "FOUNDRY_LICENSED_SOURCE": "1", "FOUNDRY_RELEASE": "1.2", "FOUNDRY_EXPECTED_SRI": "s"}}}}"#;
    assert_eq!(markers(two).unwrap(), Some(("1.2".into(), "s".into())));
}

#[test]
fn markers_that_are_missing_are_named() {
    let text = |document: &str| markers(document).unwrap_err().message();
    assert_eq!(text("{"), "parse derivation metadata");
    assert_eq!(text("{}"), "derivation metadata has no derivations");
    assert_eq!(text(r#"{"derivations": []}"#), "derivation metadata has no derivations");
    assert_eq!(text(r#"{"derivations": {}}"#), "derivation metadata has no environment");
    assert_eq!(
        text(r#"{"derivations": {"x": {"env": 1}}}"#),
        "derivation metadata has no environment"
    );
    assert_eq!(
        text(r#"{"derivations": {"x": {"env": {"FOUNDRY_LICENSED_SOURCE": "1"}}}}"#),
        "licensed Foundry derivation has no release marker"
    );
    let release = r#"{"derivations": {"x": {"env": {
        "FOUNDRY_LICENSED_SOURCE": "1", "FOUNDRY_RELEASE": "13.351"}}}}"#;
    assert_eq!(text(release), "licensed Foundry derivation has no hash marker");
    let one = || JsonNode::Text("1".into());
    assert!(matches!(
        read_markers(one(), JsonNode::Missing, JsonNode::Missing),
        Err(HookError::NoRelease)
    ));
    assert!(matches!(read_markers(one(), one(), JsonNode::Null), Err(HookError::NoHash)));
    assert!(matches!(read_markers(JsonNode::Bool(true), one(), one()), Ok(None)));
}

#[test]
fn hook_takes_the_path_of_a_ready_answer() {
    let response = |status: &str, path: Option<&str>, error: Option<&str>| HookResponse {
        schema_version: 1,
        status: status.into(),
        path: path.map(str::to_owned),
        error: error.map(str::to_owned),
    };
    assert_eq!(response_path(response("ready", Some("/x"), None)).unwrap(), "/x");
    let text = |response: HookResponse| response_path(response).unwrap_err().message();
    assert_eq!(
        text(response("ready", None, None)),
        "acquisition response did not include a cache path"
    );
    assert_eq!(
        text(response("error", Some("/x"), Some("no"))),
        "licensed Foundry acquisition failed: no"
    );
    assert_eq!(
        text(response("error", None, None)),
        "licensed Foundry acquisition failed: unknown error"
    );
    let mut old = response("ready", Some("/x"), None);
    old.schema_version = 0;
    assert!(response_path(old).is_err());
    assert_eq!(
        HookError::UnsafeCachePath.message(),
        "acquisition response returned an unsafe cache path"
    );
    assert_eq!(
        sandbox_paths("/x.zip"),
        "extra-sandbox-paths\n/build/foundryvtt-licensed-source=/x.zip\n\n"
    );
}

#[test]
fn white_space_is_that_of_the_standard_library() {
    for c in '\0'..=char::MAX {
        assert_eq!(white(c), c.is_whitespace());
    }
    for text in ["", " a b ", "\u{85}x\u{3000}", "\u{200b}x ", " \t\n"] {
        assert_eq!(trim_text(text), text.trim());
        assert_eq!(trim_text_end(text), text.trim_end());
    }
}

#[test]
fn numbers_are_read_as_the_standard_library_reads_them() {
    for text in ["0", "+7", "-7", "", "+", "007", "4294967295", "4294967296", " 1", "1_0", "٣"] {
        let chars = chars_of(text);
        assert_eq!(
            parse_unsigned(&chars, u32::MAX as u64),
            text.parse::<u32>().ok().map(u64::from)
        );
    }
    assert_eq!(decimal_text(u64::MAX), u64::MAX.to_string());
    assert_eq!(decimal_text(0), "0");
    assert!(contains("login-welcome!", "login-welcome") && !contains("login", "login-welcome"));
    assert!(contains("", "") && !contains("", "x"));
    assert!(same_but_case(&chars_of("LocalHost"), &chars_of("localhost")));
    assert!(!same_but_case(&chars_of("É"), &chars_of("é")));
}

#[test]
fn paths_are_those_of_the_standard_library() {
    let paths = ["", "/", "a", "./a", "a/./b/", "a//b", "/a/b", "a/b", ".", "..", "/a/../b", "a/.b"];
    for a in paths {
        assert_eq!(absolute(a), std::path::Path::new(a).is_absolute());
        for b in paths {
            assert_eq!(
                same_path(a, b),
                std::path::Path::new(a) == std::path::Path::new(b),
                "{a:?} {b:?}"
            );
            assert_eq!(
                join(a, b),
                std::path::Path::new(a).join(b).to_str().unwrap(),
                "{a:?} {b:?}"
            );
        }
    }
    assert!(safe_zip_path("a/./b") && !safe_zip_path("a/../b") && !safe_zip_path("c:/b"));
    assert!(!safe_zip_path("") && !safe_zip_path("/a"));
}

#[test]
fn hook_understands_the_service() {
    let heard = |response: AcquireResponse| {
        response_path(HookResponse {
            schema_version: response.schema_version,
            status: response.status.into(),
            path: response.path,
            error: response.error,
        })
    };
    let good = artifact("sha256-abc=");
    let path = heard(publish(&request(), &good, true)).unwrap();
    assert_eq!(path, "/var/lib/foundry/FoundryVTT-Linux-13.351.zip");
    assert!(validate_cache_path(&path, true).is_ok());
    assert_eq!(
        heard(publish(&request(), &good, false)).unwrap_err().message(),
        "licensed Foundry acquisition failed: cannot publish the validated archive to the Nix build group"
    );
}
