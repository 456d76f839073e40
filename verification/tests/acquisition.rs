//! Releases, archives, the cache, the account flow, and how requests are made.
use std::io::Write;

use foundry_circle::account::{
    account_step, check_login, download_url, login_token, AccountAction, AccountEvent, AccountState,
};
use foundry_circle::archive::{
    check_entry, is_symlink, json_u32, read_package, validate_archive, ArchiveInput, EntryHeader,
};
use foundry_circle::cache::{
    acquire_archive, acquired_text, complete_provenance, Artifact, Cache, CacheEntry, Provenance,
    DEFAULT_MAX_BYTES,
};
use foundry_circle::clock::{Duration, RetryPolicy};
use foundry_circle::daemon::{check_request, judge, publish, AcquireRequest};
use foundry_circle::digest::{nix_sri_from_hex, sha256_hex};
use foundry_circle::error::FetchError;
use foundry_circle::fetch::{
    acquire_step, append_limited, check_status, checked_text, count_chunk, count_copied,
    finish_acquisition, next_source, retry_step, retryable_status, AccountCredentials,
    AcquireAction, AcquireEvent, AcquireMove, AcquireSources, AcquireStage, FetchOptions,
    RetryStep, SendOutcome, DEFAULT_MAX_RESPONSE_BYTES,
};
use foundry_circle::html::{extract_input, html_attribute};
use foundry_circle::json::JsonNode;
use foundry_circle::paths::safe_symlink_target;
use foundry_circle::release::{parse_platform, platform_name, Platform, ReleaseId, SourceKind};
use foundry_circle::web::{
    check_release_url, follow_download_redirect, follow_site_redirect, join_url, official_site,
    origin_matches, read_signed_url, release_endpoint, release_pairs, secure_or_loopback,
    validate_download_url, WebUrl,
};
use zip::write::SimpleFileOptions;

fn zip_of(entries: &[(&str, &[u8])]) -> Vec<u8> {
    let mut writer = zip::ZipWriter::new(std::io::Cursor::new(Vec::new()));
    for (name, content) in entries {
        writer.start_file(*name, SimpleFileOptions::default()).unwrap();
        writer.write_all(content).unwrap();
    }
    writer.finish().unwrap().into_inner()
}

fn archive(package: &str, platform: Platform) -> Vec<u8> {
    let prefix = if platform == Platform::Linux {
        "resources/app/"
    } else {
        ""
    };
    zip_of(&[
        (&format!("{prefix}package.json"), package.as_bytes()),
        (&format!("{prefix}index.js"), b"ok"),
    ])
}

fn modern_package(major: u16, build: u32) -> String {
    format!(
        "{{\"version\": \"{major}.0.0+{build}\", \"release\": {{\"generation\": {major}, \"build\": {build}}}}}"
    )
}

fn input(contents: Vec<u8>) -> ArchiveInput {
    ArchiveInput {
        path: "release.zip".into(),
        regular: true,
        len: contents.len() as u64,
        contents,
    }
}

fn release(major: u16, build: u32) -> ReleaseId {
    ReleaseId { major, build }
}

fn refusal(contents: Vec<u8>, wanted: ReleaseId) -> String {
    match validate_archive(&input(contents), &wanted, 1024 * 1024) {
        Err(FetchError::InvalidArchive(message)) => message,
        other => panic!("unexpected {other:?}"),
    }
}

#[test]
fn parses_release_names() {
    assert_eq!(
        ReleaseId::parse("FoundryVTT-Linux-13.351.zip").unwrap(),
        ReleaseId {
            major: 13,
            build: 351
        }
    );
    assert_eq!(
        ReleaseId::parse("13.351").unwrap().archive_name(),
        "FoundryVTT-Linux-13.351.zip"
    );
    assert_eq!(
        ReleaseId::parse("14.0.0+412").unwrap(),
        ReleaseId {
            major: 14,
            build: 412
        }
    );
    assert!(ReleaseId::parse("13").is_err());
}

#[test]
fn release_names_read_back() {
    for id in [release(13, 351), release(0, 0), release(u16::MAX, u32::MAX)] {
        assert_eq!(ReleaseId::parse(&id.display()).unwrap(), id);
        assert_eq!(ReleaseId::parse(&id.archive_name()).unwrap(), id);
        assert_eq!(ReleaseId::parse(&format!(" {}\n", id.display())).unwrap(), id);
    }
    assert_eq!(release(13, 351).display(), "13.351");
    assert!(ReleaseId::parse("65536.1").is_err());
    assert!(ReleaseId::parse("13.4294967296").is_err());
    let error = ReleaseId::parse("latest").unwrap_err();
    assert!(matches!(&error, FetchError::InvalidRelease(text) if text.contains("latest")));
}

#[test]
fn platforms_have_names() {
    assert_eq!(platform_name(Platform::Node), "node");
    assert_eq!(platform_name(Platform::Linux), "linux");
    assert_eq!(parse_platform("NoDe").unwrap(), Platform::Node);
    assert_eq!(
        parse_platform("linux").unwrap_err(),
        "unsupported platform \"linux\"; only node is supported"
    );
}

#[test]
fn validates_and_hashes_archive() {
    let contents = archive(&modern_package(13, 351), Platform::Linux);
    let len = contents.len() as u64;
    let result = validate_archive(
        &input(contents),
        &ReleaseId {
            major: 13,
            build: 351,
        },
        1024 * 1024,
    )
    .unwrap();
    assert_eq!(result.1, len);
    assert_eq!(result.0.len(), 64);
}

#[test]
fn validates_node_layout_and_rejects_modern_legacy_bypass() {
    let node = archive(&modern_package(14, 412), Platform::Node);
    validate_archive(
        &input(node),
        &ReleaseId {
            major: 14,
            build: 412,
        },
        1024 * 1024,
    )
    .unwrap();

    let conflict = archive(
        "{\"version\": \"13.0.0+351\", \"release\": {\"generation\": 14, \"build\": 412}}",
        Platform::Linux,
    );
    assert!(matches!(
        validate_archive(&input(conflict), &ReleaseId { major: 13, build: 351 }, 1024 * 1024),
        Err(FetchError::InvalidArchive(message)) if message.contains("does not match")
    ));

    let legacy_only = archive("{\"version\": \"13.0.0+351\"}", Platform::Linux);
    assert!(matches!(
        validate_archive(&input(legacy_only), &ReleaseId { major: 13, build: 351 }, 1024 * 1024),
        Err(FetchError::InvalidArchive(message)) if message.contains("modern Foundry")
    ));
}

#[test]
fn rejects_traversal() {
    let contents = zip_of(&[("../escape", b"bad")]);
    assert!(matches!(
        validate_archive(
            &input(contents),
            &ReleaseId {
                major: 13,
                build: 351
            },
            1024
        ),
        Err(FetchError::InvalidArchive(_))
    ));
}

#[test]
fn rejects_what_is_no_archive() {
    let wanted = release(13, 351);
    let mut link = input(archive(&modern_package(13, 351), Platform::Node));
    link.regular = false;
    assert!(matches!(
        validate_archive(&link, &wanted, 1024 * 1024),
        Err(FetchError::NotRegularFile(path)) if path == "release.zip"
    ));
    let good = input(archive(&modern_package(13, 351), Platform::Node));
    assert!(matches!(
        validate_archive(&good, &wanted, good.len - 1),
        Err(FetchError::TooLarge { limit }) if limit == good.len - 1
    ));
    assert!(validate_archive(&good, &wanted, good.len).is_ok());
    assert!(!refusal(b"not a zip".to_vec(), wanted).is_empty());
    assert!(!refusal(zip_of(&[("index.js", b"ok")]), wanted).is_empty());
    assert!(!refusal(archive("[", Platform::Node), wanted).is_empty());
    let twice = zip_of(&[
        ("package.json", modern_package(13, 351).as_bytes()),
        ("resources/app/package.json", modern_package(13, 352).as_bytes()),
    ]);
    assert!(!refusal(twice, wanted).is_empty());
    assert!(!refusal(archive(&modern_package(13, 352), Platform::Linux), wanted).is_empty());
}

#[test]
fn links_in_archives_stay_inside() {
    let wanted = release(13, 351);
    let package = modern_package(13, 351);
    let with_link = |target: &str| {
        let mut writer = zip::ZipWriter::new(std::io::Cursor::new(Vec::new()));
        writer.start_file("package.json", SimpleFileOptions::default()).unwrap();
        writer.write_all(package.as_bytes()).unwrap();
        writer
            .add_symlink("bin/tool", target, SimpleFileOptions::default())
            .unwrap();
        writer.finish().unwrap().into_inner()
    };
    assert!(validate_archive(&input(with_link("../lib/tool.js")), &wanted, 1024 * 1024).is_ok());
    assert!(!refusal(with_link("../../etc/shadow"), wanted).is_empty());
    assert!(!refusal(with_link("/etc/shadow"), wanted).is_empty());
    assert!(is_symlink(Some(0o120777)));
    assert!(!is_symlink(Some(0o100644)));
    assert!(!is_symlink(None));
}

#[test]
fn accepts_safe_symlink_targets_and_rejects_escape() {
    assert!(safe_symlink_target(
        "resources/app/node_modules/.bin/crc32",
        "../crc32/bin/crc32.js"
    ));
    assert!(!safe_symlink_target(
        "resources/app/node_modules/.bin/crc32",
        "../../../../../../etc/shadow"
    ));
    assert!(!safe_symlink_target(
        "resources/app/node_modules/.bin/crc32",
        "/etc/shadow"
    ));
}

#[test]
fn entries_are_counted_together() {
    let entry = EntryHeader {
        name: "index.js".into(),
        size: 10,
        unix_mode: None,
    };
    assert_eq!(check_entry(&entry, &None, 5, 15).unwrap(), 15);
    assert!(check_entry(&entry, &None, 6, 15).is_err());
    assert!(check_entry(&entry, &None, u64::MAX, u64::MAX).is_err());
}

#[test]
fn manifests_are_read_from_json() {
    let package = read_package(
        br#"{"version": "13.0.0+351", "release": {"generation": "13", "build": 351}}"#,
    )
    .unwrap();
    assert_eq!(package.version.as_deref(), Some("13.0.0+351"));
    assert!(matches!(read_package(b"{"), Err(FetchError::InvalidArchive(_))));
    assert_eq!(json_u32(&JsonNode::Number(Some(351))), Some(351));
    assert_eq!(json_u32(&JsonNode::Number(Some(4_294_967_296))), None);
    assert_eq!(json_u32(&JsonNode::Text("13".into())), Some(13));
    assert_eq!(json_u32(&JsonNode::Text("x".into())), None);
    assert_eq!(json_u32(&JsonNode::Null), None);
}

#[test]
fn digests_are_those_of_the_standards() {
    assert_eq!(
        sha256_hex(b"abc"),
        "ba7816bf8f01cfea414140de5dae2223b00361a396177a9cb410ff61f20015ad"
    );
    assert_eq!(
        nix_sri_from_hex("ba7816bf8f01cfea414140de5dae2223b00361a396177a9cb410ff61f20015ad").unwrap(),
        "sha256-ungWv48Bz+pBQUDeXa4iI7ADYaOWF3qctBD/YfIAFa0="
    );
    assert!(matches!(
        nix_sri_from_hex("xyz"),
        Err(FetchError::InvalidArchive(message)) if message == "invalid SHA-256 digest"
    ));
    assert!(matches!(
        nix_sri_from_hex("abcd"),
        Err(FetchError::InvalidArchive(message)) if message == "SHA-256 digest has the wrong length"
    ));
}

#[test]
fn cache_paths_are_named_after_the_release() {
    let cache = Cache::new("/var/cache".into());
    let id = release(13, 351);
    assert_eq!(cache.root(), "/var/cache");
    assert_eq!(cache.path_for(&id, Platform::Linux), "/var/cache/FoundryVTT-Linux-13.351.zip");
    assert_eq!(cache.path_for(&id, Platform::Node), "/var/cache/FoundryVTT-Node-13.351.zip");
    assert_eq!(
        cache.metadata_path(&id, Platform::Node),
        "/var/cache/foundryvtt-13.351-node.json"
    );
    assert_eq!(
        cache.metadata_path(&id, Platform::Linux),
        "/var/cache/foundryvtt-13.351-linux.json"
    );
}

fn put(cache: &Cache, contents: &[u8]) -> Artifact {
    cache
        .put(
            &release(13, 351),
            Platform::Node,
            SourceKind::PreAcquiredArchive,
            &input(contents.to_vec()),
            1024 * 1024,
            42,
        )
        .unwrap()
}

#[test]
fn exact_offline_cache_fallback_is_verified() {
    let source = archive(&modern_package(13, 351), Platform::Node);
    let cache = Cache::new("cache".into());
    let release = ReleaseId {
        major: 13,
        build: 351,
    };
    let stored = put(&cache, &source);
    let sources = AcquireSources {
        offline: true,
        ..AcquireSources::default()
    };
    assert!(matches!(
        next_source(&sources, AcquireStage::Start),
        AcquireAction::Cached
    ));
    let options = FetchOptions {
        platform: Platform::Node,
        ..FetchOptions::default()
    };
    let cached = cache.get_with_max(
        &release,
        options.platform,
        options.max_bytes,
        Some(CacheEntry {
            provenance: stored.provenance,
            archive: input(source),
        }),
    );
    let artifact = finish_acquisition(cached, None).unwrap();
    assert_eq!(artifact.provenance.acquired_at_unix, 42);
    assert!(
        cache
            .get(
                &ReleaseId {
                    major: 13,
                    build: 352
                },
                Platform::Node,
                None
            )
            .unwrap()
            .is_none()
    );
}

#[test]
fn provenance_records_what_was_put() {
    let source = archive(&modern_package(13, 351), Platform::Node);
    let cache = Cache::new("cache".into());
    let artifact = put(&cache, &source);
    assert_eq!(artifact.archive, "cache/FoundryVTT-Node-13.351.zip");
    assert_eq!(artifact.provenance.sha256, sha256_hex(&source));
    assert_eq!(
        artifact.provenance.nix_sri,
        nix_sri_from_hex(&sha256_hex(&source)).unwrap()
    );
    assert_eq!(artifact.provenance.size, source.len() as u64);
    assert_eq!(artifact.provenance.acquired_at, "1970-01-01T00:00:42Z");
    assert_eq!(artifact.provenance.source, SourceKind::PreAcquiredArchive);
    let same = acquire_archive(
        &cache,
        &release(13, 351),
        &input(source),
        Platform::Node,
        1024 * 1024,
        u64::MAX / 2,
    )
    .unwrap();
    assert_eq!(same.provenance.acquired_at, (u64::MAX / 2).to_string());
    assert_eq!(acquired_text(7, None), "7");
    assert_eq!(acquired_text(7, Some("then".into())), "then");
}

#[test]
fn cache_refuses_what_does_not_match_its_provenance() {
    let source = archive(&modern_package(13, 351), Platform::Node);
    let cache = Cache::new("cache".into());
    let good = put(&cache, &source).provenance;
    let get = |provenance: Provenance, wanted: ReleaseId| {
        cache.get(
            &wanted,
            Platform::Node,
            Some(CacheEntry {
                provenance,
                archive: input(source.clone()),
            }),
        )
    };
    assert!(get(good.clone(), release(13, 351)).unwrap().is_some());
    let message = |result: Result<Option<Artifact>, FetchError>| match result {
        Err(FetchError::InvalidArchive(message)) => message,
        other => panic!("unexpected {other:?}"),
    };
    assert_eq!(
        message(get(good.clone(), release(13, 352))),
        "cache provenance does not match requested release"
    );
    let mut bad = good.clone();
    bad.sha256 = "00".into();
    assert_eq!(message(get(bad, release(13, 351))), "cache checksum does not match metadata");
    let mut bad = good.clone();
    bad.size += 1;
    assert_eq!(message(get(bad, release(13, 351))), "cache size does not match metadata");
    let mut open = good.clone();
    open.sha256 = String::new();
    open.nix_sri = String::new();
    open.size = 0;
    let filled = get(open, release(13, 351)).unwrap().unwrap().provenance;
    assert_eq!(filled.sha256, good.sha256);
    assert_eq!(filled.nix_sri, good.nix_sri);
    assert_eq!(filled.size, good.size);
    let mut empty = good;
    empty.sha256 = String::new();
    empty.nix_sri = String::new();
    assert!(complete_provenance(empty, "abcd", 1).is_err());
}

#[test]
fn credentials_and_http_errors_are_redacted() {
    let credentials =
        AccountCredentials::from_values("private@example.test", "super-secret").unwrap();
    let debug = credentials.redacted();
    assert!(!debug.contains("private@example.test"));
    assert!(!debug.contains("super-secret"));
    let error = FetchError::Http {
        context: "downloading Foundry archive",
    }
    .message();
    assert!(!error.contains("http://"));
    assert!(!error.contains("https://"));
    let rejected_login = FetchError::AuthenticationRejected { status: 200 }.message();
    assert!(rejected_login.contains("200 OK"));
}

#[test]
fn errors_have_texts() {
    let shown = |error: FetchError| error.message();
    assert_eq!(
        shown(FetchError::InvalidRelease("x".into())),
        "invalid release identifier: x"
    );
    assert_eq!(shown(FetchError::InvalidUrl("x".into())), "invalid URL: x");
    assert_eq!(
        shown(FetchError::NotRegularFile("/x".into())),
        "archive is not a regular file: /x"
    );
    assert_eq!(
        shown(FetchError::TooLarge { limit: 10 }),
        "archive exceeds the configured size limit (10 bytes)"
    );
    assert_eq!(
        shown(FetchError::InvalidArchive("x".into())),
        "archive validation failed: x"
    );
    assert_eq!(
        shown(FetchError::Http { context: "reading" }),
        "HTTP request failed while reading; URL and response content redacted"
    );
    assert_eq!(
        shown(FetchError::Remote { status: 404, context: "page".into() }),
        "Foundry endpoint returned 404 Not Found: page"
    );
    assert_eq!(
        shown(FetchError::AuthenticationRejected { status: 799 }),
        "Foundry account login response did not indicate success (799 <unknown status code>)"
    );
    assert_eq!(
        shown(FetchError::MissingFormField("token")),
        "required login form field was not found: token"
    );
    assert_eq!(
        shown(FetchError::Metadata("x".into())),
        "cache metadata is invalid: x"
    );
    assert_eq!(
        shown(FetchError::NoAcquisitionSource),
        "no usable release acquisition source was supplied"
    );
    assert_eq!(shown(FetchError::Io("x".into())), "I/O error: x");
}

#[test]
fn credentials_are_trimmed_and_not_empty() {
    let credentials = AccountCredentials::from_files(" user@example.test\n", " se cret \n").unwrap();
    assert_eq!(credentials.username, "user@example.test");
    let form = credentials.login_form("token");
    assert_eq!(
        form,
        [
            ("username", "user@example.test"),
            ("password", " se cret"),
            ("csrfmiddlewaretoken", "token")
        ]
    );
    let message = |result: Result<AccountCredentials, FetchError>| match result {
        Err(FetchError::InvalidRelease(message)) => message,
        _ => panic!("credentials were accepted"),
    };
    assert_eq!(
        message(AccountCredentials::from_values(" ", "secret")),
        "credentials must not be empty"
    );
    assert_eq!(
        message(AccountCredentials::from_files("user", "\n")),
        "credentials files must not be empty"
    );
    let copy = credentials.clone();
    drop(credentials);
    assert_eq!(copy.login_form("t")[1].1, " se cret");
}

#[test]
fn retry_backoff_is_bounded_and_deterministic() {
    let retry = RetryPolicy {
        max_attempts: 3,
        initial_backoff: Duration::from_millis(125),
    };
    assert_eq!(retry.delay(0), Duration::from_millis(125));
    assert_eq!(retry.delay(1), Duration::from_millis(250));
    assert_eq!(retry.delay(2), Duration::from_millis(500));
}

#[test]
fn long_pauses_stop_at_the_longest() {
    let retry = RetryPolicy {
        max_attempts: 255,
        initial_backoff: Duration::from_secs(1),
    };
    assert_eq!(retry.delay(31), Duration::from_secs(1 << 31));
    assert_eq!(retry.delay(32), Duration::from_secs(u32::MAX as u64));
    assert_eq!(retry.delay(255), Duration::from_secs(u32::MAX as u64));
    let endless = RetryPolicy {
        max_attempts: 3,
        initial_backoff: Duration::max(),
    };
    assert_eq!(endless.delay(0), Duration::max());
    assert_eq!(endless.delay(1), Duration::max());
    assert_eq!(Duration::max().as_secs(), u64::MAX);
    assert_eq!(Duration::max().subsec_nanos(), 999_999_999);
}

#[test]
fn requests_are_repeated_as_often_as_allowed() {
    let policy = FetchOptions::default().retry;
    let step = |attempt: u8, outcome: SendOutcome| retry_step(policy, attempt, outcome);
    assert!(matches!(
        step(0, SendOutcome::Failed),
        RetryStep::Pause(pause) if pause == Duration::from_millis(250)
    ));
    assert!(matches!(
        step(1, SendOutcome::Answered(503)),
        RetryStep::Pause(pause) if pause == Duration::from_millis(500)
    ));
    assert!(matches!(step(2, SendOutcome::Failed), RetryStep::Fail));
    assert!(matches!(step(2, SendOutcome::Answered(503)), RetryStep::Accept));
    assert!(matches!(step(0, SendOutcome::Answered(404)), RetryStep::Accept));
    assert!(matches!(step(0, SendOutcome::NotRepeatable), RetryStep::Fail));
    let once = RetryPolicy {
        max_attempts: 0,
        initial_backoff: Duration::from_millis(1),
    };
    assert!(matches!(retry_step(once, 0, SendOutcome::Failed), RetryStep::Fail));
    assert!(retryable_status(429) && retryable_status(500) && retryable_status(599));
    assert!(!retryable_status(428) && !retryable_status(499) && !retryable_status(600));
}

#[test]
fn transfers_are_limited() {
    assert_eq!(count_chunk(5, 5, 10).unwrap(), 10);
    assert!(matches!(count_chunk(6, 5, 10), Err(FetchError::TooLarge { limit: 10 })));
    assert!(matches!(
        count_chunk(u64::MAX, 1, u64::MAX),
        Err(FetchError::TooLarge { limit: u64::MAX })
    ));
    assert_eq!(count_copied(u64::MAX, 1, u64::MAX).unwrap(), u64::MAX);
    assert!(count_copied(6, 5, 10).is_err());
    let mut body = b"abc".to_vec();
    append_limited(&mut body, b"de", 5).unwrap();
    assert_eq!(body, b"abcde");
    assert!(append_limited(&mut body, b"f", 5).is_err());
    assert_eq!(body, b"abcde");
}

#[test]
fn answers_are_texts() {
    assert_eq!(checked_text(200, "é".as_bytes().to_vec(), "page").unwrap(), "é");
    assert!(matches!(
        checked_text(500, Vec::new(), "page"),
        Err(FetchError::Remote { status: 500, context }) if context == "page"
    ));
    assert!(matches!(
        checked_text(204, vec![0xff], "page"),
        Err(FetchError::InvalidArchive(message)) if message == "page was not valid UTF-8"
    ));
    assert!(check_status(299, "x").is_ok());
    assert!(check_status(300, "x").is_err());
}

#[test]
fn default_site_is_the_official_one() {
    let options = FetchOptions::default();
    let parsed = WebUrl::parse("https://foundryvtt.com").unwrap();
    assert_eq!(options.site.text, parsed.text);
    assert_eq!(options.site.scheme, parsed.scheme);
    assert_eq!(options.site.host, parsed.host);
    assert_eq!(options.site.port, parsed.port);
    assert!(official_site(&options.site));
    assert_eq!(options.max_bytes, DEFAULT_MAX_BYTES);
    assert_eq!(options.max_response_bytes, DEFAULT_MAX_RESPONSE_BYTES);
    assert_eq!(options.timeout, Duration::from_secs(90));
    assert_eq!(options.acquisition_time(7), 7);
    let given = FetchOptions {
        acquired_at_unix: Some(42),
        ..FetchOptions::default()
    };
    assert_eq!(given.acquisition_time(7), 42);
    assert!(!official_site(&WebUrl::parse("https://foundryvtt.com:8443").unwrap()));
    assert!(!official_site(&WebUrl::parse("http://foundryvtt.com:443").unwrap()));
}

fn url(text: &str) -> WebUrl {
    WebUrl::parse(text).unwrap()
}

#[test]
fn downloads_are_secure_or_local() {
    assert!(WebUrl::parse("not a url").is_none());
    assert!(secure_or_loopback(&url("https://example.test/x")));
    assert!(secure_or_loopback(&url("http://LOCALHOST:8080/x")));
    assert!(secure_or_loopback(&url("http://127.9.8.7/x")));
    assert!(!secure_or_loopback(&url("http://128.0.0.1/x")));
    assert!(!secure_or_loopback(&url("http://example.test/x")));
    let site = url("https://foundryvtt.com");
    let local = url("http://127.0.0.1:5000");
    assert!(validate_download_url(&url("https://cdn.example/x"), &site).is_ok());
    assert!(validate_download_url(&local, &local).is_ok());
    assert!(validate_download_url(&local, &url("http://example.test")).is_err());
    assert!(validate_download_url(&url("http://cdn.example/x"), &site).is_err());
    assert!(check_release_url(None, &site).is_err());
}

#[test]
fn redirects_stay_with_the_site() {
    let site = url("https://foundryvtt.com");
    assert!(origin_matches(&url("https://foundryvtt.com:443/a"), &site));
    assert!(follow_site_redirect(4, &url("https://foundryvtt.com/a"), &site));
    assert!(!follow_site_redirect(5, &url("https://foundryvtt.com/a"), &site));
    assert!(!follow_site_redirect(0, &url("https://www.foundryvtt.com/a"), &site));
    assert!(!follow_site_redirect(0, &url("http://foundryvtt.com/a"), &site));
    assert!(follow_download_redirect(4, &url("https://cdn.example/a")));
    assert!(!follow_download_redirect(5, &url("https://cdn.example/a")));
    assert!(!follow_download_redirect(0, &url("http://cdn.example/a")));
}

#[test]
fn urls_are_joined_to_the_site() {
    let site = url("https://foundryvtt.com");
    assert_eq!(join_url(&site, "auth/login/").unwrap(), "https://foundryvtt.com/auth/login/");
    assert!(matches!(
        join_url(&url("mailto:x@example.test"), "auth/login/"),
        Err(FetchError::InvalidUrl(message))
            if message == "cannot join \"auth/login/\" to Foundry site"
    ));
    assert_eq!(
        release_endpoint(&site, &release(13, 351), Platform::Linux).unwrap(),
        "https://foundryvtt.com/releases/download?build=351&platform=linux&response_type=json"
    );
    assert_eq!(release_pairs(&release(13, 351), Platform::Node)[1].1, "node");
}

#[test]
fn signed_urls_use_https() {
    assert_eq!(
        read_signed_url(" https://cdn.example/x?signature=1\n").unwrap().text,
        "https://cdn.example/x?signature=1"
    );
    let message = |content: &str| match read_signed_url(content) {
        Err(FetchError::InvalidUrl(message)) => message,
        other => panic!("unexpected {other:?}"),
    };
    assert_eq!(message(" \n"), "signed URL file is empty");
    assert_eq!(message("cdn.example/x"), "signed URL file contains an invalid URL");
    assert_eq!(message("http://localhost/x"), "signed URL must use HTTPS");
}

#[test]
fn inputs_are_found_in_pages() {
    let page = "<form><input type='hidden' name='other' value='1'>\
                <input name=\"csrfmiddlewaretoken\" value=\"token\"></form>";
    assert_eq!(extract_input(page, "csrfmiddlewaretoken").as_deref(), Some("token"));
    assert_eq!(extract_input(page, "other").as_deref(), Some("1"));
    assert_eq!(extract_input(page, "missing"), None);
    assert_eq!(html_attribute(" name= 'a b' ", "name").as_deref(), Some("a b"));
    assert_eq!(html_attribute(" name=bare", "name"), None);
    assert_eq!(html_attribute(" name='open", "name"), None);
}

#[test]
fn sources_are_tried_in_order() {
    let sources = AcquireSources {
        release_url_file: Some("/run/url".into()),
        username_file: Some("/run/name".into()),
        password_file: Some("/run/password".into()),
        offline: false,
    };
    assert!(matches!(
        next_source(&sources, AcquireStage::Start),
        AcquireAction::SignedUrl(path) if path == "/run/url"
    ));
    assert!(matches!(
        next_source(&sources, AcquireStage::AfterSignedUrl),
        AcquireAction::Account { username_file, password_file }
            if username_file == "/run/name" && password_file == "/run/password"
    ));
    assert!(matches!(
        next_source(&sources, AcquireStage::AfterAccount),
        AcquireAction::Cached
    ));
    let half = AcquireSources {
        username_file: Some("/run/name".into()),
        ..AcquireSources::default()
    };
    assert!(matches!(next_source(&half, AcquireStage::Start), AcquireAction::Refuse));
    let none = AcquireSources::default();
    assert!(matches!(next_source(&none, AcquireStage::Start), AcquireAction::Cached));
    assert!(matches!(
        finish_acquisition(Ok(None), None),
        Err(FetchError::NoAcquisitionSource)
    ));
    assert!(matches!(
        finish_acquisition(Ok(None), Some(FetchError::Http { context: "x" })),
        Err(FetchError::Http { context: "x" })
    ));
    assert!(matches!(
        finish_acquisition(Err(FetchError::TooLarge { limit: 1 }), None),
        Err(FetchError::TooLarge { limit: 1 })
    ));
}

fn answered(status: u16, body: &str) -> AccountEvent {
    AccountEvent::Answered {
        status,
        body: body.as_bytes().to_vec(),
    }
}

#[test]
fn account_flow_uses_numeric_build_and_validates_archive() {
    let site = url("http://127.0.0.1:5000");
    let wanted = release(13, 351);
    let step = |state: AccountState, event: AccountEvent| {
        account_step(state, event, &site, &wanted, Platform::Linux)
    };
    let (state, action) = step(AccountState::Start, AccountEvent::Begin);
    assert!(matches!(
        action,
        AccountAction::GetLoginPage { url } if url == "http://127.0.0.1:5000/auth/login/"
    ));
    let page = "<input name=\"csrfmiddlewaretoken\" value=\"token\">";
    let (state, action) = step(state, answered(200, page));
    assert!(matches!(
        action,
        AccountAction::SubmitLogin { url, token }
            if url == "http://127.0.0.1:5000/auth/login/" && token == "token"
    ));
    let (state, action) = step(state, answered(200, "login-welcome"));
    assert!(matches!(
        action,
        AccountAction::RequestRelease { url } if url
            == "http://127.0.0.1:5000/releases/download?build=351&platform=linux&response_type=json"
    ));
    let (state, action) = step(
        state,
        AccountEvent::ReleaseAnswered {
            status: 200,
            answer: Ok("http://127.0.0.1:5000/archive.zip".into()),
        },
    );
    assert!(matches!(
        action,
        AccountAction::Download { from } if from.text == "http://127.0.0.1:5000/archive.zip"
    ));
    assert_eq!(state, AccountState::Done);
    let cache = Cache::new("cache".into());
    let artifact = cache
        .put(
            &wanted,
            Platform::Linux,
            SourceKind::LicensedAccount,
            &input(archive(&modern_package(13, 351), Platform::Linux)),
            DEFAULT_MAX_BYTES,
            1_700_000_000,
        )
        .unwrap();
    assert_eq!(artifact.provenance.source, SourceKind::LicensedAccount);
    assert_eq!(artifact.provenance.acquired_at_unix, 1_700_000_000);
    assert!(artifact.archive.ends_with("/FoundryVTT-Linux-13.351.zip"));
}

#[test]
fn rejected_login_fails_closed() {
    let site = url("http://127.0.0.1:5000");
    let wanted = ReleaseId {
        major: 13,
        build: 351,
    };
    let (state, action) = account_step(
        AccountState::Login,
        answered(401, "rejected"),
        &site,
        &wanted,
        Platform::Node,
    );
    assert_eq!(state, AccountState::Done);
    assert!(matches!(
        action,
        AccountAction::Fail(FetchError::Remote { status: 401, .. })
    ));
    assert!(matches!(
        check_login(200, b"please log in".to_vec()),
        Err(FetchError::AuthenticationRejected { status: 200 })
    ));
    assert!(check_login(200, b"<a href='/logout'>".to_vec()).is_ok());
}

#[test]
fn account_flow_ends_with_each_fault() {
    assert!(matches!(
        login_token(200, b"<input name='other' value='1'>".to_vec()),
        Err(FetchError::MissingFormField("csrfmiddlewaretoken"))
    ));
    assert!(matches!(
        login_token(502, Vec::new()),
        Err(FetchError::Remote { status: 502, context }) if context == "login page"
    ));
    let site = url("https://foundryvtt.com");
    assert!(matches!(
        download_url(&site, 404, Ok("https://cdn.example/x".into())),
        Err(FetchError::Remote { status: 404, context }) if context == "release URL endpoint"
    ));
    assert!(matches!(
        download_url(&site, 200, Err("missing field".into())),
        Err(FetchError::Metadata(text)) if text == "missing field"
    ));
    assert!(matches!(
        download_url(&site, 200, Ok("nowhere".into())),
        Err(FetchError::InvalidUrl(text))
            if text == "release endpoint returned an invalid download URL"
    ));
    assert!(matches!(
        download_url(&site, 200, Ok("http://cdn.example/x".into())),
        Err(FetchError::InvalidUrl(text))
            if text == "download URL must use HTTPS (loopback HTTP is allowed only for tests)"
    ));
    assert!(download_url(&site, 200, Ok("https://cdn.example/x".into())).is_ok());
}

#[test]
fn cached_archive_is_served_to_who_declares_its_hash() {
    let contents = archive(&modern_package(13, 351), Platform::Linux);
    let cache = Cache::new("/var/lib/foundry".into());
    let artifact = cache
        .put(
            &release(13, 351),
            Platform::Linux,
            SourceKind::LicensedAccount,
            &input(contents.clone()),
            DEFAULT_MAX_BYTES,
            42,
        )
        .unwrap();
    let request = AcquireRequest {
        schema_version: 1,
        release: "13.351".into(),
        platform: Platform::Linux,
        expected_sri: nix_sri_from_hex(&sha256_hex(&contents)).unwrap(),
    };
    assert_eq!(check_request(&request).unwrap(), release(13, 351));
    let artifact = judge(&request, Ok(artifact)).unwrap();
    let response = publish(&request, &artifact, true);
    assert_eq!(
        response.path.as_deref(),
        Some("/var/lib/foundry/FoundryVTT-Linux-13.351.zip")
    );
    assert_eq!(response.nix_sri, Some(request.expected_sri));
}

#[test]
fn names_and_hashes_tell_releases_apart() {
    let cache = Cache::new("cache".into());
    let ids = [release(1, 11), release(11, 1), release(1, 1)];
    let mut archives = Vec::new();
    let mut records = Vec::new();
    for id in ids {
        for platform in [Platform::Node, Platform::Linux] {
            archives.push(cache.path_for(&id, platform));
            records.push(cache.metadata_path(&id, platform));
        }
    }
    for i in 0..archives.len() {
        for j in 0..i {
            assert_ne!(archives[i], archives[j]);
            assert_ne!(records[i], records[j]);
        }
    }
    assert_ne!(
        nix_sri_from_hex(&sha256_hex(b"a")).unwrap(),
        nix_sri_from_hex(&sha256_hex(b"b")).unwrap()
    );
}

#[test]
fn larger_limit_keeps_an_archive_good() {
    let good = input(archive(&modern_package(13, 351), Platform::Node));
    for limit in [good.len, good.len + 1, u64::MAX] {
        assert!(validate_archive(&good, &release(13, 351), limit).is_ok());
    }
    // What the entries unpack to counts as well.
    let padded = zip_of(&[
        ("package.json", modern_package(13, 351).as_bytes()),
        ("zeros", &vec![0_u8; 100_000]),
    ]);
    let input = input(padded);
    assert!(input.len < 100_000);
    assert!(matches!(
        validate_archive(&input, &release(13, 351), 100_000),
        Err(FetchError::TooLarge { limit: 100_000 })
    ));
    assert!(validate_archive(&input, &release(13, 351), 200_000).is_ok());
}

#[test]
fn transfer_in_chunks_is_limited_as_a_whole() {
    for chunks in [vec![3_u64, 3, 4], vec![10], vec![0, 10, 0], vec![5, 6], vec![11]] {
        let total: u64 = chunks.iter().sum();
        let mut size = Ok(0_u64);
        for chunk in chunks {
            size = size.and_then(|size| count_chunk(size, chunk, 10));
        }
        assert_eq!(size.is_ok(), total <= 10);
    }
}

#[test]
fn link_at_the_top_stays_inside_however_it_is_named() {
    for name in ["link", "./link", ".//link", "././link"] {
        assert!(!safe_symlink_target(name, "../etc/shadow"), "{name}");
        assert!(!safe_symlink_target(name, "a/../../etc/shadow"), "{name}");
        assert!(safe_symlink_target(name, "a/../b"), "{name}");
        assert!(safe_symlink_target(name, "./b"), "{name}");
    }
    assert!(safe_symlink_target("./bin/link", "../lib"));
    assert!(!safe_symlink_target("./bin/link", "../../lib"));
    assert!(!safe_symlink_target(".", "../lib"));
    assert!(safe_symlink_target(".bin/link", "../lib"));
    assert!(!safe_symlink_target(".bin/link", "../../lib"));
}

#[test]
fn archive_with_a_dotted_link_that_leaves_is_refused() {
    let with_link = |name: &str, target: &str| {
        let mut writer = zip::ZipWriter::new(std::io::Cursor::new(Vec::new()));
        writer.start_file("package.json", SimpleFileOptions::default()).unwrap();
        writer.write_all(modern_package(13, 351).as_bytes()).unwrap();
        // The mode is set by hand, so that the name is kept as it is given.
        writer
            .start_file(name, SimpleFileOptions::default().unix_permissions(0o777))
            .unwrap();
        writer.write_all(target.as_bytes()).unwrap();
        let mut bytes = writer.finish().unwrap().into_inner();
        // The entry becomes a link in the central directory.
        let header = bytes
            .windows(4)
            .rposition(|window| window == b"PK\x01\x02")
            .unwrap();
        bytes[header + 40..header + 42].copy_from_slice(&0o120777_u16.to_le_bytes());
        bytes
    };
    assert!(validate_archive(
        &input(with_link("./link", "lib/tool.js")),
        &release(13, 351),
        1024 * 1024
    )
    .is_ok());
    assert_eq!(
        refusal(with_link("./link", "../etc/shadow"), release(13, 351)),
        "unsafe symlink target for \"./link\""
    );
}

fn found(build: u32) -> Artifact {
    Artifact {
        archive: "archive.zip".into(),
        provenance: Provenance {
            release: release(13, build),
            platform: Platform::Linux,
            source: SourceKind::SignedUrl,
            sha256: String::new(),
            nix_sri: String::new(),
            size: 0,
            acquired_at: String::new(),
            acquired_at_unix: 0,
        },
    }
}

/// Runs an acquisition, and lists the sources that were tried.
fn acquired(
    sources: &AcquireSources,
    signed_url: Option<u32>,
    account: Result<Option<u32>, FetchError>,
    cached: Option<u32>,
) -> (Vec<&'static str>, Result<Artifact, FetchError>) {
    let mut tried = Vec::new();
    let (mut stage, mut last_error, mut next) =
        acquire_step(sources, AcquireStage::Start, None, AcquireEvent::Begin);
    let mut account = Some(account);
    loop {
        let event = match next {
            AcquireMove::End(result) => return (tried, result),
            AcquireMove::Try(AcquireAction::SignedUrl(path)) => {
                assert_eq!(path, "/run/url");
                tried.push("url");
                AcquireEvent::Tried(
                    signed_url
                        .map(found)
                        .ok_or(FetchError::Http { context: "url" }),
                )
            }
            AcquireMove::Try(AcquireAction::Account { .. }) => {
                tried.push("account");
                match account.take().unwrap() {
                    Ok(outcome) => AcquireEvent::Tried(
                        outcome
                            .map(found)
                            .ok_or(FetchError::Http { context: "account" }),
                    ),
                    Err(error) => AcquireEvent::Unreadable(error),
                }
            }
            AcquireMove::Try(AcquireAction::Cached) => {
                tried.push("cache");
                AcquireEvent::Cached(Ok(cached.map(found)))
            }
            AcquireMove::Try(AcquireAction::Refuse) => panic!("a refusal is no source"),
        };
        (stage, last_error, next) = acquire_step(sources, stage, last_error, event);
    }
}

#[test]
fn first_source_that_succeeds_ends_the_acquisition() {
    let all = AcquireSources {
        release_url_file: Some("/run/url".into()),
        username_file: Some("/run/name".into()),
        password_file: Some("/run/password".into()),
        offline: false,
    };
    let build = |result: Result<Artifact, FetchError>| result.unwrap().provenance.release.build;
    let (tried, result) = acquired(&all, Some(1), Ok(Some(2)), Some(3));
    assert_eq!((tried, build(result)), (vec!["url"], 1));
    let (tried, result) = acquired(&all, None, Ok(Some(2)), Some(3));
    assert_eq!((tried, build(result)), (vec!["url", "account"], 2));
    let (tried, result) = acquired(&all, None, Ok(None), Some(3));
    assert_eq!((tried, build(result)), (vec!["url", "account", "cache"], 3));
    let (tried, result) = acquired(&all, None, Ok(None), None);
    assert_eq!(tried, ["url", "account", "cache"]);
    assert!(matches!(result, Err(FetchError::Http { context: "account" })));
    let (tried, result) = acquired(&all, None, Err(FetchError::Io("gone".into())), Some(3));
    assert_eq!(tried, ["url", "account"]);
    assert!(matches!(result, Err(FetchError::Io(text)) if text == "gone"));
    let url_only = AcquireSources {
        username_file: None,
        password_file: None,
        ..all.clone()
    };
    let (tried, result) = acquired(&url_only, None, Ok(None), None);
    assert_eq!(tried, ["url", "cache"]);
    assert!(matches!(result, Err(FetchError::Http { context: "url" })));
    let half = AcquireSources {
        password_file: None,
        ..all.clone()
    };
    let (tried, result) = acquired(&half, None, Ok(None), Some(3));
    assert_eq!(tried, ["url"]);
    assert!(matches!(result, Err(FetchError::NoAcquisitionSource)));
    let offline = AcquireSources {
        offline: true,
        ..all
    };
    let (tried, result) = acquired(&offline, Some(1), Ok(Some(2)), Some(3));
    assert_eq!((tried, build(result)), (vec!["cache"], 3));
    let (_, result) = acquired(&offline, Some(1), Ok(Some(2)), None);
    assert!(matches!(result, Err(FetchError::NoAcquisitionSource)));
}
