//! Validation of a release archive: what its ZIP entries may be called, where
//! its links may lead, how large it may grow, and which release it says it is.
use std::io::Read;
use vstd::prelude::*;

use crate::digest::sha256_hex;
use crate::error::{Fault, FetchError};
use crate::json::{json_error, json_node, JsonNode, Node};
use crate::paths::{safe_symlink_target, safe_zip_path};
use crate::release::ReleaseId;
use crate::text::{
    chars_of, parse_unsigned, push_decimal, quoted, replaced, same_text, string_of,
};

verus! {

pub const MAX_ZIP_ENTRIES: usize = 100_000;

pub const MAX_PACKAGE_JSON_BYTES: u64 = 4_194_304;

/// The first release whose package.json must name its generation and build.
pub const FIRST_MODERN_MAJOR: u16 = 13;

/// What a package.json says of the release that it belongs to.
#[derive(Debug)]
pub struct PackageManifest {
    /// The `release` object, where there is one.
    pub release: Option<PackageRelease>,
    /// The `version`, where it is a text.
    pub version: Option<String>,
}

#[derive(Debug)]
pub struct PackageRelease {
    pub generation: JsonNode,
    pub build: JsonNode,
}

/// The content of a `PackageManifest`.
pub ghost struct Package {
    pub release: Option<(Node, Node)>,
    pub version: Option<Seq<char>>,
}

impl View for PackageManifest {
    type V = Package;

    open spec fn view(&self) -> Package {
        Package {
            release: match self.release {
                Some(release) => Some((release.generation@, release.build@)),
                None => None,
            },
            version: match self.version {
                Some(version) => Some(version@),
                None => None,
            },
        }
    }
}

/// The number that a JSON value stands for, written as a number or as a text.
pub open spec fn node_number(node: Node) -> Option<nat> {
    match node {
        Node::Number(Some(n)) => if n <= u32::MAX {
            Some(n as nat)
        } else {
            None
        },
        Node::Text(text) => crate::text::unsigned(text, u32::MAX as nat),
        _ => None,
    }
}

/// The number that a JSON value stands for.
pub fn json_u32(value: &JsonNode) -> (r: Option<u32>)
    ensures
        match r {
            Some(n) => node_number(value@) == Some(n as nat),
            None => node_number(value@) is None,
        },
{
    match value {
        JsonNode::Number(Some(n)) => if *n <= u32::MAX as u64 {
            Some(*n as u32)
        } else {
            None
        },
        JsonNode::Text(text) => {
            let chars = chars_of(text.as_str());
            match parse_unsigned(chars.as_slice(), u32::MAX as u64) {
                Some(n) => Some(n as u32),
                None => None,
            }
        },
        _ => None,
    }
}

/// What speaks against a package.json that should belong to `release`.
pub open spec fn package_fault(package: Package, release: ReleaseId) -> Option<Fault> {
    match package.release {
        Some((generation, build)) => match (node_number(generation), node_number(build)) {
            (None, _) => Some(
                Fault::InvalidArchive("package.json release.generation is missing"@),
            ),
            (_, None) => Some(Fault::InvalidArchive("package.json release.build is missing"@)),
            (Some(g), Some(b)) => if g == release.major && b == release.build {
                None
            } else {
                Some(
                    Fault::InvalidArchive(
                        "package.json release "@ + crate::text::decimal(g) + "."@
                            + crate::text::decimal(b) + " does not match requested "@
                            + release.shown(),
                    ),
                )
            },
        },
        None => if release.major >= FIRST_MODERN_MAJOR {
            Some(
                Fault::InvalidArchive(
                    "modern Foundry releases require package.json release.generation and release.build"@,
                ),
            )
        } else {
            match package.version {
                Some(version) => match crate::release::release_of(version) {
                    Some(found) => if found == release {
                        None
                    } else {
                        Some(
                            Fault::InvalidArchive(
                                "package.json release "@ + found.shown()
                                    + " does not match requested "@ + release.shown(),
                            ),
                        )
                    },
                    None => Some(
                        Fault::InvalidArchive("package.json has an invalid version"@),
                    ),
                },
                None => Some(
                    Fault::InvalidArchive("package.json has no release/version field"@),
                ),
            }
        },
    }
}

fn invalid(text: &str) -> (r: FetchError)
    ensures
        r@ == Fault::InvalidArchive(text@),
{
    FetchError::InvalidArchive(text.to_owned())
}

/// Checks that a package.json belongs to `release`.
pub fn validate_package_release(package: &PackageManifest, release: &ReleaseId) -> (r: Result<
    (),
    FetchError,
>)
    ensures
        match r {
            Ok(()) => package_fault(package@, *release) is None,
            Err(e) => package_fault(package@, *release) == Some(e@),
        },
{
    match &package.release {
        Some(found) => {
            let generation: u32 = match json_u32(&found.generation) {
                Some(n) => n,
                None => return Err(invalid("package.json release.generation is missing")),
            };
            let build: u32 = match json_u32(&found.build) {
                Some(n) => n,
                None => return Err(invalid("package.json release.build is missing")),
            };
            if generation == release.major as u32 && build == release.build {
                return Ok(());
            }
            let mut text = "package.json release ".to_owned();
            push_decimal(&mut text, generation as u64);
            text.append(".");
            push_decimal(&mut text, build as u64);
            text.append(" does not match requested ");
            release.push_to(&mut text);
            Err(FetchError::InvalidArchive(text))
        },
        None => {
            if release.major >= FIRST_MODERN_MAJOR {
                return Err(
                    invalid(
                        "modern Foundry releases require package.json release.generation and release.build",
                    ),
                );
            }
            match &package.version {
                Some(version) => {
                    let found = match ReleaseId::parse(version.as_str()) {
                        Ok(found) => found,
                        Err(_) => return Err(invalid("package.json has an invalid version")),
                    };
                    if found == *release {
                        return Ok(());
                    }
                    let mut text = "package.json release ".to_owned();
                    found.push_to(&mut text);
                    text.append(" does not match requested ");
                    release.push_to(&mut text);
                    Err(FetchError::InvalidArchive(text))
                },
                None => Err(invalid("package.json has no release/version field")),
            }
        },
    }
}

/// What a package.json document says of its release.
pub open spec fn package_of(document: Seq<u8>) -> Package {
    Package {
        release: if crate::json::json_at(document, "/release"@) is Object {
            Some(
                (
                    crate::json::json_at(document, "/release/generation"@),
                    crate::json::json_at(document, "/release/build"@),
                ),
            )
        } else {
            None
        },
        version: match crate::json::json_at(document, "/version"@) {
            Node::Text(text) => Some(text),
            _ => None,
        },
    }
}

/// Reads what a package.json document says of its release.
pub fn read_package(document: &[u8]) -> (r: Result<PackageManifest, FetchError>)
    ensures
        match (crate::json::json_fault(document@), r) {
            (None, Ok(package)) => package@ == package_of(document@),
            (Some(text), Err(e)) => e@ == Fault::InvalidArchive("invalid package.json: "@ + text),
            _ => false,
        },
{
    if let Some(error) = json_error(document) {
        let mut text = "invalid package.json: ".to_owned();
        text.append(error.as_str());
        return Err(FetchError::InvalidArchive(text));
    }
    let release = match json_node(document, "/release") {
        JsonNode::Object => Some(
            PackageRelease {
                generation: json_node(document, "/release/generation"),
                build: json_node(document, "/release/build"),
            },
        ),
        _ => None,
    };
    let version = match json_node(document, "/version") {
        JsonNode::Text(text) => Some(text),
        _ => None,
    };
    Ok(PackageManifest { release, version })
}

/// A ZIP archive that is open for reading.
#[verifier::external_type_specification]
#[verifier::external_body]
#[verifier::reject_recursive_types(R)]
pub struct ExZipArchive<R>(zip::ZipArchive<R>);

/// A reader over bytes in memory.
#[verifier::external_type_specification]
#[verifier::external_body]
#[verifier::reject_recursive_types(T)]
pub struct ExCursor<T>(std::io::Cursor<T>);

/// The bytes that a ZIP archive was opened on.
pub uninterp spec fn zip_source(archive: zip::ZipArchive<std::io::Cursor<&[u8]>>) -> Seq<u8>;

/// The reason for which the `zip` crate does not open some bytes.
pub uninterp spec fn zip_fault(source: Seq<u8>) -> Option<Seq<char>>;

/// Calls `zip::ZipArchive::new`: an archive over the bytes, or the text of the
/// error where they are no ZIP archive.
#[verifier::external_body]
fn zip_open<'a>(source: &'a [u8]) -> (r: Result<
    zip::ZipArchive<std::io::Cursor<&'a [u8]>>,
    String,
>)
    ensures
        match r {
            Ok(archive) => zip_fault(source@) is None && zip_source(archive) == source@,
            Err(text) => zip_fault(source@) == Some(text@),
        },
{
    zip::ZipArchive::new(std::io::Cursor::new(source)).map_err(|error| error.to_string())
}

/// The number of entries that the `zip` crate finds.
pub uninterp spec fn zip_count(source: Seq<u8>) -> nat;

/// Calls `zip::ZipArchive::len`.
#[verifier::external_body]
fn zip_len(archive: &zip::ZipArchive<std::io::Cursor<&[u8]>>) -> (r: usize)
    ensures
        r == zip_count(zip_source(*archive)),
{
    archive.len()
}

/// What the directory of an archive says of an entry: its name, its Unix mode,
/// and its uncompressed size.
#[derive(Debug)]
pub struct EntryHeader {
    pub name: String,
    pub unix_mode: Option<u32>,
    pub size: u64,
}

/// The content of an `EntryHeader`.
pub ghost struct Entry {
    pub name: Seq<char>,
    pub unix_mode: Option<u32>,
    pub size: u64,
}

impl View for EntryHeader {
    type V = Entry;

    open spec fn view(&self) -> Entry {
        Entry { name: self.name@, unix_mode: self.unix_mode, size: self.size }
    }
}

/// What the `zip` crate says of entry `index`, or the reason for which it does
/// not open it.
pub uninterp spec fn zip_header(source: Seq<u8>, index: nat) -> Result<Entry, Seq<char>>;

/// Calls `zip::ZipArchive::by_index` and hands out the entry's name, mode and
/// uncompressed size. The archive stays open on the same bytes.
#[verifier::external_body]
fn zip_entry(archive: &mut zip::ZipArchive<std::io::Cursor<&[u8]>>, index: usize) -> (r: Result<
    EntryHeader,
    String,
>)
    ensures
        zip_source(*final(archive)) == zip_source(*old(archive)),
        match r {
            Ok(entry) => zip_header(zip_source(*old(archive)), index as nat) == Ok::<
                Entry,
                Seq<char>,
            >(entry@),
            Err(text) => zip_header(zip_source(*old(archive)), index as nat) == Err::<
                Entry,
                Seq<char>,
            >(text@),
        },
{
    let entry = archive.by_index(index).map_err(|error| error.to_string())?;
    Ok(EntryHeader {
        name: entry.name().to_owned(),
        unix_mode: entry.unix_mode(),
        size: entry.size(),
    })
}

/// The uncompressed content of entry `index` as a text.
pub uninterp spec fn zip_text(source: Seq<u8>, index: nat) -> Option<Seq<char>>;

/// Reads an entry with `read_to_string`: nothing where it cannot be read or is
/// not UTF-8. The archive stays open on the same bytes.
#[verifier::external_body]
fn zip_entry_text(archive: &mut zip::ZipArchive<std::io::Cursor<&[u8]>>, index: usize) -> (r:
    Option<String>)
    ensures
        zip_source(*final(archive)) == zip_source(*old(archive)),
        match r {
            Some(text) => zip_text(zip_source(*old(archive)), index as nat) == Some(text@),
            None => zip_text(zip_source(*old(archive)), index as nat) is None,
        },
{
    let mut text = String::new();
    archive.by_index(index).ok()?.read_to_string(&mut text).ok()?;
    Some(text)
}

/// The uncompressed content of entry `index`, or the reason for which it
/// cannot be read.
pub uninterp spec fn zip_content(source: Seq<u8>, index: nat) -> Result<Seq<u8>, Seq<char>>;

/// Reads an entry with `read_to_end`. The archive stays open on the same
/// bytes.
#[verifier::external_body]
fn zip_entry_bytes(archive: &mut zip::ZipArchive<std::io::Cursor<&[u8]>>, index: usize) -> (r:
    Result<Vec<u8>, String>)
    ensures
        zip_source(*final(archive)) == zip_source(*old(archive)),
        match r {
            Ok(bytes) => zip_content(zip_source(*old(archive)), index as nat) == Ok::<
                Seq<u8>,
                Seq<char>,
            >(bytes@),
            Err(text) => zip_content(zip_source(*old(archive)), index as nat) == Err::<
                Seq<u8>,
                Seq<char>,
            >(text@),
        },
{
    let mut bytes = Vec::new();
    let mut entry = archive.by_index(index).map_err(|error| error.to_string())?;
    entry.read_to_end(&mut bytes).map_err(|error| error.to_string())?;
    Ok(bytes)
}

/// Whether a Unix mode is that of a symbolic link.
pub open spec fn is_link_mode(mode: Option<u32>) -> bool {
    match mode {
        Some(bits) => bits & 0o170000 == 0o120000,
        None => false,
    }
}

pub fn is_symlink(unix_mode: Option<u32>) -> (r: bool)
    ensures
        r == is_link_mode(unix_mode),
{
    match unix_mode {
        Some(bits) => bits & 0o170000 == 0o120000,
        None => false,
    }
}

/// The name of an entry, with slashes for backslashes.
pub open spec fn entry_name(entry: Entry) -> Seq<char> {
    crate::text::replace_char(entry.name, '\\', '/')
}

/// Whether an entry is the package.json of a Linux or of a Node archive.
pub open spec fn is_package_name(name: Seq<char>) -> bool {
    name == "resources/app/package.json"@ || name == "package.json"@
}

/// The uncompressed size of the first `n` entries together.
pub open spec fn expanded(source: Seq<u8>, n: nat) -> nat
    decreases n,
{
    if n == 0 {
        0
    } else {
        expanded(source, (n - 1) as nat) + match zip_header(source, (n - 1) as nat) {
            Ok(entry) => entry.size as nat,
            Err(_) => 0,
        }
    }
}

/// What speaks against an entry by its header and, where it is a link, by its
/// target, when the entries before it take `size` bytes.
pub open spec fn header_fault(
    entry: Entry,
    target: Option<Seq<char>>,
    size: nat,
    max_bytes: u64,
) -> Option<Fault> {
    let name = entry_name(entry);
    let link = is_link_mode(entry.unix_mode);
    let shown = crate::text::debug_text(name);
    if !crate::paths::is_safe_zip_path(name) {
        Some(Fault::InvalidArchive("unsafe ZIP path "@ + shown))
    } else if link && target is None {
        Some(Fault::InvalidArchive("symlink target for "@ + shown + " is not UTF-8"@))
    } else if link && !crate::paths::is_safe_link(name, target->0) {
        Some(Fault::InvalidArchive("unsafe symlink target for "@ + shown))
    } else if size + entry.size > u64::MAX {
        Some(Fault::InvalidArchive("ZIP expansion size overflow"@))
    } else if size + entry.size > max_bytes {
        Some(Fault::TooLarge { limit: max_bytes })
    } else if is_package_name(name) && entry.size > MAX_PACKAGE_JSON_BYTES {
        Some(Fault::InvalidArchive("package.json is too large"@))
    } else {
        None
    }
}

/// What speaks against entry `index`, once nothing speaks against those before
/// it.
pub open spec fn entry_fault(source: Seq<u8>, index: nat, max_bytes: u64) -> Option<Fault> {
    match zip_header(source, index) {
        Err(text) => Some(Fault::InvalidArchive(text)),
        Ok(entry) => match header_fault(
            entry,
            zip_text(source, index),
            expanded(source, index),
            max_bytes,
        ) {
            Some(fault) => Some(fault),
            None => if is_package_name(entry_name(entry)) && !is_link_mode(entry.unix_mode) {
                match zip_content(source, index) {
                    Ok(_) => None,
                    Err(text) => Some(Fault::Io(text)),
                }
            } else {
                None
            },
        },
    }
}

/// The first thing that speaks against one of the first `n` entries.
pub open spec fn scan_fault(source: Seq<u8>, n: nat, max_bytes: u64) -> Option<Fault>
    decreases n,
{
    if n == 0 {
        None
    } else {
        match scan_fault(source, (n - 1) as nat, max_bytes) {
            Some(fault) => Some(fault),
            None => entry_fault(source, (n - 1) as nat, max_bytes),
        }
    }
}

/// The content of entry `index` where it is a package.json. A link has no
/// content of its own.
pub open spec fn entry_package(source: Seq<u8>, index: nat) -> Option<Seq<u8>> {
    match zip_header(source, index) {
        Ok(entry) => if !is_package_name(entry_name(entry)) {
            None
        } else if is_link_mode(entry.unix_mode) {
            Some(seq![])
        } else {
            match zip_content(source, index) {
                Ok(bytes) => Some(bytes),
                Err(_) => None,
            }
        },
        Err(_) => None,
    }
}

/// The package.json among the first `n` entries; the last one counts.
pub open spec fn package_json(source: Seq<u8>, n: nat) -> Option<Seq<u8>>
    decreases n,
{
    if n == 0 {
        None
    } else {
        match entry_package(source, (n - 1) as nat) {
            Some(bytes) => Some(bytes),
            None => package_json(source, (n - 1) as nat),
        }
    }
}

/// What speaks against the bytes of an archive of `release`.
pub open spec fn source_fault(source: Seq<u8>, release: ReleaseId, max_bytes: u64) -> Option<
    Fault,
> {
    match zip_fault(source) {
        Some(text) => Some(Fault::InvalidArchive(text)),
        None => if zip_count(source) > MAX_ZIP_ENTRIES {
            Some(
                Fault::InvalidArchive(
                    "ZIP contains more than "@ + crate::text::decimal(MAX_ZIP_ENTRIES as nat)
                        + " entries"@,
                ),
            )
        } else {
            match scan_fault(source, zip_count(source), max_bytes) {
                Some(fault) => Some(fault),
                None => match package_json(source, zip_count(source)) {
                    None => Some(Fault::InvalidArchive("missing package.json"@)),
                    Some(document) => match crate::json::json_fault(document) {
                        Some(text) => Some(
                            Fault::InvalidArchive("invalid package.json: "@ + text),
                        ),
                        None => package_fault(package_of(document), release),
                    },
                },
            }
        },
    }
}

/// A file that may be an archive, as it was found on disk. The contents are
/// read only of a regular file that is not too large.
#[derive(Debug)]
pub struct ArchiveInput {
    pub path: String,
    pub regular: bool,
    pub len: u64,
    pub contents: Vec<u8>,
}

/// What speaks against a file as an archive of `release`.
pub open spec fn archive_fault(input: ArchiveInput, release: ReleaseId, max_bytes: u64) -> Option<
    Fault,
> {
    if !input.regular {
        Some(Fault::NotRegularFile(input.path@))
    } else if input.len > max_bytes {
        Some(Fault::TooLarge { limit: max_bytes })
    } else {
        source_fault(input.contents@, release, max_bytes)
    }
}

/// The name of an entry, with slashes for backslashes.
fn plain_name(entry: &EntryHeader) -> (r: String)
    ensures
        r@ == entry_name(entry@),
{
    let chars = chars_of(entry.name.as_str());
    string_of(replaced(chars.as_slice(), '\\', '/').as_slice())
}

/// Whether an entry is a package.json that the release is read from.
pub fn is_package_entry(entry: &EntryHeader) -> (r: bool)
    ensures
        r == is_package_name(entry_name(entry@)),
{
    let name = plain_name(entry);
    same_text(name.as_str(), "resources/app/package.json") || same_text(
        name.as_str(),
        "package.json",
    )
}

/// Checks an entry by its header and, where it is a link, by its target.
/// `size` is the size of the entries before it; the size up to and with it is
/// handed out.
pub fn check_entry(entry: &EntryHeader, target: &Option<String>, size: u64, max_bytes: u64) -> (r:
    Result<u64, FetchError>)
    ensures
        ({
            let link_target = match *target {
                Some(text) => Some(text@),
                None => None,
            };
            match r {
                Ok(total) => {
                    &&& header_fault(entry@, link_target, size as nat, max_bytes) is None
                    &&& total == size + entry.size
                },
                Err(e) => header_fault(entry@, link_target, size as nat, max_bytes) == Some(e@),
            }
        }),
{
    let name = plain_name(entry);
    if !safe_zip_path(name.as_str()) {
        let mut text = "unsafe ZIP path ".to_owned();
        text.append(quoted(name.as_str()).as_str());
        return Err(FetchError::InvalidArchive(text));
    }
    if is_symlink(entry.unix_mode) {
        match target {
            Some(target) => {
                if !safe_symlink_target(name.as_str(), target.as_str()) {
                    let mut text = "unsafe symlink target for ".to_owned();
                    text.append(quoted(name.as_str()).as_str());
                    return Err(FetchError::InvalidArchive(text));
                }
            },
            None => {
                let mut text = "symlink target for ".to_owned();
                text.append(quoted(name.as_str()).as_str());
                text.append(" is not UTF-8");
                return Err(FetchError::InvalidArchive(text));
            },
        }
    }
    let total: u64 = match size.checked_add(entry.size) {
        Some(total) => total,
        None => return Err(invalid("ZIP expansion size overflow")),
    };
    if total > max_bytes {
        return Err(FetchError::TooLarge { limit: max_bytes });
    }
    if is_package_entry(entry) && entry.size > MAX_PACKAGE_JSON_BYTES {
        return Err(invalid("package.json is too large"));
    }
    Ok(total)
}

/// Reads and checks one entry of an archive. Hands out the size of the entries
/// up to and with it, and its content where it is a package.json.
fn scan_entry(
    archive: &mut zip::ZipArchive<std::io::Cursor<&[u8]>>,
    index: usize,
    size: u64,
    max_bytes: u64,
) -> (r: Result<(u64, Option<Vec<u8>>), FetchError>)
    requires
        size == expanded(zip_source(*old(archive)), index as nat),
    ensures
        zip_source(*final(archive)) == zip_source(*old(archive)),
        match r {
            Ok((total, found)) => {
                let source = zip_source(*old(archive));
                &&& entry_fault(source, index as nat, max_bytes) is None
                &&& total == expanded(source, index as nat + 1)
                &&& match found {
                    Some(bytes) => entry_package(source, index as nat) == Some(bytes@),
                    None => entry_package(source, index as nat) is None,
                }
            },
            Err(e) => entry_fault(zip_source(*old(archive)), index as nat, max_bytes) == Some(e@),
        },
{
    let entry = match zip_entry(archive, index) {
        Ok(entry) => entry,
        Err(text) => return Err(FetchError::InvalidArchive(text)),
    };
    let link = is_symlink(entry.unix_mode);
    let target = if link {
        zip_entry_text(archive, index)
    } else {
        None
    };
    let total: u64 = match check_entry(&entry, &target, size, max_bytes) {
        Ok(total) => total,
        Err(e) => return Err(e),
    };
    if !is_package_entry(&entry) {
        return Ok((total, None));
    }
    if link {
        return Ok((total, Some(Vec::new())));
    }
    match zip_entry_bytes(archive, index) {
        Ok(bytes) => Ok((total, Some(bytes))),
        Err(text) => Err(FetchError::Io(text)),
    }
}

/// A fault among the first entries is the fault of the whole scan.
proof fn lemma_scan_stops(source: Seq<u8>, n: nat, count: nat, max_bytes: u64)
    requires
        n <= count,
        scan_fault(source, n, max_bytes) is Some,
    ensures
        scan_fault(source, count, max_bytes) == scan_fault(source, n, max_bytes),
    decreases count,
{
    if n < count {
        lemma_scan_stops(source, n, (count - 1) as nat, max_bytes);
    }
}

/// Checks the entries of an archive, in order, and hands out its package.json.
fn scan_entries(
    archive: &mut zip::ZipArchive<std::io::Cursor<&[u8]>>,
    count: usize,
    max_bytes: u64,
) -> (r: Result<Option<Vec<u8>>, FetchError>)
    ensures
        match r {
            Ok(found) => {
                let source = zip_source(*old(archive));
                &&& scan_fault(source, count as nat, max_bytes) is None
                &&& match found {
                    Some(bytes) => package_json(source, count as nat) == Some(bytes@),
                    None => package_json(source, count as nat) is None,
                }
            },
            Err(e) => scan_fault(zip_source(*old(archive)), count as nat, max_bytes) == Some(e@),
        },
{
    let ghost source = zip_source(*archive);
    let mut package: Option<Vec<u8>> = None;
    let mut size: u64 = 0;
    let mut i: usize = 0;
    while i < count
        invariant
            i <= count,
            zip_source(*archive) == source,
            source == zip_source(*old(archive)),
            scan_fault(source, i as nat, max_bytes) is None,
            size == expanded(source, i as nat),
            match package {
                Some(bytes) => package_json(source, i as nat) == Some(bytes@),
                None => package_json(source, i as nat) is None,
            },
        decreases count - i,
    {
        let ghost index = i as nat;
        assert(scan_fault(source, index + 1, max_bytes) == entry_fault(source, index, max_bytes));
        match scan_entry(archive, i, size, max_bytes) {
            Ok((total, found)) => {
                size = total;
                if found.is_some() {
                    package = found;
                }
            },
            Err(e) => {
                proof {
                    lemma_scan_stops(source, index + 1, count as nat, max_bytes);
                }
                return Err(e);
            },
        }
        i = i + 1;
    }
    Ok(package)
}

/// Validates and hashes an archive of `release`: its digest in hexadecimal and
/// its size. The ZIP is checked for a package.json, a matching release, path
/// traversal, and unsafe symlink targets.
pub fn validate_archive(input: &ArchiveInput, release: &ReleaseId, max_bytes: u64) -> (r: Result<
    (String, u64),
    FetchError,
>)
    ensures
        match r {
            Ok((sha256, size)) => {
                &&& archive_fault(*input, *release, max_bytes) is None
                &&& sha256@ == crate::digest::hex_text(crate::digest::sha256(input.contents@))
                &&& crate::digest::sha256(input.contents@).len() == 32
                &&& size == input.len
            },
            Err(e) => archive_fault(*input, *release, max_bytes) == Some(e@),
        },
{
    if !input.regular {
        return Err(FetchError::NotRegularFile(input.path.clone()));
    }
    if input.len > max_bytes {
        return Err(FetchError::TooLarge { limit: max_bytes });
    }
    let sha256 = sha256_hex(input.contents.as_slice());
    let mut archive = match zip_open(input.contents.as_slice()) {
        Ok(archive) => archive,
        Err(text) => return Err(FetchError::InvalidArchive(text)),
    };
    let count: usize = zip_len(&archive);
    if count > MAX_ZIP_ENTRIES {
        let mut text = "ZIP contains more than ".to_owned();
        push_decimal(&mut text, MAX_ZIP_ENTRIES as u64);
        text.append(" entries");
        return Err(FetchError::InvalidArchive(text));
    }
    let document = match scan_entries(&mut archive, count, max_bytes) {
        Ok(Some(document)) => document,
        Ok(None) => return Err(invalid("missing package.json")),
        Err(e) => return Err(e),
    };
    let package = match read_package(document.as_slice()) {
        Ok(package) => package,
        Err(e) => return Err(e),
    };
    match validate_package_release(&package, release) {
        Ok(()) => Ok((sha256, input.len)),
        Err(e) => Err(e),
    }
}

/// Every entry of an archive that passed the scan was found good, and with the
/// entries up to it the archive is not too large.
proof fn lemma_scanned(source: Seq<u8>, n: nat, max_bytes: u64, index: nat)
    requires
        scan_fault(source, n, max_bytes) is None,
        index < n,
    ensures
        entry_fault(source, index, max_bytes) is None,
    decreases n,
{
    if index + 1 < n {
        lemma_scanned(source, (n - 1) as nat, max_bytes, index);
    }
}

/// An archive that was found good is safe to unpack: every entry has a path
/// that stays inside, every link leads to a relative target that stays inside,
/// and all entries together take no more than `max_bytes`.
pub proof fn lemma_good_archive_is_safe(
    source: Seq<u8>,
    release: ReleaseId,
    max_bytes: u64,
    index: nat,
)
    requires
        source_fault(source, release, max_bytes) is None,
        index < zip_count(source),
    ensures
        zip_header(source, index) is Ok,
        crate::paths::is_safe_zip_path(entry_name(zip_header(source, index)->Ok_0)),
        crate::paths::walk(
            seq![],
            crate::paths::components(entry_name(zip_header(source, index)->Ok_0)),
        ) is Some,
        is_link_mode(zip_header(source, index)->Ok_0.unix_mode) ==> zip_text(source, index) is Some
            && crate::paths::is_safe_link(
            entry_name(zip_header(source, index)->Ok_0),
            zip_text(source, index)->0,
        ),
        ({
            let name = crate::paths::components(entry_name(zip_header(source, index)->Ok_0));
            let target = crate::paths::components(
                crate::paths::link_path(zip_text(source, index)->0),
            );
            is_link_mode(zip_header(source, index)->Ok_0.unix_mode) ==> crate::paths::walk(
                seq![],
                name.drop_last() + target,
            ) is Some
        }),
        expanded(source, index + 1) <= max_bytes,
{
    lemma_scanned(source, zip_count(source), max_bytes, index);
    let entry = zip_header(source, index)->Ok_0;
    crate::paths::lemma_safe_path_stays_inside(entry_name(entry));
    if is_link_mode(entry.unix_mode) {
        crate::paths::lemma_safe_link_stays_inside(
            entry_name(entry),
            zip_text(source, index)->0,
        );
    }
}

/// An archive that was found good says in its package.json that it belongs to
/// the release: by generation and build, or, where it names neither and the
/// release is an old one, by its version.
pub proof fn lemma_good_archive_matches(source: Seq<u8>, release: ReleaseId, max_bytes: u64)
    requires
        source_fault(source, release, max_bytes) is None,
    ensures
        package_json(source, zip_count(source)) is Some,
        ({
            let package = package_of(package_json(source, zip_count(source))->0);
            match package.release {
                Some((generation, build)) => node_number(generation) == Some(
                    release.major as nat,
                ) && node_number(build) == Some(release.build as nat),
                None => release.major < FIRST_MODERN_MAJOR && package.version is Some
                    && crate::release::release_of(package.version->0) == Some(release),
            }
        }),
{
}

/// No archive is good for two releases.
pub proof fn lemma_good_archive_has_one_release(
    source: Seq<u8>,
    a: ReleaseId,
    b: ReleaseId,
    max_a: u64,
    max_b: u64,
)
    requires
        source_fault(source, a, max_a) is None,
        source_fault(source, b, max_b) is None,
    ensures
        a == b,
{
}

/// A larger limit does not make a good archive bad.
proof fn lemma_scan_limit(source: Seq<u8>, n: nat, less: u64, more: u64)
    requires
        less <= more,
        scan_fault(source, n, less) is None,
    ensures
        scan_fault(source, n, more) is None,
    decreases n,
{
    if n > 0 {
        lemma_scan_limit(source, (n - 1) as nat, less, more);
    }
}

/// What is good under one limit is good under a larger one.
pub proof fn lemma_limit_is_monotone(source: Seq<u8>, release: ReleaseId, less: u64, more: u64)
    requires
        less <= more,
        source_fault(source, release, less) is None,
    ensures
        source_fault(source, release, more) is None,
{
    lemma_scan_limit(source, zip_count(source), less, more);
}

/// A Unix mode is that of a link where its topmost four bits say so, whatever
/// the permissions below them.
pub proof fn lemma_link_modes(mode: Option<u32>)
    ensures
        is_link_mode(mode) <==> mode is Some && (mode->0 / 4096) % 16 == 10,
{
    if let Some(bits) = mode {
        assert((bits & 0o170000 == 0o120000) <==> (bits / 4096) % 16 == 10) by (bit_vector);
    }
}

/// Backslashes in an entry's name are slashes, for every check.
pub proof fn lemma_entry_backslashes(
    entry: Entry,
    target: Option<Seq<char>>,
    size: nat,
    max_bytes: u64,
)
    ensures
        ({
            let plain = Entry { name: crate::text::replace_char(entry.name, '\\', '/'), ..entry };
            header_fault(plain, target, size, max_bytes) == header_fault(
                entry,
                target,
                size,
                max_bytes,
            )
        }),
{
    let plain = Entry { name: crate::text::replace_char(entry.name, '\\', '/'), ..entry };
    assert(entry_name(plain) == entry_name(entry));
}

/// An entry that is no link and no package.json is accepted at any size that
/// the limit leaves room for, as long as its path is safe.
pub proof fn lemma_ordinary_entry_is_accepted(
    entry: Entry,
    target: Option<Seq<char>>,
    size: nat,
    max_bytes: u64,
)
    requires
        !entry.name.contains('\\'),
        crate::paths::is_safe_zip_path(entry.name),
        entry.name != "package.json"@,
        entry.name != "resources/app/package.json"@,
        entry.unix_mode is None || (entry.unix_mode->0 / 4096) % 16 != 10,
        size + entry.size <= max_bytes,
    ensures
        header_fault(entry, target, size, max_bytes) is None,
{
    lemma_link_modes(entry.unix_mode);
    lemma_plain_name(entry);
}

/// A package.json, in either of its places, is accepted exactly up to four
/// mebibytes.
pub proof fn lemma_package_entry_size(
    entry: Entry,
    target: Option<Seq<char>>,
    size: nat,
    max_bytes: u64,
)
    requires
        entry.name == "package.json"@ || entry.name == "resources/app/package.json"@,
        entry.unix_mode is None || (entry.unix_mode->0 / 4096) % 16 != 10,
        size + entry.size <= max_bytes,
    ensures
        entry.size <= 4_194_304 ==> header_fault(entry, target, size, max_bytes) is None,
        entry.size > 4_194_304 ==> header_fault(entry, target, size, max_bytes) == Some(
            Fault::InvalidArchive("package.json is too large"@),
        ),
{
    lemma_link_modes(entry.unix_mode);
    lemma_package_names_are_safe();
    reveal_strlit("package.json");
    reveal_strlit("resources/app/package.json");
    assert(!entry.name.contains('\\'));
    lemma_plain_name(entry);
}

/// A link is accepted exactly where its target is a text that stays inside,
/// under the same conditions as any other entry.
pub proof fn lemma_link_entry(
    entry: Entry,
    target: Option<Seq<char>>,
    size: nat,
    max_bytes: u64,
)
    requires
        !entry.name.contains('\\'),
        crate::paths::is_safe_zip_path(entry.name),
        entry.size <= 4_194_304,
        entry.unix_mode is Some && (entry.unix_mode->0 / 4096) % 16 == 10,
        size + entry.size <= max_bytes,
    ensures
        header_fault(entry, target, size, max_bytes) is None <==> target is Some
            && crate::paths::is_safe_link(entry.name, target->0),
{
    lemma_link_modes(entry.unix_mode);
    lemma_plain_name(entry);
}

/// Whatever is accepted has a safe path and leaves the archive within the
/// limit, and what takes it beyond is too large.
pub proof fn lemma_entry_bounds(
    entry: Entry,
    target: Option<Seq<char>>,
    size: nat,
    max_bytes: u64,
)
    requires
        !entry.name.contains('\\'),
    ensures
        header_fault(entry, target, size, max_bytes) is None ==> crate::paths::is_safe_zip_path(
            entry.name,
        ) && size + entry.size <= max_bytes,
        crate::paths::is_safe_zip_path(entry.name) && (entry.unix_mode is None || (entry.unix_mode->0
            / 4096) % 16 != 10) && max_bytes < size + entry.size <= u64::MAX ==> header_fault(
            entry,
            target,
            size,
            max_bytes,
        ) == Some(Fault::TooLarge { limit: max_bytes }),
{
    lemma_link_modes(entry.unix_mode);
    lemma_plain_name(entry);
}

proof fn lemma_plain_name(entry: Entry)
    requires
        !entry.name.contains('\\'),
    ensures
        entry_name(entry) == entry.name,
{
    assert forall|i: int| 0 <= i < entry.name.len() implies entry_name(entry)[i] == entry.name[i] by {
        assert(entry.name.contains(entry.name[i]));
    }
}

proof fn lemma_package_names_are_safe()
    ensures
        crate::paths::is_safe_zip_path("package.json"@),
        crate::paths::is_safe_zip_path("resources/app/package.json"@),
{
    reveal_strlit("package.json");
    reveal_strlit("resources/app/package.json");
    reveal_strlit("resources");
    reveal_strlit("app");
    reveal_strlit("..");
    let short = seq!["package.json"@];
    let long = seq!["resources"@, "app"@, "package.json"@];
    assert("resources"@.len() == 9 && "app"@.len() == 3 && "package.json"@.len() == 12 && ".."@.len()
        == 2);
    assert(!"resources"@.contains('/') && !"resources"@.contains(':'));
    assert(!"app"@.contains('/') && !"app"@.contains(':'));
    assert(!"package.json"@.contains('/') && !"package.json"@.contains(':'));
    assert(crate::text::joined_with(short, '/') == "package.json"@);
    reveal_with_fuel(crate::text::joined_with, 4);
    assert(long.drop_first() == seq!["app"@, "package.json"@]);
    assert(long.drop_first().drop_first() == seq!["package.json"@]);
    assert(crate::text::joined_with(long, '/') == "resources/app/package.json"@);
    crate::paths::lemma_safe_zip_paths(short);
    crate::paths::lemma_safe_zip_paths(long);
}

/// The size of an archive is the sum of the sizes of its entries.
pub proof fn lemma_expanded_size(source: Seq<u8>, n: nat)
    requires
        zip_header(source, n) is Ok,
    ensures
        expanded(source, 0) == 0,
        expanded(source, n + 1) == expanded(source, n) + zip_header(source, n)->Ok_0.size,
{
}

/// Whether an entry is a file or directory with a safe path that is no
/// package.json.
pub open spec fn is_ordinary(entry: Entry) -> bool {
    &&& !entry.name.contains('\\')
    &&& crate::paths::is_safe_zip_path(entry.name)
    &&& entry.name != "package.json"@
    &&& entry.name != "resources/app/package.json"@
    &&& entry.unix_mode is None || (entry.unix_mode->0 / 4096) % 16 != 10
}

/// Whether an entry is a package.json that is no link.
pub open spec fn is_plain_package(entry: Entry) -> bool {
    &&& entry.name == "package.json"@ || entry.name == "resources/app/package.json"@
    &&& entry.unix_mode is None || (entry.unix_mode->0 / 4096) % 16 != 10
    &&& entry.size <= 4_194_304
}

/// Ordinary entries and one package.json pass the scan, and the package.json is
/// found.
proof fn lemma_ordinary_scan(source: Seq<u8>, n: nat, at: nat, max_bytes: u64)
    requires
        expanded(source, n) <= max_bytes,
        forall|i: nat| i < n ==> #[trigger] zip_header(source, i) is Ok,
        forall|i: nat|
            i < n && i != at ==> is_ordinary((#[trigger] zip_header(source, i))->Ok_0),
        at < n ==> is_plain_package(zip_header(source, at)->Ok_0) && zip_content(source, at) is Ok,
    ensures
        scan_fault(source, n, max_bytes) is None,
        package_json(source, n) == if at < n {
            Some(zip_content(source, at)->Ok_0)
        } else {
            None
        },
    decreases n,
{
    if n > 0 {
        let i = (n - 1) as nat;
        lemma_ordinary_scan(source, i, at, max_bytes);
        let entry = zip_header(source, i)->Ok_0;
        assert(zip_header(source, i) is Ok);
        lemma_expanded_size(source, i);
        lemma_link_modes(entry.unix_mode);
        if i == at {
            reveal_strlit("package.json");
            reveal_strlit("resources/app/package.json");
            assert(!entry.name.contains('\\'));
            lemma_plain_name(entry);
            lemma_package_entry_size(entry, zip_text(source, i), expanded(source, i), max_bytes);
        } else {
            lemma_plain_name(entry);
            lemma_ordinary_entry_is_accepted(
                entry,
                zip_text(source, i),
                expanded(source, i),
                max_bytes,
            );
        }
    }
}

/// Whether a JSON value is a number, or the text of one.
pub open spec fn says_number(node: Node, n: nat) -> bool {
    node == Node::Number(Some(n as u64)) || node == Node::Text(crate::text::decimal(n))
}

/// An archive of ordinary entries and one package.json of at most four mebibytes
/// is accepted for the release that the package.json names by generation and
/// build, as long as it has at most a hundred thousand entries and stays within
/// the limit.
pub proof fn lemma_ordinary_archive_is_accepted(
    source: Seq<u8>,
    release: ReleaseId,
    max_bytes: u64,
    at: nat,
    document: Seq<u8>,
)
    requires
        zip_fault(source) is None,
        at < zip_count(source) <= 100_000,
        expanded(source, zip_count(source)) <= max_bytes,
        forall|i: nat| i < zip_count(source) ==> #[trigger] zip_header(source, i) is Ok,
        forall|i: nat|
            i < zip_count(source) && i != at ==> is_ordinary(
                (#[trigger] zip_header(source, i))->Ok_0,
            ),
        is_plain_package(zip_header(source, at)->Ok_0),
        zip_content(source, at) == Ok::<Seq<u8>, Seq<char>>(document),
        crate::json::json_fault(document) is None,
        crate::json::json_at(document, "/release"@) is Object,
        says_number(crate::json::json_at(document, "/release/generation"@), release.major as nat),
        says_number(crate::json::json_at(document, "/release/build"@), release.build as nat),
    ensures
        source_fault(source, release, max_bytes) is None,
        forall|input: ArchiveInput|
            input.regular && input.len <= max_bytes && input.contents@ == source
                ==> #[trigger] archive_fault(input, release, max_bytes) is None,
{
    lemma_ordinary_scan(source, zip_count(source), at, max_bytes);
    lemma_node_numbers(release.major as nat);
    lemma_node_numbers(release.build as nat);
}

/// An archive of an old release may name it by its version alone.
pub proof fn lemma_old_archive_is_accepted(
    source: Seq<u8>,
    release: ReleaseId,
    max_bytes: u64,
    at: nat,
    document: Seq<u8>,
    version: Seq<char>,
)
    requires
        zip_fault(source) is None,
        at < zip_count(source) <= 100_000,
        expanded(source, zip_count(source)) <= max_bytes,
        forall|i: nat| i < zip_count(source) ==> #[trigger] zip_header(source, i) is Ok,
        forall|i: nat|
            i < zip_count(source) && i != at ==> is_ordinary(
                (#[trigger] zip_header(source, i))->Ok_0,
            ),
        is_plain_package(zip_header(source, at)->Ok_0),
        zip_content(source, at) == Ok::<Seq<u8>, Seq<char>>(document),
        crate::json::json_fault(document) is None,
        !(crate::json::json_at(document, "/release"@) is Object),
        crate::json::json_at(document, "/version"@) == Node::Text(version),
        crate::release::release_of(version) == Some(release),
        release.major < 13,
    ensures
        source_fault(source, release, max_bytes) is None,
{
    lemma_ordinary_scan(source, zip_count(source), at, max_bytes);
}

/// A number is read from a JSON number and from a text of digits, where it is no
/// larger than a build can be, and from nothing else.
pub proof fn lemma_node_numbers(n: nat)
    ensures
        n <= 4_294_967_295 ==> forall|node: Node|
            #![trigger node_number(node)]
            says_number(node, n) ==> node_number(node) == Some(n),
        4_294_967_295 < n <= u64::MAX ==> forall|node: Node|
            #![trigger node_number(node)]
            says_number(node, n) ==> node_number(node) is None,
        forall|node: Node|
            #![trigger node_number(node)]
            !(node is Number) && !(node is Text) ==> node_number(node) is None,
        node_number(Node::Number(None)) is None,
{
    crate::text::lemma_unsigned(seq![], n, u32::MAX as nat);
}

/// A package.json with a release object counts by generation and build alone:
/// it belongs to a release exactly where both are the release's.
pub proof fn lemma_package_by_numbers(
    generation: Node,
    build: Node,
    version: Option<Seq<char>>,
    release: ReleaseId,
    g: nat,
    b: nat,
)
    requires
        g <= 4_294_967_295,
        b <= 4_294_967_295,
        says_number(generation, g),
        says_number(build, b),
    ensures
        package_fault(Package { release: Some((generation, build)), version }, release) is None
            <==> g == release.major && b == release.build,
{
    lemma_node_numbers(g);
    lemma_node_numbers(b);
}

/// A package.json without a release object belongs to a release exactly where
/// the release is older than the thirteenth and the version names it.
pub proof fn lemma_package_by_version(version: Option<Seq<char>>, release: ReleaseId)
    ensures
        package_fault(Package { release: None, version }, release) is None <==> release.major < 13
            && version is Some && crate::release::release_of(version->0) == Some(release),
{
}

/// What a package.json says is read from its release and version fields.
pub proof fn lemma_package_fields(document: Seq<u8>)
    ensures
        package_of(document).release is Some <==> crate::json::json_at(
            document,
            "/release"@,
        ) is Object,
        crate::json::json_at(document, "/release"@) is Object ==> package_of(document).release
            == Some(
            (
                crate::json::json_at(document, "/release/generation"@),
                crate::json::json_at(document, "/release/build"@),
            ),
        ),
        package_of(document).version is Some <==> crate::json::json_at(
            document,
            "/version"@,
        ) is Text,
        crate::json::json_at(document, "/version"@) matches Node::Text(text) ==> package_of(
            document,
        ).version == Some(text),
{
}

/// Of several package.json entries the last one counts.
pub proof fn lemma_last_package_counts(source: Seq<u8>, n: nat, at: nat)
    requires
        at < n,
        entry_package(source, at) is Some,
        forall|i: nat| at < i < n ==> #[trigger] entry_package(source, i) is None,
    ensures
        package_json(source, n) == entry_package(source, at),
    decreases n,
{
    if at + 1 < n {
        assert(entry_package(source, (n - 1) as nat) is None);
        lemma_last_package_counts(source, (n - 1) as nat, at);
    }
}

/// Only an entry that is called package.json, at the top or below
/// `resources/app`, is one; its content is what it holds, and nothing where it
/// is a link.
pub proof fn lemma_package_entries(source: Seq<u8>, index: nat)
    requires
        zip_header(source, index) is Ok,
        !zip_header(source, index)->Ok_0.name.contains('\\'),
    ensures
        ({
            let entry = zip_header(source, index)->Ok_0;
            let link = entry.unix_mode is Some && (entry.unix_mode->0 / 4096) % 16 == 10;
            let named = entry.name == "package.json"@ || entry.name
                == "resources/app/package.json"@;
            &&& !named ==> entry_package(source, index) is None
            &&& named && link ==> entry_package(source, index) == Some(Seq::<u8>::empty())
            &&& named && !link && zip_content(source, index) is Ok ==> entry_package(source, index)
                == Some(zip_content(source, index)->Ok_0)
        }),
{
    let entry = zip_header(source, index)->Ok_0;
    lemma_link_modes(entry.unix_mode);
    lemma_plain_name(entry);
}

/// A good archive opens, has at most a hundred thousand entries, and says that
/// it belongs to the release: by generation and build, or by its version where
/// the release is older than the thirteenth.
pub proof fn lemma_good_archive_limits(source: Seq<u8>, release: ReleaseId, max_bytes: u64)
    requires
        source_fault(source, release, max_bytes) is None,
    ensures
        zip_fault(source) is None,
        zip_count(source) <= 100_000,
        zip_count(source) > 0,
        expanded(source, zip_count(source)) <= max_bytes,
        forall|i: nat|
            i < zip_count(source) && is_package_name(
                entry_name((#[trigger] zip_header(source, i))->Ok_0),
            ) ==> zip_header(source, i)->Ok_0.size <= 4_194_304,
        ({
            let document = package_json(source, zip_count(source))->0;
            let generation = node_number(crate::json::json_at(document, "/release/generation"@));
            let build = node_number(crate::json::json_at(document, "/release/build"@));
            &&& package_json(source, zip_count(source)) is Some
            &&& crate::json::json_fault(document) is None
            &&& if crate::json::json_at(document, "/release"@) is Object {
                generation == Some(release.major as nat) && build == Some(release.build as nat)
            } else {
                release.major < 13 && (crate::json::json_at(document, "/version"@) matches Node::Text(
                    version,
                ) && crate::release::release_of(version) == Some(release))
            }
        }),
{
    let n = zip_count(source);
    lemma_good_archive_matches(source, release, max_bytes);
    lemma_good_archive_is_safe(source, release, max_bytes, (n - 1) as nat);
    assert forall|i: nat|
        i < n && is_package_name(entry_name((#[trigger] zip_header(source, i))->Ok_0)) implies zip_header(
        source,
        i,
    )->Ok_0.size <= 4_194_304 by {
        lemma_scanned(source, n, max_bytes, i);
    }
}

/// A file is no archive where it is no regular file, is larger than allowed or
/// holds more than a hundred thousand entries, whatever else holds of it.
pub proof fn lemma_refused_files(input: ArchiveInput, release: ReleaseId, max_bytes: u64)
    ensures
        !input.regular ==> archive_fault(input, release, max_bytes) == Some(
            Fault::NotRegularFile(input.path@),
        ),
        input.regular && input.len > max_bytes ==> archive_fault(input, release, max_bytes) == Some(
            Fault::TooLarge { limit: max_bytes },
        ),
        zip_count(input.contents@) > 100_000 ==> archive_fault(input, release, max_bytes) is Some,
        archive_fault(input, release, max_bytes) is None ==> input.regular && input.len <= max_bytes
            && source_fault(input.contents@, release, max_bytes) is None,
{
}

/// Whatever else holds of an entry, an unsafe path is named first, then the
/// target of a link, then the size.
pub proof fn lemma_refused_entries(
    entry: Entry,
    target: Option<Seq<char>>,
    size: nat,
    max_bytes: u64,
)
    requires
        !entry.name.contains('\\'),
    ensures
        ({
            let shown = crate::text::debug_text(entry.name);
            let safe = crate::paths::is_safe_zip_path(entry.name);
            let link = entry.unix_mode is Some && (entry.unix_mode->0 / 4096) % 16 == 10;
            let fault = header_fault(entry, target, size, max_bytes);
            &&& !safe ==> fault == Some(Fault::InvalidArchive("unsafe ZIP path "@ + shown))
            &&& safe && link && target is None ==> fault == Some(
                Fault::InvalidArchive("symlink target for "@ + shown + " is not UTF-8"@),
            )
            &&& safe && link && target is Some && !crate::paths::is_safe_link(
                entry.name,
                target->0,
            ) ==> fault == Some(Fault::InvalidArchive("unsafe symlink target for "@ + shown))
            &&& safe && !link && size + entry.size > u64::MAX ==> fault == Some(
                Fault::InvalidArchive("ZIP expansion size overflow"@),
            )
        }),
{
    lemma_link_modes(entry.unix_mode);
    lemma_plain_name(entry);
}

/// What speaks against an archive that opens is what speaks against its first
/// bad entry.
pub proof fn lemma_first_bad_entry_decides(
    source: Seq<u8>,
    release: ReleaseId,
    max_bytes: u64,
    at: nat,
)
    requires
        zip_fault(source) is None,
        at < zip_count(source) <= 100_000,
        forall|i: nat| i < at ==> #[trigger] entry_fault(source, i, max_bytes) is None,
        entry_fault(source, at, max_bytes) is Some,
    ensures
        source_fault(source, release, max_bytes) == entry_fault(source, at, max_bytes),
{
    lemma_good_entries(source, at, max_bytes);
    lemma_scan_stops(source, at + 1, zip_count(source), max_bytes);
}

proof fn lemma_good_entries(source: Seq<u8>, n: nat, max_bytes: u64)
    requires
        forall|i: nat| i < n ==> #[trigger] entry_fault(source, i, max_bytes) is None,
    ensures
        scan_fault(source, n, max_bytes) is None,
    decreases n,
{
    if n > 0 {
        lemma_good_entries(source, (n - 1) as nat, max_bytes);
        assert(entry_fault(source, (n - 1) as nat, max_bytes) is None);
    }
}

/// An entry that the archive cannot hand out is bad, and so is a package.json
/// that cannot be read, unless it is a link.
pub proof fn lemma_unreadable_entries(source: Seq<u8>, index: nat, max_bytes: u64)
    ensures
        zip_header(source, index) matches Err(text) ==> entry_fault(source, index, max_bytes)
            == Some(Fault::InvalidArchive(text)),
        (zip_header(source, index) matches Ok(entry) && is_plain_package(entry) && expanded(
            source,
            index,
        ) + entry.size <= max_bytes) ==> (zip_content(source, index) matches Err(text)
            ==> entry_fault(source, index, max_bytes) == Some(Fault::Io(text))),
        (zip_header(source, index) matches Ok(entry) && is_ordinary(entry) && expanded(source, index)
            + entry.size <= max_bytes) ==> entry_fault(source, index, max_bytes) is None,
{
    if let Ok(entry) = zip_header(source, index) {
        lemma_link_modes(entry.unix_mode);
        if is_plain_package(entry) && expanded(source, index) + entry.size <= max_bytes {
            reveal_strlit("package.json");
            reveal_strlit("resources/app/package.json");
            assert(!entry.name.contains('\\'));
            lemma_plain_name(entry);
            lemma_package_entry_size(
                entry,
                zip_text(source, index),
                expanded(source, index),
                max_bytes,
            );
        }
        if is_ordinary(entry) && expanded(source, index) + entry.size <= max_bytes {
            lemma_plain_name(entry);
            lemma_ordinary_entry_is_accepted(
                entry,
                zip_text(source, index),
                expanded(source, index),
                max_bytes,
            );
        }
    }
}

/// What is no ZIP archive, has too many entries, or has no package.json that is
/// JSON is refused with the reason.
pub proof fn lemma_refused_archives(source: Seq<u8>, release: ReleaseId, max_bytes: u64)
    ensures
        zip_fault(source) matches Some(text) ==> source_fault(source, release, max_bytes) == Some(
            Fault::InvalidArchive(text),
        ),
        zip_fault(source) is None && zip_count(source) > 100_000 ==> source_fault(
            source,
            release,
            max_bytes,
        ) == Some(
            Fault::InvalidArchive(
                "ZIP contains more than "@ + crate::text::decimal(100_000) + " entries"@,
            ),
        ),
        zip_fault(source) is None && zip_count(source) <= 100_000 && (forall|i: nat|
            i < zip_count(source) ==> #[trigger] entry_fault(source, i, max_bytes) is None && entry_package(
                source,
                i,
            ) is None) ==> source_fault(source, release, max_bytes) == Some(
            Fault::InvalidArchive("missing package.json"@),
        ),
{
    if zip_fault(source) is None && zip_count(source) <= 100_000 && (forall|i: nat|
        i < zip_count(source) ==> #[trigger] entry_fault(source, i, max_bytes) is None && entry_package(
            source,
            i,
        ) is None) {
        lemma_good_entries(source, zip_count(source), max_bytes);
        lemma_no_package(source, zip_count(source), max_bytes);
    }
}

proof fn lemma_no_package(source: Seq<u8>, n: nat, max_bytes: u64)
    requires
        forall|i: nat|
            i < n ==> #[trigger] entry_fault(source, i, max_bytes) is None && entry_package(
                source,
                i,
            ) is None,
    ensures
        package_json(source, n) is None,
    decreases n,
{
    if n > 0 {
        lemma_no_package(source, (n - 1) as nat, max_bytes);
        assert(entry_fault(source, (n - 1) as nat, max_bytes) is None);
    }
}

/// What a package.json lacks, or says otherwise, is named.
pub proof fn lemma_refused_packages(package: Package, release: ReleaseId, g: nat, b: nat)
    ensures
        package.release matches Some((generation, build)) ==> {
            &&& node_number(generation) is None ==> package_fault(package, release) == Some(
                Fault::InvalidArchive("package.json release.generation is missing"@),
            )
            &&& node_number(generation) is Some && node_number(build) is None ==> package_fault(
                package,
                release,
            ) == Some(Fault::InvalidArchive("package.json release.build is missing"@))
            &&& node_number(generation) == Some(g) && node_number(build) == Some(b) && (g
                != release.major || b != release.build) ==> package_fault(package, release) == Some(
                Fault::InvalidArchive(
                    "package.json release "@ + crate::text::decimal(g) + "."@
                        + crate::text::decimal(b) + " does not match requested "@ + release.shown(),
                ),
            )
        },
        package.release is None && release.major >= 13 ==> package_fault(package, release) == Some(
            Fault::InvalidArchive(
                "modern Foundry releases require package.json release.generation and release.build"@,
            ),
        ),
        package.release is None && release.major < 13 && package.version is None ==> package_fault(
            package,
            release,
        ) == Some(Fault::InvalidArchive("package.json has no release/version field"@)),
        package.release is None && release.major < 13 && package.version is Some
            && crate::release::release_of(package.version->0) is None ==> package_fault(
            package,
            release,
        ) == Some(Fault::InvalidArchive("package.json has an invalid version"@)),
{
}

/// Checking an entry with a safe path that is no link gives the size up to and
/// with it, as long as that is within the limit; only a package.json must not be
/// larger than four mebibytes by itself.
pub proof fn lemma_checked_entries(
    entry: &EntryHeader,
    target: &Option<String>,
    size: u64,
    max_bytes: u64,
    r: Result<u64, FetchError>,
)
    requires
        call_ensures(check_entry, (entry, target, size, max_bytes), r),
    ensures
        is_ordinary(entry@) && size + entry.size <= max_bytes ==> (r matches Ok(total) && total == size
            + entry.size),
        is_plain_package(entry@) && size + entry.size <= max_bytes ==> (r matches Ok(total) && total
            == size + entry.size),
        r matches Ok(total) ==> total == size + entry.size && total <= max_bytes,
{
    if is_ordinary(entry@) && size + entry.size <= max_bytes {
        lemma_ordinary_entry_is_accepted(entry@, None, size as nat, max_bytes);
        if let Some(text) = *target {
            lemma_ordinary_entry_is_accepted(entry@, Some(text@), size as nat, max_bytes);
        }
    }
    if is_plain_package(entry@) && size + entry.size <= max_bytes {
        lemma_package_entry_size(entry@, None, size as nat, max_bytes);
        if let Some(text) = *target {
            lemma_package_entry_size(entry@, Some(text@), size as nat, max_bytes);
        }
    }
}

/// What is said of a good archive is the digest of its contents and its size.
pub proof fn lemma_validated_archives(
    input: &ArchiveInput,
    release: &ReleaseId,
    max_bytes: u64,
    r: Result<(String, u64), FetchError>,
)
    requires
        call_ensures(validate_archive, (input, release, max_bytes), r),
    ensures
        r is Ok <==> input.regular && input.len <= max_bytes && source_fault(
            input.contents@,
            *release,
            max_bytes,
        ) is None,
        r matches Ok((sha256, size)) ==> sha256@ == crate::digest::hex_text(
            crate::digest::sha256(input.contents@),
        ) && size == input.len,
{
}

}
