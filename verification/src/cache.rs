//! The cache of validated archives: the names under which archives and their
//! provenance are kept, and what is accepted from it and put into it.
use vstd::prelude::*;

use crate::archive::{validate_archive, ArchiveInput};
use crate::digest::nix_sri_from_hex;
use crate::error::{Fault, FetchError};
use crate::paths::join;
use crate::release::{platform_name, Platform, ReleaseId, SourceKind};
use crate::text::{decimal_text, same_text};

verus! {

/// The size limit where none is given.
pub const DEFAULT_MAX_BYTES: u64 = 4_294_967_296;

/// The mode of a private cache directory.
pub const PRIVATE_DIRECTORY_MODE: u32 = 0o700;

/// The mode of what a private cache holds.
pub const PRIVATE_FILE_MODE: u32 = 0o600;

/// The mode of a cache directory that the Nix build group may read.
pub const SHARED_DIRECTORY_MODE: u32 = 0o2750;

/// The mode of what a shared cache holds.
pub const SHARED_FILE_MODE: u32 = 0o440;

/// Where an archive came from, and what it is.
#[derive(Debug, Clone)]
pub struct Provenance {
    pub release: ReleaseId,
    pub platform: Platform,
    pub source: SourceKind,
    pub sha256: String,
    pub nix_sri: String,
    pub size: u64,
    pub acquired_at: String,
    pub acquired_at_unix: u64,
}

/// The content of a `Provenance`.
pub ghost struct Record {
    pub release: ReleaseId,
    pub platform: Platform,
    pub source: SourceKind,
    pub sha256: Seq<char>,
    pub nix_sri: Seq<char>,
    pub size: u64,
    pub acquired_at: Seq<char>,
    pub acquired_at_unix: u64,
}

impl View for Provenance {
    type V = Record;

    open spec fn view(&self) -> Record {
        Record {
            release: self.release,
            platform: self.platform,
            source: self.source,
            sha256: self.sha256@,
            nix_sri: self.nix_sri@,
            size: self.size,
            acquired_at: self.acquired_at@,
            acquired_at_unix: self.acquired_at_unix,
        }
    }
}

/// An archive in the cache.
#[derive(Debug, Clone)]
pub struct Artifact {
    pub archive: String,
    pub provenance: Provenance,
}

/// A pair of files that was found in the cache under the names of a release.
#[derive(Debug)]
pub struct CacheEntry {
    pub provenance: Provenance,
    pub archive: ArchiveInput,
}

/// Private on-disk cache.
#[derive(Debug, Clone)]
pub struct Cache {
    root: String,
}

/// The file name of an archive in the cache.
pub open spec fn archive_file(release: ReleaseId, platform: Platform) -> Seq<char> {
    match platform {
        Platform::Node => "FoundryVTT-Node-"@ + release.shown() + ".zip"@,
        Platform::Linux => release.linux_name(),
    }
}

/// The file name of an archive's provenance in the cache.
pub open spec fn metadata_file(release: ReleaseId, platform: Platform) -> Seq<char> {
    "foundryvtt-"@ + release.shown() + "-"@ + crate::release::platform_word(platform) + ".json"@
}

/// What speaks against a provenance once its archive has the digest `sha256`,
/// in hexadecimal, and the given size. What it leaves open speaks not against
/// it.
pub open spec fn provenance_fault(record: Record, sha256: Seq<char>, size: u64) -> Option<Fault> {
    if record.sha256.len() != 0 && record.sha256 != sha256 {
        Some(Fault::InvalidArchive("cache checksum does not match metadata"@))
    } else if record.size != 0 && record.size != size {
        Some(Fault::InvalidArchive("cache size does not match metadata"@))
    } else if record.nix_sri.len() == 0 {
        match crate::digest::hex_bytes(sha256) {
            None => Some(Fault::InvalidArchive("invalid SHA-256 digest"@)),
            Some(digest) => if digest.len() != 32 {
                Some(Fault::InvalidArchive("SHA-256 digest has the wrong length"@))
            } else {
                None
            },
        }
    } else {
        None
    }
}

/// A provenance with what it left open filled in.
pub open spec fn filled(record: Record, sha256: Seq<char>, size: u64) -> Record {
    Record {
        sha256: if record.sha256.len() == 0 {
            sha256
        } else {
            record.sha256
        },
        nix_sri: if record.nix_sri.len() == 0 {
            crate::digest::sri_text(crate::digest::hex_bytes(sha256)->0)
        } else {
            record.nix_sri
        },
        size: if record.size == 0 {
            size
        } else {
            record.size
        },
        ..record
    }
}

/// Holds a provenance against the digest and the size of its archive, and
/// fills in what it leaves open.
pub fn complete_provenance(provenance: Provenance, sha256: &str, size: u64) -> (r: Result<
    Provenance,
    FetchError,
>)
    ensures
        match r {
            Ok(complete) => provenance_fault(provenance@, sha256@, size) is None && complete@
                == filled(provenance@, sha256@, size),
            Err(e) => provenance_fault(provenance@, sha256@, size) == Some(e@),
        },
{
    let mut complete = provenance;
    if !complete.sha256.as_str().is_empty() && !same_text(complete.sha256.as_str(), sha256) {
        return Err(
            FetchError::InvalidArchive("cache checksum does not match metadata".to_owned()),
        );
    }
    if complete.size != 0 && complete.size != size {
        return Err(FetchError::InvalidArchive("cache size does not match metadata".to_owned()));
    }
    if complete.sha256.as_str().is_empty() {
        complete.sha256 = sha256.to_owned();
    }
    if complete.nix_sri.as_str().is_empty() {
        match nix_sri_from_hex(sha256) {
            Ok(sri) => complete.nix_sri = sri,
            Err(e) => return Err(e),
        }
    }
    if complete.size == 0 {
        complete.size = size;
    }
    Ok(complete)
}

/// What speaks against a pair of files as the cached archive of a release.
pub open spec fn entry_fault(
    entry: CacheEntry,
    release: ReleaseId,
    platform: Platform,
    max_bytes: u64,
) -> Option<Fault> {
    if entry.provenance.release != release || entry.provenance.platform != platform {
        Some(Fault::InvalidArchive("cache provenance does not match requested release"@))
    } else {
        match crate::archive::archive_fault(entry.archive, release, max_bytes) {
            Some(fault) => Some(fault),
            None => provenance_fault(
                entry.provenance@,
                content_hash(entry.archive.contents@),
                entry.archive.len,
            ),
        }
    }
}

/// The digest of an archive as provenance records it.
pub open spec fn content_hash(contents: Seq<u8>) -> Seq<char> {
    crate::digest::hex_text(crate::digest::sha256(contents))
}

/// The time that an RFC 3339 text shows for seconds since 1970, as the `time`
/// crate formats it.
pub uninterp spec fn rfc3339(seconds: i64) -> Option<Seq<char>>;

/// Calls `time::OffsetDateTime::from_unix_timestamp` and `format` with
/// `Rfc3339`: nothing for a time that is out of their range.
#[verifier::external_body]
fn rfc3339_text(seconds: i64) -> (r: Option<String>)
    ensures
        match r {
            Some(text) => rfc3339(seconds) == Some(text@),
            None => rfc3339(seconds) is None,
        },
{
    let time = time::OffsetDateTime::from_unix_timestamp(seconds).ok()?;
    time.format(&time::format_description::well_known::Rfc3339).ok()
}

/// The text of an acquisition time: in RFC 3339 where there is one, and
/// otherwise the bare number.
pub open spec fn time_text(unix: u64, formatted: Option<Seq<char>>) -> Seq<char> {
    match formatted {
        Some(text) => text,
        None => crate::text::decimal(unix as nat),
    }
}

/// The text of an acquisition time, once it was formatted.
pub fn acquired_text(unix: u64, formatted: Option<String>) -> (r: String)
    ensures
        r@ == time_text(
            unix,
            match formatted {
                Some(text) => Some(text@),
                None => None,
            },
        ),
{
    match formatted {
        Some(text) => text,
        None => decimal_text(unix),
    }
}

/// The provenance of an archive that goes into the cache.
pub open spec fn new_record(
    release: ReleaseId,
    platform: Platform,
    source: SourceKind,
    contents: Seq<u8>,
    size: u64,
    acquired_at_unix: u64,
) -> Record {
    Record {
        release,
        platform,
        source,
        sha256: content_hash(contents),
        nix_sri: crate::digest::sri_text(crate::digest::sha256(contents)),
        size,
        acquired_at: time_text(acquired_at_unix, rfc3339(acquired_at_unix as i64)),
        acquired_at_unix,
    }
}

impl Cache {
    /// The directory of the cache.
    pub closed spec fn directory(&self) -> Seq<char> {
        self.root@
    }

    /// A cache in the given directory.
    pub fn new(root: String) -> (r: Cache)
        ensures
            r.directory() == root@,
    {
        Cache { root }
    }

    pub fn root(&self) -> (r: &str)
        ensures
            r@ == self.directory(),
    {
        self.root.as_str()
    }

    /// The path of an archive in the cache.
    pub fn path_for(&self, release: &ReleaseId, platform: Platform) -> (r: String)
        ensures
            r@ == crate::paths::joined(self.directory(), archive_file(*release, platform)),
    {
        let name = match platform {
            Platform::Node => {
                let mut name = "FoundryVTT-Node-".to_owned();
                release.push_to(&mut name);
                name.append(".zip");
                name
            },
            Platform::Linux => release.archive_name(),
        };
        join(self.root.as_str(), name.as_str())
    }

    /// The path of an archive's provenance in the cache.
    pub fn metadata_path(&self, release: &ReleaseId, platform: Platform) -> (r: String)
        ensures
            r@ == crate::paths::joined(self.directory(), metadata_file(*release, platform)),
    {
        let mut name = "foundryvtt-".to_owned();
        release.push_to(&mut name);
        name.append("-");
        name.append(platform_name(platform));
        name.append(".json");
        join(self.root.as_str(), name.as_str())
    }

    /// The cached archive of a release, under the usual size limit. `found` is
    /// what the cache holds under the names of the release, if it holds both
    /// files.
    pub fn get(&self, release: &ReleaseId, platform: Platform, found: Option<CacheEntry>) -> (r:
        Result<Option<Artifact>, FetchError>)
        ensures
            match (found, r) {
                (None, Ok(None)) => true,
                (Some(entry), Ok(Some(artifact))) => {
                    &&& entry_fault(entry, *release, platform, DEFAULT_MAX_BYTES) is None
                    &&& artifact.archive@ == crate::paths::joined(
                        self.directory(),
                        archive_file(*release, platform),
                    )
                    &&& artifact.provenance@ == filled(
                        entry.provenance@,
                        content_hash(entry.archive.contents@),
                        entry.archive.len,
                    )
                },
                (Some(entry), Err(e)) => entry_fault(entry, *release, platform, DEFAULT_MAX_BYTES)
                    == Some(e@),
                _ => false,
            },
    {
        self.get_with_max(release, platform, DEFAULT_MAX_BYTES, found)
    }

    /// The cached archive of a release. `found` is what the cache holds under
    /// the names of the release, if it holds both files.
    pub fn get_with_max(
        &self,
        release: &ReleaseId,
        platform: Platform,
        max_bytes: u64,
        found: Option<CacheEntry>,
    ) -> (r: Result<Option<Artifact>, FetchError>)
        ensures
            match (found, r) {
                (None, Ok(None)) => true,
                (Some(entry), Ok(Some(artifact))) => {
                    &&& entry_fault(entry, *release, platform, max_bytes) is None
                    &&& artifact.archive@ == crate::paths::joined(
                        self.directory(),
                        archive_file(*release, platform),
                    )
                    &&& artifact.provenance@ == filled(
                        entry.provenance@,
                        content_hash(entry.archive.contents@),
                        entry.archive.len,
                    )
                },
                (Some(entry), Err(e)) => entry_fault(entry, *release, platform, max_bytes) == Some(
                    e@,
                ),
                _ => false,
            },
    {
        let entry = match found {
            Some(entry) => entry,
            None => return Ok(None),
        };
        if entry.provenance.release != *release || entry.provenance.platform != platform {
            return Err(
                FetchError::InvalidArchive(
                    "cache provenance does not match requested release".to_owned(),
                ),
            );
        }
        let (sha256, size) = match validate_archive(&entry.archive, release, max_bytes) {
            Ok(found) => found,
            Err(e) => return Err(e),
        };
        match complete_provenance(entry.provenance, sha256.as_str(), size) {
            Ok(provenance) => Ok(
                Some(Artifact { archive: self.path_for(release, platform), provenance }),
            ),
            Err(e) => Err(e),
        }
    }

    /// What is put into the cache for an archive that was acquired at `now`:
    /// the path that it is copied to, and the provenance that is written
    /// beside it.
    pub fn put(
        &self,
        release: &ReleaseId,
        platform: Platform,
        source: SourceKind,
        input: &ArchiveInput,
        max_bytes: u64,
        now: u64,
    ) -> (r: Result<Artifact, FetchError>)
        ensures
            match r {
                Ok(artifact) => {
                    &&& crate::archive::archive_fault(*input, *release, max_bytes) is None
                    &&& artifact.archive@ == crate::paths::joined(
                        self.directory(),
                        archive_file(*release, platform),
                    )
                    &&& artifact.provenance@ == new_record(
                        *release,
                        platform,
                        source,
                        input.contents@,
                        input.len,
                        now,
                    )
                },
                Err(e) => crate::archive::archive_fault(*input, *release, max_bytes) == Some(e@),
            },
    {
        let (sha256, size) = match validate_archive(input, release, max_bytes) {
            Ok(found) => found,
            Err(e) => return Err(e),
        };
        proof {
            crate::digest::lemma_hex_reads_back(crate::digest::sha256(input.contents@));
        }
        let nix_sri = match nix_sri_from_hex(sha256.as_str()) {
            Ok(sri) => sri,
            Err(e) => return Err(e),
        };
        let provenance = Provenance {
            release: *release,
            platform,
            source,
            sha256,
            nix_sri,
            size,
            acquired_at: acquired_text(now, rfc3339_text(now as i64)),
            acquired_at_unix: now,
        };
        Ok(Artifact { archive: self.path_for(release, platform), provenance })
    }
}

/// What is put into the cache for an archive that the caller already has.
pub fn acquire_archive(
    cache: &Cache,
    release: &ReleaseId,
    archive: &ArchiveInput,
    platform: Platform,
    max_bytes: u64,
    now: u64,
) -> (r: Result<Artifact, FetchError>)
    ensures
        match r {
            Ok(artifact) => {
                &&& crate::archive::archive_fault(*archive, *release, max_bytes) is None
                &&& artifact.archive@ == crate::paths::joined(
                    cache.directory(),
                    archive_file(*release, platform),
                )
                &&& artifact.provenance@ == new_record(
                    *release,
                    platform,
                    SourceKind::PreAcquiredArchive,
                    archive.contents@,
                    archive.len,
                    now,
                )
            },
            Err(e) => crate::archive::archive_fault(*archive, *release, max_bytes) == Some(e@),
        },
{
    cache.put(release, platform, SourceKind::PreAcquiredArchive, archive, max_bytes, now)
}

/// What was put into the cache is found there again: an entry that holds the
/// provenance that was written and the archive that was copied is accepted,
/// and its provenance comes back unchanged.
pub proof fn lemma_put_is_found(
    input: ArchiveInput,
    entry: CacheEntry,
    release: ReleaseId,
    platform: Platform,
    source: SourceKind,
    max_bytes: u64,
    now: u64,
)
    requires
        crate::archive::archive_fault(input, release, max_bytes) is None,
        entry.provenance@ == new_record(
            release,
            platform,
            source,
            input.contents@,
            input.len,
            now,
        ),
        entry.archive.regular,
        entry.archive.len == input.len,
        entry.archive.contents@ == input.contents@,
    ensures
        entry_fault(entry, release, platform, max_bytes) is None,
        filled(entry.provenance@, content_hash(entry.archive.contents@), entry.archive.len)
            == entry.provenance@,
{
    reveal_strlit("sha256-");
    assert(entry.provenance@.nix_sri.len() > 0);
    assert(entry.provenance.release == release && entry.provenance.platform == platform);
}

/// Nothing else is found: what the cache hands out names the release and the
/// platform that were asked for, and the digest and the size of the archive as
/// it is now. The SRI hash is that of the archive too, where the provenance left
/// it open; one that the provenance gives is handed out as it stands.
pub proof fn lemma_found_is_exact(
    entry: CacheEntry,
    release: ReleaseId,
    platform: Platform,
    max_bytes: u64,
)
    requires
        entry_fault(entry, release, platform, max_bytes) is None,
    ensures
        ({
            let hash = content_hash(entry.archive.contents@);
            let record = filled(entry.provenance@, hash, entry.archive.len);
            &&& record.release == release
            &&& record.platform == platform
            &&& record.sha256 == hash
            &&& record.size == entry.archive.len
            &&& entry.archive.len <= max_bytes
            &&& record.nix_sri == if entry.provenance@.nix_sri.len() == 0 {
                crate::digest::sri_text(crate::digest::sha256(entry.archive.contents@))
            } else {
                entry.provenance@.nix_sri
            }
        }),
        crate::archive::source_fault(entry.archive.contents@, release, max_bytes) is None,
{
    assert(entry.provenance@.release == entry.provenance.release);
    assert(entry.provenance@.platform == entry.provenance.platform);
    crate::digest::lemma_hex_reads_back(crate::digest::sha256(entry.archive.contents@));
}

/// Joined to the same directory, different file names give different paths.
proof fn lemma_joined_is_unique(base: Seq<char>, a: Seq<char>, b: Seq<char>)
    requires
        !crate::paths::is_absolute(a),
        !crate::paths::is_absolute(b),
        crate::paths::joined(base, a) == crate::paths::joined(base, b),
    ensures
        a == b,
{
    if base.len() > 0 {
        let front = if base.last() == '/' {
            base
        } else {
            base.push('/')
        };
        assert((front + a).skip(front.len() as int) == a);
        assert((front + b).skip(front.len() as int) == b);
    }
}

/// Text between the same beginning and the same end is told apart by the whole.
proof fn lemma_between(front: Seq<char>, a: Seq<char>, b: Seq<char>, back: Seq<char>)
    requires
        front + a + back == front + b + back,
    ensures
        a == b,
{
    let left = front + a + back;
    let right = front + b + back;
    assert(left.len() == right.len());
    assert(left.subrange(front.len() as int, (front.len() + a.len()) as int) == a);
    assert(right.subrange(front.len() as int, (front.len() + b.len()) as int) == b);
}

/// Each release has an archive path of its own for each platform.
pub proof fn lemma_archive_paths_differ(
    directory: Seq<char>,
    a: ReleaseId,
    a_platform: Platform,
    b: ReleaseId,
    b_platform: Platform,
)
    requires
        crate::paths::joined(directory, archive_file(a, a_platform)) == crate::paths::joined(
            directory,
            archive_file(b, b_platform),
        ),
    ensures
        a == b,
        a_platform == b_platform,
{
    reveal_strlit("FoundryVTT-Node-");
    reveal_strlit("FoundryVTT-Linux-");
    let x = archive_file(a, a_platform);
    let y = archive_file(b, b_platform);
    assert(x[0] == 'F' && y[0] == 'F');
    lemma_joined_is_unique(directory, x, y);
    assert(a_platform == Platform::Node ==> x[11] == 'N');
    assert(a_platform == Platform::Linux ==> x[11] == 'L');
    assert(b_platform == Platform::Node ==> y[11] == 'N');
    assert(b_platform == Platform::Linux ==> y[11] == 'L');
    assert(a_platform == b_platform);
    let front = if a_platform == Platform::Node {
        "FoundryVTT-Node-"@
    } else {
        "FoundryVTT-Linux-"@
    };
    lemma_between(front, a.shown(), b.shown(), ".zip"@);
    crate::release::lemma_shown_is_unique(a, b);
}

/// Each release has a provenance path of its own for each platform.
pub proof fn lemma_metadata_paths_differ(
    directory: Seq<char>,
    a: ReleaseId,
    a_platform: Platform,
    b: ReleaseId,
    b_platform: Platform,
)
    requires
        crate::paths::joined(directory, metadata_file(a, a_platform)) == crate::paths::joined(
            directory,
            metadata_file(b, b_platform),
        ),
    ensures
        a == b,
        a_platform == b_platform,
{
    reveal_strlit("foundryvtt-");
    reveal_strlit("-");
    reveal_strlit("node");
    reveal_strlit("linux");
    reveal_strlit(".json");
    let x = metadata_file(a, a_platform);
    let y = metadata_file(b, b_platform);
    assert(x[0] == 'f' && y[0] == 'f');
    lemma_joined_is_unique(directory, x, y);
    let n = x.len() as int;
    assert(a_platform == Platform::Node ==> x[n - 6] == 'e');
    assert(a_platform == Platform::Linux ==> x[n - 6] == 'x');
    assert(b_platform == Platform::Node ==> y[n - 6] == 'e');
    assert(b_platform == Platform::Linux ==> y[n - 6] == 'x');
    assert(a_platform == b_platform);
    let back = "-"@ + crate::release::platform_word(a_platform) + ".json"@;
    assert(x == "foundryvtt-"@ + a.shown() + back);
    assert(y == "foundryvtt-"@ + b.shown() + back);
    lemma_between("foundryvtt-"@, a.shown(), b.shown(), back);
    crate::release::lemma_shown_is_unique(a, b);
}

/// A provenance is accepted exactly where the digest and the size that it gives,
/// if it gives them, are those of the archive, and an SRI text is given or can
/// be made of the digest.
pub proof fn lemma_accepted_provenance(record: Record, sha256: Seq<char>, size: u64)
    ensures
        provenance_fault(record, sha256, size) is None <==> {
            &&& record.sha256 == sha256 || record.sha256 == Seq::<char>::empty()
            &&& record.size == size || record.size == 0
            &&& record.nix_sri.len() > 0 || (crate::digest::hex_bytes(sha256) is Some
                && crate::digest::hex_bytes(sha256)->0.len() == 32)
        },
        record.sha256.len() > 0 && record.sha256 != sha256 ==> provenance_fault(
            record,
            sha256,
            size,
        ) == Some(Fault::InvalidArchive("cache checksum does not match metadata"@)),
        (record.sha256 == sha256 || record.sha256.len() == 0) && record.size != 0 && record.size
            != size ==> provenance_fault(record, sha256, size) == Some(
            Fault::InvalidArchive("cache size does not match metadata"@),
        ),
{
    if record.sha256.len() == 0 {
        assert(record.sha256 == Seq::<char>::empty());
    }
}

/// A provenance that leaves digest, SRI text and size open is filled in from the
/// archive; what it gives, and the rest of it, stays.
pub proof fn lemma_filled_provenance(record: Record, contents: Seq<u8>, size: u64)
    requires
        crate::digest::sha256(contents).len() == 32,
    ensures
        ({
            let done = filled(record, content_hash(contents), size);
            &&& record.sha256.len() == 0 ==> done.sha256 == crate::digest::hex_text(
                crate::digest::sha256(contents),
            )
            &&& record.sha256.len() > 0 ==> done.sha256 == record.sha256
            &&& record.nix_sri.len() == 0 ==> done.nix_sri == "sha256-"@
                + crate::digest::base64_text(crate::digest::sha256(contents))
            &&& record.nix_sri.len() > 0 ==> done.nix_sri == record.nix_sri
            &&& record.size == 0 ==> done.size == size
            &&& record.size > 0 ==> done.size == record.size
            &&& done.release == record.release
            &&& done.platform == record.platform
            &&& done.source == record.source
            &&& done.acquired_at == record.acquired_at
            &&& done.acquired_at_unix == record.acquired_at_unix
        }),
        record.sha256.len() == 0 && record.size == 0 ==> provenance_fault(
            record,
            content_hash(contents),
            size,
        ) is None,
{
    crate::digest::lemma_hex_reads_back(crate::digest::sha256(contents));
}

/// An entry of the cache is accepted exactly where its provenance names the
/// release and the platform, the archive is good for the release, and the
/// provenance agrees with the archive.
pub proof fn lemma_accepted_entries(
    entry: CacheEntry,
    release: ReleaseId,
    platform: Platform,
    max_bytes: u64,
)
    ensures
        entry_fault(entry, release, platform, max_bytes) is None <==> {
            &&& entry.provenance.release == release
            &&& entry.provenance.platform == platform
            &&& crate::archive::archive_fault(entry.archive, release, max_bytes) is None
            &&& provenance_fault(
                entry.provenance@,
                crate::digest::hex_text(crate::digest::sha256(entry.archive.contents@)),
                entry.archive.len,
            ) is None
        },
        entry.provenance.release != release || entry.provenance.platform != platform
            ==> entry_fault(entry, release, platform, max_bytes) == Some(
            Fault::InvalidArchive("cache provenance does not match requested release"@),
        ),
{
}

/// The names under which a release is kept.
pub proof fn lemma_cache_names(release: ReleaseId)
    ensures
        archive_file(release, Platform::Node) == "FoundryVTT-Node-"@ + release.shown() + ".zip"@,
        archive_file(release, Platform::Linux) == "FoundryVTT-Linux-"@ + release.shown()
            + ".zip"@,
        metadata_file(release, Platform::Node) == "foundryvtt-"@ + release.shown()
            + "-node.json"@,
        metadata_file(release, Platform::Linux) == "foundryvtt-"@ + release.shown()
            + "-linux.json"@,
        crate::release::release_of(archive_file(release, Platform::Linux)) == Some(release),
{
    reveal_strlit("-");
    reveal_strlit("node");
    reveal_strlit("linux");
    reveal_strlit(".json");
    reveal_strlit("-node.json");
    reveal_strlit("-linux.json");
    crate::release::lemma_archive_name_reads_back(release);
}

/// What is recorded of an archive is where it came from, its size, its digest in
/// both forms, and when it was acquired, as a number and as a text that is the
/// number where the time has no other.
pub proof fn lemma_recorded(
    release: ReleaseId,
    platform: Platform,
    source: SourceKind,
    contents: Seq<u8>,
    size: u64,
    now: u64,
)
    ensures
        ({
            let record = new_record(release, platform, source, contents, size, now);
            &&& record.release == release
            &&& record.platform == platform
            &&& record.source == source
            &&& record.size == size
            &&& record.acquired_at_unix == now
            &&& record.sha256 == crate::digest::hex_text(crate::digest::sha256(contents))
            &&& record.nix_sri == "sha256-"@ + crate::digest::base64_text(
                crate::digest::sha256(contents),
            )
            &&& crate::digest::hex_bytes(record.sha256) == Some(crate::digest::sha256(contents))
            &&& rfc3339(now as i64) is Some ==> record.acquired_at == rfc3339(now as i64)->0
            &&& rfc3339(now as i64) is None ==> record.acquired_at == crate::text::decimal(
                now as nat,
            )
        }),
{
    crate::digest::lemma_hex_reads_back(crate::digest::sha256(contents));
}

/// An archive and its provenance are kept in the directory of the cache, under
/// the names of the release.
pub proof fn lemma_cache_paths(
    cache: &Cache,
    release: &ReleaseId,
    platform: Platform,
    archive: String,
    metadata: String,
)
    requires
        call_ensures(Cache::path_for, (cache, release, platform), archive),
        call_ensures(Cache::metadata_path, (cache, release, platform), metadata),
    ensures
        platform is Linux ==> archive@ == crate::paths::joined(
            cache.directory(),
            "FoundryVTT-Linux-"@ + release.shown() + ".zip"@,
        ),
        platform is Node ==> archive@ == crate::paths::joined(
            cache.directory(),
            "FoundryVTT-Node-"@ + release.shown() + ".zip"@,
        ),
        platform is Linux ==> metadata@ == crate::paths::joined(
            cache.directory(),
            "foundryvtt-"@ + release.shown() + "-linux.json"@,
        ),
        platform is Node ==> metadata@ == crate::paths::joined(
            cache.directory(),
            "foundryvtt-"@ + release.shown() + "-node.json"@,
        ),
{
    lemma_cache_names(*release);
}

}
