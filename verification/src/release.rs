//! Release identifiers and the names that are made from them.
use vstd::prelude::*;

use crate::error::{FetchError, Fault};
use crate::text::{
    chars_of, ends_with, find_char, has_char, parse_unsigned, push_decimal, quoted, same_but_case,
    skipped, starts_with, string_of, taken, trimmed,
};

verus! {

/// Foundry's channel-independent major/build release identifier.
#[derive(Debug, Clone, Copy, PartialEq, Eq, Structural)]
pub struct ReleaseId {
    pub major: u16,
    pub build: u32,
}

#[derive(Debug, Clone, Copy, PartialEq, Eq, Structural)]
pub enum Platform {
    Node,
    Linux,
}

#[derive(Debug, Clone, Copy, PartialEq, Eq, Structural)]
pub enum SourceKind {
    LicensedAccount,
    PreAcquiredArchive,
    SignedUrl,
}

/// What is left of a release name once white space is trimmed and the archive
/// prefix and suffix are taken off. A name without the suffix keeps its prefix.
pub open spec fn release_stem(value: Seq<char>) -> Seq<char> {
    let name = crate::text::trim(value);
    let body = if "FoundryVTT-Linux-"@.is_prefix_of(name) {
        name.skip("FoundryVTT-Linux-"@.len() as int)
    } else if "FoundryVTT-"@.is_prefix_of(name) {
        name.skip("FoundryVTT-"@.len() as int)
    } else {
        name
    };
    if ".zip"@.is_suffix_of(body) {
        body.take(body.len() - ".zip"@.len())
    } else {
        name
    }
}

/// The major and build parts of a stem. In a version with build metadata they
/// are what stands before the first dot and behind the first plus sign;
/// otherwise what stands before and behind the first dot.
pub open spec fn release_parts(stem: Seq<char>) -> Option<(Seq<char>, Seq<char>)> {
    match crate::text::split_once(stem, '+') {
        Some((version, build)) => Some(
            (version.take(crate::text::position(version, '.')), build),
        ),
        None => crate::text::split_once(stem, '.'),
    }
}

/// The release that a name stands for.
pub open spec fn release_of(value: Seq<char>) -> Option<ReleaseId> {
    match release_parts(release_stem(value)) {
        Some((major, build)) => if build.contains('.') {
            None
        } else {
            match (
                crate::text::unsigned(major, u16::MAX as nat),
                crate::text::unsigned(build, u32::MAX as nat),
            ) {
                (Some(m), Some(b)) => Some(ReleaseId { major: m as u16, build: b as u32 }),
                _ => None,
            }
        },
        None => None,
    }
}

impl ReleaseId {
    /// A release as it is shown: `major.build`.
    pub open spec fn shown(self) -> Seq<char> {
        crate::text::decimal(self.major as nat) + "."@ + crate::text::decimal(self.build as nat)
    }

    pub open spec fn linux_name(self) -> Seq<char> {
        "FoundryVTT-Linux-"@ + self.shown() + ".zip"@
    }

    /// Reads a release name: `13.351`, `14.0.0+412`, or an archive name.
    pub fn parse(value: &str) -> (r: Result<ReleaseId, FetchError>)
        ensures
            match r {
                Ok(release) => release_of(value@) == Some(release),
                Err(e) => release_of(value@) is None && e@ == Fault::InvalidRelease(
                    release_stem(value@),
                ),
            },
    {
        let chars = chars_of(value);
        let name = trimmed(chars.as_slice());
        let linux = chars_of("FoundryVTT-Linux-");
        let plain = chars_of("FoundryVTT-");
        let zip = chars_of(".zip");
        let body = if starts_with(name, linux.as_slice()) {
            skipped(name, linux.len())
        } else if starts_with(name, plain.as_slice()) {
            skipped(name, plain.len())
        } else {
            name
        };
        let stem = if ends_with(body, zip.as_slice()) {
            taken(body, body.len() - zip.len())
        } else {
            name
        };
        assert(stem@ == release_stem(value@));
        let plus: usize = find_char(stem, '+');
        let dot: usize = find_char(stem, '.');
        let (major, build) = if plus < stem.len() {
            let version = taken(stem, plus);
            (taken(version, find_char(version, '.')), skipped(stem, plus + 1))
        } else if dot < stem.len() {
            (taken(stem, dot), skipped(stem, dot + 1))
        } else {
            return Err(FetchError::InvalidRelease(string_of(stem)));
        };
        assert(release_parts(stem@) == Some((major@, build@)));
        if has_char(build, '.') {
            return Err(FetchError::InvalidRelease(string_of(stem)));
        }
        match (
            parse_unsigned(major, u16::MAX as u64),
            parse_unsigned(build, u32::MAX as u64),
        ) {
            (Some(m), Some(b)) => Ok(ReleaseId { major: m as u16, build: b as u32 }),
            _ => Err(FetchError::InvalidRelease(string_of(stem))),
        }
    }

    /// Writes the release as `major.build`.
    pub fn push_to(&self, out: &mut String)
        ensures
            final(out)@ == old(out)@ + self.shown(),
    {
        push_decimal(out, self.major as u64);
        out.append(".");
        push_decimal(out, self.build as u64);
    }

    /// The release as `major.build`.
    pub fn display(&self) -> (r: String)
        ensures
            r@ == self.shown(),
    {
        let mut out = String::new();
        self.push_to(&mut out);
        out
    }

    pub fn archive_name(&self) -> (r: String)
        ensures
            r@ == self.linux_name(),
    {
        let mut out = String::new();
        out.append("FoundryVTT-Linux-");
        self.push_to(&mut out);
        out.append(".zip");
        out
    }
}

/// A text that begins and ends with a digit is a stem as it stands.
proof fn lemma_digit_ends_stem(s: Seq<char>)
    requires
        s.len() > 0,
        crate::text::is_digit(s[0]),
        crate::text::is_digit(s.last()),
    ensures
        release_stem(s) == s,
{
    reveal_strlit("FoundryVTT-Linux-");
    reveal_strlit("FoundryVTT-");
    reveal_strlit(".zip");
    crate::text::lemma_trim_nothing(s);
    if "FoundryVTT-Linux-"@.is_prefix_of(s) {
        assert(s[0] == "FoundryVTT-Linux-"@[0]);
    }
    if "FoundryVTT-"@.is_prefix_of(s) {
        assert(s[0] == "FoundryVTT-"@[0]);
    }
    if ".zip"@.is_suffix_of(s) {
        assert(s.last() == ".zip"@.last());
    }
}

/// Two runs of digits with a dot between them are the parts of a release.
proof fn lemma_dotted_parts(major: Seq<char>, build: Seq<char>)
    requires
        crate::text::all_digits(major),
        crate::text::all_digits(build),
    ensures
        release_parts(major + "."@ + build) == Some((major, build)),
        !build.contains('.'),
{
    reveal_strlit(".");
    let s = major + "."@ + build;
    assert forall|i: int| 0 <= i < s.len() && i != major.len() implies crate::text::is_digit(
        #[trigger] s[i],
    ) by {
        if i < major.len() {
            assert(s[i] == major[i]);
        } else {
            assert(s[i] == build[i - major.len() - 1]);
        }
    }
    assert(s[major.len() as int] == '.');
    crate::text::lemma_position_is(s, '+', s.len() as int);
    crate::text::lemma_position_is(s, '.', major.len() as int);
    assert(s.take(major.len() as int) == major);
    assert(s.skip(major.len() as int + 1) == build);
}

/// What is shown of a release reads back as that release.
pub proof fn lemma_shown_reads_back(release: ReleaseId)
    ensures
        release_of(release.shown()) == Some(release),
{
    let major = crate::text::decimal(release.major as nat);
    let build = crate::text::decimal(release.build as nat);
    crate::text::lemma_decimal_reads_back(release.major as nat);
    crate::text::lemma_decimal_reads_back(release.build as nat);
    lemma_dotted_parts(major, build);
    let s = release.shown();
    assert(s[0] == major[0]);
    assert(s.last() == build.last());
    lemma_digit_ends_stem(s);
}

/// The name of a release's Linux archive reads back as that release.
pub proof fn lemma_archive_name_reads_back(release: ReleaseId)
    ensures
        release_of(release.linux_name()) == Some(release),
{
    reveal_strlit("FoundryVTT-Linux-");
    reveal_strlit(".zip");
    let major = crate::text::decimal(release.major as nat);
    let build = crate::text::decimal(release.build as nat);
    crate::text::lemma_decimal_reads_back(release.major as nat);
    crate::text::lemma_decimal_reads_back(release.build as nat);
    lemma_dotted_parts(major, build);
    let name = release.linux_name();
    assert(name[0] == "FoundryVTT-Linux-"@[0]);
    assert(name.last() == ".zip"@.last());
    crate::text::lemma_trim_nothing(name);
    assert("FoundryVTT-Linux-"@.is_prefix_of(name));
    let body = name.skip("FoundryVTT-Linux-"@.len() as int);
    assert(body == release.shown() + ".zip"@);
    assert(".zip"@.is_suffix_of(body));
    assert(body.take(body.len() - ".zip"@.len()) == release.shown());
}

/// In a version with build metadata only the major number and the build count.
pub proof fn lemma_build_metadata(release: ReleaseId, minor: Seq<char>)
    requires
        !minor.contains('+'),
    ensures
        release_of(
            crate::text::decimal(release.major as nat) + "."@ + minor + "+"@
                + crate::text::decimal(release.build as nat),
        ) == Some(release),
{
    reveal_strlit(".");
    reveal_strlit("+");
    let major = crate::text::decimal(release.major as nat);
    let build = crate::text::decimal(release.build as nat);
    crate::text::lemma_decimal_reads_back(release.major as nat);
    crate::text::lemma_decimal_reads_back(release.build as nat);
    let version = major + "."@ + minor;
    let s = version + "+"@ + build;
    assert(s[0] == major[0]);
    assert(s.last() == build.last());
    lemma_digit_ends_stem(s);
    assert forall|i: int| 0 <= i < version.len() implies version[i] != '+' by {
        if i < major.len() {
            assert(version[i] == major[i]);
            assert(crate::text::is_digit(major[i]));
        } else if i > major.len() {
            assert(version[i] == minor[i - major.len() - 1]);
        }
    }
    assert forall|i: int| 0 <= i < version.len() implies s[i] != '+' by {
        assert(s[i] == version[i]);
    }
    crate::text::lemma_position_is(s, '+', version.len() as int);
    assert(s.take(version.len() as int) == version);
    assert(s.skip(version.len() as int + 1) == build);
    assert forall|i: int| 0 <= i < major.len() implies version[i] != '.' by {
        assert(version[i] == major[i]);
        assert(crate::text::is_digit(major[i]));
    }
    crate::text::lemma_position_is(version, '.', major.len() as int);
    assert(version.take(major.len() as int) == major);
    assert(!build.contains('.')) by {
        if build.contains('.') {
            let i = choose|i: int| 0 <= i < build.len() && build[i] == '.';
            assert(crate::text::is_digit(build[i]));
        }
    }
}

/// White space around a release name does not matter.
pub proof fn lemma_release_padding(before: Seq<char>, name: Seq<char>, after: Seq<char>)
    requires
        forall|i: int| 0 <= i < before.len() ==> crate::text::is_white(#[trigger] before[i]),
        forall|i: int| 0 <= i < after.len() ==> crate::text::is_white(#[trigger] after[i]),
    ensures
        release_of(before + name + after) == release_of(name),
        release_stem(before + name + after) == release_stem(name),
{
    crate::text::lemma_trim_padding(before, name, after);
}

/// Different releases are shown differently.
pub proof fn lemma_shown_is_unique(a: ReleaseId, b: ReleaseId)
    requires
        a.shown() == b.shown(),
    ensures
        a == b,
{
    lemma_shown_reads_back(a);
    lemma_shown_reads_back(b);
}

impl Default for Platform {
    fn default() -> (r: Platform)
        ensures
            r == Platform::Node,
    {
        Platform::Node
    }
}

/// The word for a platform in file names and requests.
pub open spec fn platform_word(platform: Platform) -> Seq<char> {
    match platform {
        Platform::Node => "node"@,
        Platform::Linux => "linux"@,
    }
}

pub fn platform_name(platform: Platform) -> (r: &'static str)
    ensures
        r@ == platform_word(platform),
{
    match platform {
        Platform::Node => "node",
        Platform::Linux => "linux",
    }
}

/// The platform that the command line names. Only `node`, in any case, is
/// offered there.
pub fn parse_platform(value: &str) -> (r: Result<Platform, String>)
    ensures
        match r {
            Ok(platform) => platform == Platform::Node && crate::text::same_ignoring_case(
                value@,
                "node"@,
            ),
            Err(message) => !crate::text::same_ignoring_case(value@, "node"@) && message@
                == "unsupported platform "@ + crate::text::debug_text(value@)
                + "; only node is supported"@,
        },
{
    let chars = chars_of(value);
    let node = chars_of("node");
    if same_but_case(chars.as_slice(), node.as_slice()) {
        Ok(Platform::Node)
    } else {
        let mut message = "unsupported platform ".to_owned();
        message.append(quoted(value).as_str());
        message.append("; only node is supported");
        Err(message)
    }
}

/// An archive's name stands for what stands between its prefix and its suffix,
/// with either prefix or with none, as long as that begins and ends with a digit.
pub proof fn lemma_archive_names(s: Seq<char>)
    requires
        s.len() > 0,
        '0' <= s[0] <= '9',
        '0' <= s.last() <= '9',
    ensures
        release_stem(s) == s,
        release_stem(s + ".zip"@) == s,
        release_stem("FoundryVTT-"@ + s + ".zip"@) == s,
        release_stem("FoundryVTT-Linux-"@ + s + ".zip"@) == s,
        release_of(s + ".zip"@) == release_of(s),
        release_of("FoundryVTT-"@ + s + ".zip"@) == release_of(s),
        release_of("FoundryVTT-Linux-"@ + s + ".zip"@) == release_of(s),
{
    reveal_strlit("FoundryVTT-Linux-");
    reveal_strlit("FoundryVTT-");
    reveal_strlit(".zip");
    lemma_digit_ends_stem(s);
    let bare = s + ".zip"@;
    assert(bare[0] == s[0]);
    assert(bare.last() == 'p');
    crate::text::lemma_trim_nothing(bare);
    if "FoundryVTT-Linux-"@.is_prefix_of(bare) {
        assert(bare[0] == "FoundryVTT-Linux-"@[0]);
    }
    if "FoundryVTT-"@.is_prefix_of(bare) {
        assert(bare[0] == "FoundryVTT-"@[0]);
    }
    assert(".zip"@.is_suffix_of(bare));
    assert(bare.take(bare.len() - 4) == s);
    let plain = "FoundryVTT-"@ + s + ".zip"@;
    assert(plain[0] == 'F');
    assert(plain.last() == 'p');
    crate::text::lemma_trim_nothing(plain);
    if "FoundryVTT-Linux-"@.is_prefix_of(plain) {
        assert(plain[11] == "FoundryVTT-Linux-"@[11]);
        assert(plain[11] == s[0]);
    }
    assert("FoundryVTT-"@.is_prefix_of(plain));
    assert(plain.skip(11) == bare);
    let linux = "FoundryVTT-Linux-"@ + s + ".zip"@;
    assert(linux[0] == 'F');
    assert(linux.last() == 'p');
    crate::text::lemma_trim_nothing(linux);
    assert("FoundryVTT-Linux-"@.is_prefix_of(linux));
    assert(linux.skip(17) == bare);
}

/// The name of a release's plain archive reads back as that release, and so does
/// the name without a prefix.
pub proof fn lemma_plain_archive_name_reads_back(release: ReleaseId)
    ensures
        release_of("FoundryVTT-"@ + release.shown() + ".zip"@) == Some(release),
        release_of(release.shown() + ".zip"@) == Some(release),
{
    let major = crate::text::decimal(release.major as nat);
    let build = crate::text::decimal(release.build as nat);
    crate::text::lemma_decimal_reads_back(release.major as nat);
    crate::text::lemma_decimal_reads_back(release.build as nat);
    let s = release.shown();
    assert(s[0] == major[0] && crate::text::is_digit(major[0]));
    assert(s.last() == build.last() && crate::text::is_digit(build[build.len() - 1]));
    lemma_archive_names(s);
    lemma_shown_reads_back(release);
}

/// A text that begins with no digit is no major number.
proof fn lemma_letter_is_no_number(s: Seq<char>, max: nat)
    requires
        s.len() > 0,
        s[0] == 'F',
    ensures
        crate::text::unsigned(s, max) is None,
{
    crate::text::lemma_unsigned(s, 0, max);
}

/// An archive's prefix without its suffix stands for no release, and is kept in
/// what is said of it.
pub proof fn lemma_prefix_needs_suffix(s: Seq<char>)
    requires
        s.len() > 0,
        '0' <= s.last() <= '9',
    ensures
        release_stem("FoundryVTT-"@ + s) == "FoundryVTT-"@ + s,
        release_of("FoundryVTT-"@ + s) is None,
        release_stem("FoundryVTT-Linux-"@ + s) == "FoundryVTT-Linux-"@ + s,
        release_of("FoundryVTT-Linux-"@ + s) is None,
{
    lemma_prefixed_name("FoundryVTT-"@, s);
    lemma_prefixed_name("FoundryVTT-Linux-"@, s);
}

proof fn lemma_prefixed_name(prefix: Seq<char>, s: Seq<char>)
    requires
        prefix == "FoundryVTT-"@ || prefix == "FoundryVTT-Linux-"@,
        s.len() > 0,
        '0' <= s.last() <= '9',
    ensures
        release_stem(prefix + s) == prefix + s,
        release_of(prefix + s) is None,
{
    reveal_strlit("FoundryVTT-Linux-");
    reveal_strlit("FoundryVTT-");
    reveal_strlit(".zip");
    let name = prefix + s;
    assert(name[0] == 'F');
    assert(name.last() == s.last());
    crate::text::lemma_trim_nothing(name);
    let body = if "FoundryVTT-Linux-"@.is_prefix_of(name) {
        name.skip(17)
    } else {
        name.skip(11)
    };
    assert("FoundryVTT-"@.is_prefix_of(name)) by {
        assert(name.take(11) == "FoundryVTT-"@);
    }
    if ".zip"@.is_suffix_of(body) {
        assert(body.last() == ".zip"@.last());
        assert(body.last() == name.last());
    }
    if ".zip"@.is_suffix_of(name) {
        assert(name.last() == ".zip"@.last());
    }
    assert(release_stem(name) == name);
    crate::text::lemma_position(name, '+');
    crate::text::lemma_position(name, '.');
    match release_parts(name) {
        Some((major, build)) => {
            let plus = crate::text::position(name, '+');
            if plus < name.len() {
                let version = name.take(plus);
                crate::text::lemma_position(version, '.');
                assert(version[0] == 'F');
                assert(major[0] == version[0]);
            } else {
                assert(major[0] == name[0]);
            }
            lemma_letter_is_no_number(major, u16::MAX as nat);
        },
        None => {},
    }
}

/// Two numbers with a dot between them are a release exactly where they are
/// small enough for a major number and a build.
pub proof fn lemma_release_numbers(major: nat, build: nat)
    ensures
        release_of(crate::text::decimal(major) + "."@ + crate::text::decimal(build)) == if major
            <= 65_535 && build <= 4_294_967_295 {
            Some(ReleaseId { major: major as u16, build: build as u32 })
        } else {
            None
        },
{
    let m = crate::text::decimal(major);
    let b = crate::text::decimal(build);
    crate::text::lemma_decimal_reads_back(major);
    crate::text::lemma_decimal_reads_back(build);
    lemma_dotted_parts(m, b);
    let s = m + "."@ + b;
    assert(s[0] == m[0]);
    assert(s.last() == b.last());
    lemma_digit_ends_stem(s);
    crate::text::lemma_unsigned(m, major, 65_535);
    crate::text::lemma_unsigned(b, build, 4_294_967_295);
}

/// What holds neither a dot nor a plus sign is no release, and neither is what
/// holds two dots and no plus sign.
pub proof fn lemma_release_has_two_parts(s: Seq<char>)
    requires
        s.len() > 0,
        '0' <= s[0] <= '9',
        '0' <= s.last() <= '9',
        !s.contains('+'),
    ensures
        release_of(s) is Some ==> s.contains('.'),
        forall|i: int, j: int|
            0 <= i < j < s.len() && #[trigger] s[i] == '.' && #[trigger] s[j] == '.' ==> release_of(
                s,
            ) is None,
{
    lemma_digit_ends_stem(s);
    crate::text::lemma_position(s, '+');
    crate::text::lemma_position(s, '.');
    let p = crate::text::position(s, '.');
    assert(release_of(s) is Some ==> s.contains('.')) by {
        if p < s.len() {
            assert(s[p] == '.');
        }
    }
    assert forall|i: int, j: int|
        0 <= i < j < s.len() && #[trigger] s[i] == '.' && #[trigger] s[j] == '.' implies release_of(
        s,
    ) is None by {
        let build = s.skip(p + 1);
        assert(build[j - p - 1] == '.');
        assert(build.contains('.'));
    }
}

/// The words for the platforms.
pub proof fn lemma_platform_words(platform: Platform)
    ensures
        platform is Node <==> platform_word(platform) == "node"@,
        platform is Linux <==> platform_word(platform) == "linux"@,
{
    reveal_strlit("node");
    reveal_strlit("linux");
    assert("node"@.len() == 4 && "linux"@.len() == 5);
}

/// Reading an archive's name gives the release that it was made from.
pub proof fn lemma_parsed_archive_names(name: &str, r: Result<ReleaseId, FetchError>, release: ReleaseId)
    requires
        call_ensures(ReleaseId::parse, (name,), r),
        name@ == release.shown() || name@ == release.shown() + ".zip"@ || name@ == "FoundryVTT-"@
            + release.shown() + ".zip"@ || name@ == "FoundryVTT-Linux-"@ + release.shown()
            + ".zip"@,
    ensures
        r == Ok::<ReleaseId, FetchError>(release),
{
    lemma_shown_reads_back(release);
    lemma_plain_archive_name_reads_back(release);
    lemma_archive_name_reads_back(release);
}

/// Only `node` is read as a platform, in capitals or not.
pub proof fn lemma_parsed_platforms(value: &str, r: Result<Platform, String>)
    requires
        call_ensures(parse_platform, (value,), r),
    ensures
        r is Ok <==> value@.len() == 4 && forall|i: int|
            0 <= i < 4 ==> (#[trigger] value@[i] == "node"@[i] || ('A' <= value@[i] <= 'Z' && value@[i]
                as int + 32 == "node"@[i] as int)),
        r matches Ok(platform) ==> platform is Node,
{
    reveal_strlit("node");
    crate::text::lemma_same_but_case(value@, "node"@);
    assert(forall|i: int| 0 <= i < 4 ==> 'a' <= #[trigger] "node"@[i] <= 'z');
}

}
