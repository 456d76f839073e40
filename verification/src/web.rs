//! Web addresses: which of them may be contacted, and how requests to the
//! Foundry site are addressed.
use vstd::prelude::*;

use crate::error::{Fault, FetchError};
use crate::release::{platform_name, Platform, ReleaseId};
use crate::text::{
    chars_of, decimal_text, parse_unsigned, parts, quoted, same_but_case, same_text, string_of,
    trimmed,
};

verus! {

/// An absolute URL, with the parts that decisions rest on. An IPv6 host stands
/// in brackets; the port is the one given or the usual one of the scheme.
#[derive(Debug, Clone)]
pub struct WebUrl {
    pub text: String,
    pub scheme: String,
    pub host: Option<String>,
    pub port: Option<u16>,
}

/// The content of a `WebUrl`.
pub ghost struct Address {
    pub text: Seq<char>,
    pub scheme: Seq<char>,
    pub host: Option<Seq<char>>,
    pub port: Option<u16>,
}

impl View for WebUrl {
    type V = Address;

    open spec fn view(&self) -> Address {
        Address {
            text: self.text@,
            scheme: self.scheme@,
            host: match self.host {
                Some(host) => Some(host@),
                None => None,
            },
            port: self.port,
        }
    }
}

/// The URL that `reqwest::Url` reads from a text.
pub uninterp spec fn url_of(text: Seq<char>) -> Option<Address>;

/// Calls `reqwest::Url::parse` and hands out the serialized URL, its scheme,
/// its host and its port or the known default of the scheme.
#[verifier::external_body]
fn url_parse(text: &str) -> (r: Option<WebUrl>)
    ensures
        match r {
            Some(url) => url_of(text@) == Some(url@),
            None => url_of(text@) is None,
        },
{
    let url = reqwest::Url::parse(text).ok()?;
    Some(WebUrl {
        text: url.as_str().to_owned(),
        scheme: url.scheme().to_owned(),
        host: url.host_str().map(str::to_owned),
        port: url.port_or_known_default(),
    })
}

/// The URL that a reference leads to from a base, as `reqwest::Url` resolves
/// it.
pub uninterp spec fn url_joined(base: Seq<char>, reference: Seq<char>) -> Option<Seq<char>>;

/// Calls `reqwest::Url::join`: nothing where the base is no URL or the
/// reference cannot be resolved.
#[verifier::external_body]
fn url_join(base: &str, reference: &str) -> (r: Option<String>)
    ensures
        match r {
            Some(url) => url_joined(base@, reference@) == Some(url@),
            None => url_joined(base@, reference@) is None,
        },
        url_of(base@) is None ==> r is None,
{
    Some(reqwest::Url::parse(base).ok()?.join(reference).ok()?.into())
}

/// The URL that a reference leads to from a base, with the given pairs put
/// behind its query, as `reqwest::Url` encodes them.
pub uninterp spec fn url_query(
    base: Seq<char>,
    reference: Seq<char>,
    pairs: Seq<(Seq<char>, Seq<char>)>,
) -> Option<Seq<char>>;

/// The names and values of query pairs.
pub open spec fn pair_texts(pairs: Seq<(String, String)>) -> Seq<(Seq<char>, Seq<char>)> {
    pairs.map_values(|pair: (String, String)| (pair.0@, pair.1@))
}

/// The longest text, in characters, that is made into a URL with a query. A
/// `reqwest::Url` counts its bytes in 32 bits.
pub const MAX_URL_CHARS: usize = 16_777_216;

/// Calls `extend_pairs` on the `query_pairs_mut` of a joined `reqwest::Url`:
/// there is a result exactly where the reference can be joined to the base.
/// The bounds keep the URL short enough for its 32-bit positions.
#[verifier::external_body]
fn url_join_query(base: &str, reference: &str, pairs: &Vec<(String, String)>) -> (r: Option<String>)
    requires
        base@.len() <= MAX_URL_CHARS,
        reference@.len() <= MAX_URL_CHARS,
        pairs@.len() <= 16,
        forall|i: int|
            0 <= i < pairs@.len() ==> (#[trigger] pairs@[i]).0@.len() <= 1024 && pairs@[i].1@.len()
                <= 1024,
    ensures
        r is Some <==> url_joined(base@, reference@) is Some,
        match r {
            Some(url) => url_query(base@, reference@, pair_texts(pairs@)) == Some(url@),
            None => url_query(base@, reference@, pair_texts(pairs@)) is None,
        },
{
    let mut url = reqwest::Url::parse(base).ok()?.join(reference).ok()?;
    url.query_pairs_mut().extend_pairs(pairs);
    Some(url.into())
}

impl WebUrl {
    /// Reads a URL.
    pub fn parse(text: &str) -> (r: Option<WebUrl>)
        ensures
            match r {
                Some(url) => url_of(text@) == Some(url@),
                None => url_of(text@) is None,
            },
    {
        url_parse(text)
    }
}

/// The number that a part of a dotted IPv4 address stands for: one to three
/// digits without a leading zero, no more than 255.
pub open spec fn octet(part: Seq<char>) -> Option<nat> {
    if 1 <= part.len() <= 3 && crate::text::all_digits(part) && (part[0] == '0' ==> part.len() == 1)
        && crate::text::digits_value(part) <= 255 {
        Some(crate::text::digits_value(part))
    } else {
        None
    }
}

/// Whether a host is an IPv4 address of the loopback network.
pub open spec fn is_loopback_address(host: Seq<char>) -> bool {
    let parts = crate::text::split(host, '.');
    &&& parts.len() == 4
    &&& octet(parts[0]) == Some(127nat)
    &&& octet(parts[1]) is Some
    &&& octet(parts[2]) is Some
    &&& octet(parts[3]) is Some
}

/// Whether a host is this machine: `localhost`, in any case, or a loopback
/// address.
pub open spec fn is_loopback_host(host: Seq<char>) -> bool {
    crate::text::same_ignoring_case(host, "localhost"@) || is_loopback_address(host)
}

/// Whether a URL uses HTTPS or leads to this machine.
pub open spec fn is_secure_or_loopback(url: Address) -> bool {
    url.scheme == "https"@ || (url.host matches Some(host) && is_loopback_host(host))
}

/// Whether an archive may be downloaded from a URL for the given site.
pub open spec fn may_download(url: Address, site: Address) -> bool {
    is_secure_or_loopback(url) && (url.scheme == "https"@ || is_secure_or_loopback(site))
}

/// The scheme, host and port of a URL.
pub open spec fn same_origin(a: Address, b: Address) -> bool {
    a.scheme == b.scheme && a.host == b.host && a.port == b.port
}

fn read_octet(part: &[char]) -> (r: Option<u64>)
    ensures
        match r {
            Some(n) => octet(part@) == Some(n as nat),
            None => octet(part@) is None,
        },
{
    if part.len() < 1 || part.len() > 3 || (part[0] == '0' && part.len() != 1) {
        return None;
    }
    if part[0] == '+' {
        assert(!crate::text::is_digit(part@[0]));
        return None;
    }
    parse_unsigned(part, 255)
}

fn loopback_address(host: &[char]) -> (r: bool)
    ensures
        r == is_loopback_address(host@),
{
    let pieces = parts(host, '.');
    let ghost texts = pieces@.map_values(|p: &[char]| p@);
    if pieces.len() != 4 {
        return false;
    }
    assert(texts[0] == pieces@[0]@ && texts[1] == pieces@[1]@ && texts[2] == pieces@[2]@ && texts[3]
        == pieces@[3]@);
    let first = match read_octet(pieces[0]) {
        Some(n) => n == 127,
        None => false,
    };
    first && read_octet(pieces[1]).is_some() && read_octet(pieces[2]).is_some() && read_octet(
        pieces[3],
    ).is_some()
}

/// Whether a URL uses HTTPS or leads to this machine.
pub fn secure_or_loopback(url: &WebUrl) -> (r: bool)
    ensures
        r == is_secure_or_loopback(url@),
{
    if same_text(url.scheme.as_str(), "https") {
        return true;
    }
    match &url.host {
        Some(host) => {
            let chars = chars_of(host.as_str());
            let localhost = chars_of("localhost");
            same_but_case(chars.as_slice(), localhost.as_slice()) || loopback_address(
                chars.as_slice(),
            )
        },
        None => false,
    }
}

fn https_required() -> (r: FetchError)
    ensures
        r@ == Fault::InvalidUrl(
            "download URL must use HTTPS (loopback HTTP is allowed only for tests)"@,
        ),
{
    FetchError::InvalidUrl(
        "download URL must use HTTPS (loopback HTTP is allowed only for tests)".to_owned(),
    )
}

/// Checks that an archive may be downloaded from a URL.
pub fn validate_download_url(url: &WebUrl, site: &WebUrl) -> (r: Result<(), FetchError>)
    ensures
        match r {
            Ok(()) => may_download(url@, site@),
            Err(e) => !may_download(url@, site@) && e@ == Fault::InvalidUrl(
                "download URL must use HTTPS (loopback HTTP is allowed only for tests)"@,
            ),
        },
{
    if secure_or_loopback(url) && (same_text(url.scheme.as_str(), "https") || secure_or_loopback(
        site,
    )) {
        Ok(())
    } else {
        Err(https_required())
    }
}

fn same_host(a: &Option<String>, b: &Option<String>) -> (r: bool)
    ensures
        r == match (*a, *b) {
            (Some(x), Some(y)) => x@ == y@,
            (None, None) => true,
            _ => false,
        },
{
    match (a, b) {
        (Some(x), Some(y)) => same_text(x.as_str(), y.as_str()),
        (None, None) => true,
        _ => false,
    }
}

/// Whether two URLs have the same origin.
pub fn origin_matches(a: &WebUrl, b: &WebUrl) -> (r: bool)
    ensures
        r == same_origin(a@, b@),
{
    same_text(a.scheme.as_str(), b.scheme.as_str()) && same_host(&a.host, &b.host) && a.port
        == b.port
}

/// The number of redirects after which none is followed any more.
pub const MAX_REDIRECTS: usize = 5;

/// Whether a redirect of a request to the site is followed: not for ever, and
/// never to another origin.
pub fn follow_site_redirect(previous: usize, url: &WebUrl, site: &WebUrl) -> (r: bool)
    ensures
        r == (previous < MAX_REDIRECTS && same_origin(url@, site@)),
        previous >= 5 ==> !r,
        previous < 5 ==> r == same_origin(url@, site@),
{
    previous < MAX_REDIRECTS && origin_matches(url, site)
}

/// Whether a redirect of a download is followed: not for ever, and never to an
/// address that is neither HTTPS nor this machine.
pub fn follow_download_redirect(previous: usize, url: &WebUrl) -> (r: bool)
    ensures
        r == (previous < MAX_REDIRECTS && is_secure_or_loopback(url@)),
        previous >= 5 ==> !r,
        previous < 5 ==> r == is_secure_or_loopback(url@),
{
    previous < MAX_REDIRECTS && secure_or_loopback(url)
}

/// The URL of a path on the site.
pub fn join_url(site: &WebUrl, path: &str) -> (r: Result<String, FetchError>)
    ensures
        match (url_joined(site@.text, path@), r) {
            (Some(joined), Ok(url)) => url@ == joined,
            (None, Err(e)) => e@ == Fault::InvalidUrl(
                "cannot join "@ + crate::text::debug_text(path@) + " to Foundry site"@,
            ),
            _ => false,
        },
{
    match url_join(site.text.as_str(), path) {
        Some(url) => Ok(url),
        None => Err(cannot_join(path)),
    }
}

/// The origin of the official site.
pub open spec fn is_official_site(site: Address) -> bool {
    site.scheme == "https"@ && site.host == Some("foundryvtt.com"@) && site.port == Some(443u16)
}

/// Whether a URL belongs to the official Foundry site.
pub fn official_site(site: &WebUrl) -> (r: bool)
    ensures
        r == is_official_site(site@),
{
    let host = match &site.host {
        Some(host) => same_text(host.as_str(), "foundryvtt.com"),
        None => false,
    };
    same_text(site.scheme.as_str(), "https") && host && site.port == Some(443u16)
}

/// An archive is downloaded over HTTPS or from this machine, and from nowhere
/// else.
pub proof fn lemma_downloads_are_secure(url: Address, site: Address)
    requires
        may_download(url, site),
    ensures
        url.scheme == "https"@ || (url.host is Some && is_loopback_host(url.host->0)),
{
}

/// Every HTTPS URL may be downloaded from, whatever the site.
pub proof fn lemma_https_may_download(url: Address, site: Address)
    requires
        url.scheme == "https"@,
    ensures
        may_download(url, site),
{
}

/// A redirect that is followed at the official site stays at it.
pub proof fn lemma_official_site_is_not_left(url: Address, site: Address)
    requires
        is_official_site(site),
        same_origin(url, site),
    ensures
        is_official_site(url),
{
}

fn cannot_join(path: &str) -> (r: FetchError)
    ensures
        r@ == Fault::InvalidUrl(
            "cannot join "@ + crate::text::debug_text(path@) + " to Foundry site"@,
        ),
{
    let mut text = "cannot join ".to_owned();
    text.append(quoted(path).as_str());
    text.append(" to Foundry site");
    FetchError::InvalidUrl(text)
}

/// What the site is asked for the download URL of a release: the build, the
/// platform, and an answer in JSON.
pub open spec fn release_query(release: ReleaseId, platform: Platform) -> Seq<
    (Seq<char>, Seq<char>),
> {
    seq![
        ("build"@, crate::text::decimal(release.build as nat)),
        ("platform"@, crate::release::platform_word(platform)),
        ("response_type"@, "json"@),
    ]
}

/// The pairs of the query for the download URL of a release.
pub fn release_pairs(release: &ReleaseId, platform: Platform) -> (r: Vec<(String, String)>)
    ensures
        pair_texts(r@) == release_query(*release, platform),
{
    let mut pairs: Vec<(String, String)> = Vec::new();
    pairs.push(("build".to_owned(), decimal_text(release.build as u64)));
    pairs.push(("platform".to_owned(), platform_name(platform).to_owned()));
    pairs.push(("response_type".to_owned(), "json".to_owned()));
    assert(pair_texts(pairs@) == release_query(*release, platform));
    pairs
}

/// The URL at which the site is asked for the download URL of a release.
pub fn release_endpoint(site: &WebUrl, release: &ReleaseId, platform: Platform) -> (r: Result<
    String,
    FetchError,
>)
    requires
        site@.text.len() <= MAX_URL_CHARS,
    ensures
        match r {
            Ok(url) => url_joined(site@.text, "releases/download"@) is Some && url_query(
                site@.text,
                "releases/download"@,
                release_query(*release, platform),
            ) == Some(url@),
            Err(e) => url_joined(site@.text, "releases/download"@) is None && e@
                == Fault::InvalidUrl(
                "cannot join "@ + crate::text::debug_text("releases/download"@)
                    + " to Foundry site"@,
            ),
        },
{
    let pairs = release_pairs(release, platform);
    proof {
        reveal_strlit("releases/download");
        reveal_strlit("build");
        reveal_strlit("platform");
        reveal_strlit("response_type");
        reveal_strlit("json");
        reveal_strlit("node");
        reveal_strlit("linux");
        crate::text::lemma_decimal_len(release.build as nat);
        let query = release_query(*release, platform);
        assert(pairs@.len() == pair_texts(pairs@).len() == query.len() == 3);
        assert(query[0].0.len() <= 1024 && query[1].0.len() <= 1024 && query[2].0.len() <= 1024);
        assert(query[0].1.len() <= 1024 && query[1].1.len() <= 1024 && query[2].1.len() <= 1024);
        assert forall|i: int| 0 <= i < pairs@.len() implies (#[trigger] pairs@[i]).0@.len() <= 1024
            && pairs@[i].1@.len() <= 1024 by {
            assert(query[i] == (pairs@[i].0@, pairs@[i].1@));
            assert(i == 0 || i == 1 || i == 2);
        }
    }
    match url_join_query(site.text.as_str(), "releases/download", &pairs) {
        Some(url) => Ok(url),
        None => Err(cannot_join("releases/download")),
    }
}

/// What is made of the content of a file that holds a signed URL, once the
/// trimmed content was read as a URL.
pub open spec fn signed_url_fault(content: Seq<char>, parsed: Option<Address>) -> Option<Fault> {
    if crate::text::trim(content).len() == 0 {
        Some(Fault::InvalidUrl("signed URL file is empty"@))
    } else {
        match parsed {
            None => Some(Fault::InvalidUrl("signed URL file contains an invalid URL"@)),
            Some(url) => if url.scheme != "https"@ {
                Some(Fault::InvalidUrl("signed URL must use HTTPS"@))
            } else {
                None
            },
        }
    }
}

/// Checks the content of a file that holds a signed URL. `parsed` is what the
/// trimmed content was read as.
pub fn check_signed_url(content: &str, parsed: Option<WebUrl>) -> (r: Result<WebUrl, FetchError>)
    ensures
        ({
            let url = match parsed {
                Some(url) => Some(url@),
                None => None,
            };
            match r {
                Ok(checked) => signed_url_fault(content@, url) is None && Some(checked) == parsed,
                Err(e) => signed_url_fault(content@, url) == Some(e@),
            }
        }),
{
    let chars = chars_of(content);
    if trimmed(chars.as_slice()).len() == 0 {
        return Err(FetchError::InvalidUrl("signed URL file is empty".to_owned()));
    }
    match parsed {
        None => Err(
            FetchError::InvalidUrl("signed URL file contains an invalid URL".to_owned()),
        ),
        Some(url) => if same_text(url.scheme.as_str(), "https") {
            Ok(url)
        } else {
            Err(FetchError::InvalidUrl("signed URL must use HTTPS".to_owned()))
        },
    }
}

/// Reads the content of a file that holds a signed URL.
pub fn read_signed_url(content: &str) -> (r: Result<WebUrl, FetchError>)
    ensures
        match r {
            Ok(url) => signed_url_fault(content@, url_of(crate::text::trim(content@))) is None
                && url_of(crate::text::trim(content@)) == Some(url@),
            Err(e) => signed_url_fault(content@, url_of(crate::text::trim(content@))) == Some(e@),
        },
{
    let chars = chars_of(content);
    let text = string_of(trimmed(chars.as_slice()));
    check_signed_url(content, WebUrl::parse(text.as_str()))
}

/// Checks the download URL that the site answered with. `parsed` is what the
/// answer was read as.
pub fn check_release_url(parsed: Option<WebUrl>, site: &WebUrl) -> (r: Result<WebUrl, FetchError>)
    ensures
        match (parsed, r) {
            (None, Err(e)) => e@ == Fault::InvalidUrl(
                "release endpoint returned an invalid download URL"@,
            ),
            (Some(url), Ok(checked)) => checked == url && may_download(url@, site@),
            (Some(url), Err(e)) => !may_download(url@, site@) && e@ == Fault::InvalidUrl(
                "download URL must use HTTPS (loopback HTTP is allowed only for tests)"@,
            ),
            (None, Ok(_)) => false,
        },
{
    match parsed {
        None => Err(
            FetchError::InvalidUrl("release endpoint returned an invalid download URL".to_owned()),
        ),
        Some(url) => match validate_download_url(&url, site) {
            Ok(()) => Ok(url),
            Err(e) => Err(e),
        },
    }
}

/// A number up to 255 in decimal is a part of an address, and no larger one is.
proof fn lemma_octet(n: nat)
    ensures
        octet(crate::text::decimal(n)) == if n <= 255 {
            Some(n)
        } else {
            None
        },
{
    let part = crate::text::decimal(n);
    crate::text::lemma_decimal_reads_back(n);
    crate::text::lemma_decimal_shape(n);
    crate::text::lemma_decimal_shape(n / 10);
    crate::text::lemma_decimal_shape(n / 10 / 10);
    if n <= 255 {
        assert(1 <= part.len() <= 3);
        assert(part[0] == '0' ==> part.len() == 1);
    }
}

/// The parts of an address are what stands between its dots.
proof fn lemma_dotted(a: Seq<char>, b: Seq<char>, c: Seq<char>, d: Seq<char>)
    requires
        !a.contains('.') && !b.contains('.') && !c.contains('.') && !d.contains('.'),
    ensures
        crate::text::split(a + "."@ + b + "."@ + c + "."@ + d, '.') == seq![a, b, c, d],
{
    reveal_strlit(".");
    let parts = seq![a, b, c, d];
    crate::text::lemma_split_is_unique(parts, '.');
    assert(parts.drop_first() == seq![b, c, d]);
    assert(parts.drop_first().drop_first() == seq![c, d]);
    assert(parts.drop_first().drop_first().drop_first() == seq![d]);
    reveal_with_fuel(crate::text::joined_with, 5);
    assert(crate::text::joined_with(parts, '.') == a + "."@ + b + "."@ + c + "."@ + d);
}

proof fn lemma_decimal_has_no_dot(n: nat)
    ensures
        !crate::text::decimal(n).contains('.'),
{
    let s = crate::text::decimal(n);
    crate::text::lemma_decimal_reads_back(n);
    if s.contains('.') {
        let i = choose|i: int| 0 <= i < s.len() && s[i] == '.';
        assert(crate::text::is_digit(s[i]));
    }
}

/// The loopback addresses are those from 127.0.0.0 to 127.255.255.255.
pub proof fn lemma_loopback_addresses(a: nat, b: nat, c: nat, d: nat)
    ensures
        is_loopback_address(
            crate::text::decimal(a) + "."@ + crate::text::decimal(b) + "."@ + crate::text::decimal(
                c,
            ) + "."@ + crate::text::decimal(d),
        ) <==> a == 127 && b <= 255 && c <= 255 && d <= 255,
{
    lemma_decimal_has_no_dot(a);
    lemma_decimal_has_no_dot(b);
    lemma_decimal_has_no_dot(c);
    lemma_decimal_has_no_dot(d);
    lemma_dotted(
        crate::text::decimal(a),
        crate::text::decimal(b),
        crate::text::decimal(c),
        crate::text::decimal(d),
    );
    lemma_octet(a);
    lemma_octet(b);
    lemma_octet(c);
    lemma_octet(d);
}

/// Nothing is a loopback address that does not begin with `127.` and end with a
/// digit, or that holds anything but digits and three dots.
pub proof fn lemma_loopback_shape(host: Seq<char>)
    requires
        is_loopback_address(host),
    ensures
        "127."@.is_prefix_of(host),
        '0' <= host.last() <= '9',
        forall|i: int| 0 <= i < host.len() ==> ('0' <= #[trigger] host[i] <= '9' || host[i] == '.'),
        crate::text::split(host, '.').len() == 4,
{
    reveal_strlit("127.");
    reveal_strlit(".");
    let parts = crate::text::split(host, '.');
    crate::text::lemma_split_parts(host, '.');
    let (a, b, c, d) = (parts[0], parts[1], parts[2], parts[3]);
    assert(parts == seq![a, b, c, d]);
    assert(parts.drop_first() == seq![b, c, d]);
    assert(parts.drop_first().drop_first() == seq![c, d]);
    assert(parts.drop_first().drop_first().drop_first() == seq![d]);
    reveal_with_fuel(crate::text::joined_with, 5);
    assert(host == a + "."@ + b + "."@ + c + "."@ + d);
    assert(a.len() == 3 && a[0] == '1' && a[1] == '2' && a[2] == '7') by {
        reveal_with_fuel(crate::text::digits_value, 4);
        assert(crate::text::is_digit(a[0]));
        if a.len() >= 2 {
            assert(crate::text::is_digit(a[1]));
            assert(a.drop_last().last() == a[a.len() - 2]);
        }
        if a.len() == 3 {
            assert(crate::text::is_digit(a[2]));
            assert(a.drop_last().drop_last().last() == a[0]);
            assert(crate::text::digits_value(a) == (a[0] as int - 48) * 100 + (a[1] as int - 48)
                * 10 + (a[2] as int - 48));
        }
    }
    assert(host.take(4) == "127."@);
    assert(crate::text::is_digit(d[d.len() - 1]));
    assert(host.last() == d.last());
    assert forall|i: int| 0 <= i < host.len() implies ('0' <= #[trigger] host[i] <= '9' || host[i]
        == '.') by {
        let x = a.len() as int;
        let y = x + 1 + b.len();
        let z = y + 1 + c.len();
        if i < x {
            assert(host[i] == a[i] && crate::text::is_digit(a[i]));
        } else if x < i < y {
            assert(host[i] == b[i - x - 1] && crate::text::is_digit(b[i - x - 1]));
        } else if y < i < z {
            assert(host[i] == c[i - y - 1] && crate::text::is_digit(c[i - y - 1]));
        } else if z < i {
            assert(host[i] == d[i - z - 1] && crate::text::is_digit(d[i - z - 1]));
        }
    }
}

/// This machine is `localhost`, in capitals or not, or a loopback address, and
/// nothing else is.
pub proof fn lemma_loopback_hosts(host: Seq<char>)
    ensures
        is_loopback_host(host) <==> is_loopback_address(host) || (host.len() == 9 && forall|i: int|
            0 <= i < 9 ==> (#[trigger] host[i] == "localhost"@[i] || ('A' <= host[i] <= 'Z' && host[i]
                as int + 32 == "localhost"@[i] as int))),
        is_loopback_host("localhost"@),
{
    reveal_strlit("localhost");
    let word = "localhost"@;
    crate::text::lemma_same_but_case(host, word);
    crate::text::lemma_same_but_case(word, word);
    assert(word.len() == 9);
    assert(forall|i: int| 0 <= i < 9 ==> 'a' <= #[trigger] word[i] <= 'z');
}

/// A URL may be downloaded from exactly where it uses HTTPS, or leads to this
/// machine while the site uses HTTPS or is on this machine too.
pub proof fn lemma_download_rule(url: Address, site: Address)
    ensures
        may_download(url, site) <==> url.scheme == "https"@ || (url.host is Some && is_loopback_host(
            url.host->0,
        ) && (site.scheme == "https"@ || (site.host is Some && is_loopback_host(site.host->0)))),
        is_secure_or_loopback(url) <==> url.scheme == "https"@ || (url.host is Some
            && is_loopback_host(url.host->0)),
{
}

/// Two URLs have the same origin exactly where scheme, host and port agree; the
/// rest of the URLs does not matter.
pub proof fn lemma_origins(a: Address, b: Address, path: Seq<char>)
    ensures
        same_origin(a, b) <==> same_origin(b, a),
        same_origin(a, Address { text: path, ..a }),
        a.scheme != b.scheme ==> !same_origin(a, b),
        a.host != b.host ==> !same_origin(a, b),
        a.port != b.port ==> !same_origin(a, b),
        a.scheme == b.scheme && a.host == b.host && a.port == b.port ==> same_origin(a, b),
{
}

/// The official site is `https://foundryvtt.com` on its usual port, whatever the
/// path; another scheme, host or port is not it.
pub proof fn lemma_official_origin(site: Address)
    ensures
        is_official_site(site) <==> same_origin(
            site,
            Address {
                text: site.text,
                scheme: "https"@,
                host: Some("foundryvtt.com"@),
                port: Some(443),
            },
        ),
{
}

/// The site is asked for a release by its build and platform, and for an answer
/// in JSON.
pub proof fn lemma_release_query(release: ReleaseId, platform: Platform)
    ensures
        release_query(release, platform).len() == 3,
        release_query(release, platform)[0] == (
            "build"@,
            crate::text::decimal(release.build as nat),
        ),
        platform is Node ==> release_query(release, platform)[1] == ("platform"@, "node"@),
        platform is Linux ==> release_query(release, platform)[1] == ("platform"@, "linux"@),
        release_query(release, platform)[2] == ("response_type"@, "json"@),
{
}

/// Requests for different builds or platforms differ.
pub proof fn lemma_release_queries_differ(a: ReleaseId, p: Platform, b: ReleaseId, q: Platform)
    requires
        release_query(a, p) == release_query(b, q),
    ensures
        a.build == b.build,
        p == q,
{
    let x = release_query(a, p);
    let y = release_query(b, q);
    assert(x[0] == y[0] && x[1] == y[1]);
    crate::text::lemma_decimal_reads_back(a.build as nat);
    crate::text::lemma_decimal_reads_back(b.build as nat);
    reveal_strlit("node");
    reveal_strlit("linux");
    assert("node"@.len() == 4 && "linux"@.len() == 5);
}

/// A signed URL is accepted exactly where the file is not blank and holds an
/// HTTPS URL; what speaks against it is named in that order.
pub proof fn lemma_accepted_signed_urls(content: Seq<char>, parsed: Option<Address>)
    ensures
        signed_url_fault(content, parsed) is None <==> parsed is Some && parsed->0.scheme
            == "https"@ && exists|i: int|
            0 <= i < content.len() && !crate::text::is_white(#[trigger] content[i]),
        (forall|i: int| 0 <= i < content.len() ==> crate::text::is_white(#[trigger] content[i]))
            ==> signed_url_fault(content, parsed) == Some(
            Fault::InvalidUrl("signed URL file is empty"@),
        ),
{
    let kept = crate::text::trim(content);
    crate::text::lemma_trim_cut(content);
    let at = choose|i: int| #[trigger]
        crate::text::occurs_at(content, kept, i) && (forall|k: int|
            0 <= k < i ==> crate::text::is_white(#[trigger] content[k])) && (forall|k: int|
            i + kept.len() <= k < content.len() ==> crate::text::is_white(#[trigger] content[k]));
    if kept.len() > 0 {
        assert(content.subrange(at, at + kept.len())[0] == kept[0]);
        assert(!crate::text::is_white(content[at]));
    } else {
        assert forall|i: int| 0 <= i < content.len() implies crate::text::is_white(
            #[trigger] content[i],
        ) by {}
    }
}

/// Redirects are followed at most five times: to the same origin for a request,
/// and to HTTPS or this machine for a download.
pub proof fn lemma_followed_redirects(
    previous: usize,
    url: &WebUrl,
    site: &WebUrl,
    request: bool,
    download: bool,
)
    requires
        call_ensures(follow_site_redirect, (previous, url, site), request),
        call_ensures(follow_download_redirect, (previous, url), download),
    ensures
        request <==> previous < 5 && url@.scheme == site@.scheme && url@.host == site@.host
            && url@.port == site@.port,
        download <==> previous < 5 && (url@.scheme == "https"@ || (url@.host is Some
            && is_loopback_host(url@.host->0))),
{
}

}
