//! Who may use the service: principals and their groups, session cookies, and
//! the answers of the login and session endpoints.
use vstd::prelude::*;

use crate::clock::Duration;
use crate::json::{json_node, JsonNode, Node};
use crate::text::{
    chars_of, parse_unsigned, parts, push_decimal, same_text, skipped,
    string_of, taken, text_of, trim_text, trimmed, white,
};

verus! {

/// Someone who is logged in.
#[derive(Debug, Clone)]
pub struct Principal {
    pub subject: String,
    pub issuer: String,
    pub display_name: Option<String>,
    pub email: Option<String>,
    pub groups: Vec<String>,
}

/// Whether a group is among groups.
pub open spec fn in_group(groups: Seq<String>, group: Seq<char>) -> bool {
    exists|i: int| 0 <= i < groups.len() && (#[trigger] groups[i])@ == group
}

/// Whether a group is among groups.
pub fn has_group(groups: &Vec<String>, group: &str) -> (r: bool)
    ensures
        r == in_group(groups@, group@),
{
    let mut i: usize = 0;
    while i < groups.len()
        invariant
            i <= groups.len(),
            forall|j: int| 0 <= j < i ==> (#[trigger] groups@[j])@ != group@,
        decreases groups.len() - i,
    {
        if same_text(groups[i].as_str(), group) {
            assert(groups@[i as int]@ == group@);
            return true;
        }
        i = i + 1;
    }
    false
}

impl Principal {
    /// Whether the principal is in the group of administrators.
    pub fn is_admin(&self, admin_group: &str) -> (r: bool)
        ensures
            r == in_group(self.groups@, admin_group@),
    {
        has_group(&self.groups, admin_group)
    }
}

/// The query of a login request.
#[derive(Debug)]
pub struct LoginQuery {
    pub return_to: Option<String>,
}

/// The values of the environment that logins are configured by.
#[derive(Debug, Default)]
pub struct AuthEnv {
    /// `FOUNDRY_CIRCLE_OIDC_ISSUER`
    pub issuer: Option<String>,
    /// `FOUNDRY_CIRCLE_OIDC_CLIENT_ID`
    pub client_id: Option<String>,
    /// `FOUNDRY_CIRCLE_OIDC_PUBLIC_BASE_URL`
    pub public_base_url: Option<String>,
    /// `FOUNDRY_CIRCLE_OIDC_SCOPES`
    pub scopes: Option<String>,
    /// `FOUNDRY_CIRCLE_OIDC_ACCESS_GROUP`
    pub access_group: Option<String>,
    /// `FOUNDRY_CIRCLE_OIDC_ADMIN_GROUP`
    pub admin_group: Option<String>,
    /// `FOUNDRY_CIRCLE_SESSION_TTL_SECONDS`
    pub session_ttl: Option<String>,
}

/// How logins are configured.
#[derive(Debug)]
pub struct AuthSettings {
    pub issuer: String,
    pub client_id: String,
    pub redirect_uri: String,
    pub scopes: Vec<String>,
    pub access_group: String,
    pub admin_group: String,
    pub session_ttl: Duration,
}

/// What speaks against a value that is required.
pub open spec fn env_fault(name: Seq<char>, value: Option<Seq<char>>) -> Option<Seq<char>> {
    match value {
        None => Some(name + " is not set"@),
        Some(text) => if crate::text::trim(text).len() == 0 {
            Some(name + " is empty"@)
        } else {
            None
        },
    }
}

/// Reads a value that is required. The error says what is wrong with it.
pub fn required_env(name: &str, value: Option<String>) -> (r: Result<String, String>)
    ensures
        match r {
            Ok(text) => env_fault(name@, text_of(value)) is None && value == Some(text),
            Err(message) => env_fault(name@, text_of(value)) == Some(message@),
        },
{
    match value {
        None => {
            let mut message = name.to_owned();
            message.append(" is not set");
            Err(message)
        },
        Some(text) => if trim_text(text.as_str()).is_empty() {
            let mut message = name.to_owned();
            message.append(" is empty");
            Err(message)
        } else {
            Ok(text)
        },
    }
}

/// The number of characters before the first white one.
pub open spec fn word_len(s: Seq<char>) -> nat
    decreases s.len(),
{
    if s.len() == 0 || crate::text::is_white(s[0]) {
        0
    } else {
        1 + word_len(s.drop_first())
    }
}

/// The words of a text: its runs of characters that are not white.
pub open spec fn words(s: Seq<char>) -> Seq<Seq<char>>
    decreases s.len(),
{
    if s.len() == 0 {
        seq![]
    } else if crate::text::is_white(s[0]) {
        words(s.drop_first())
    } else {
        proof {
            lemma_word_len(s);
        }
        seq![s.take(word_len(s) as int)] + words(s.skip(word_len(s) as int))
    }
}

/// A word is no longer than the text that it begins.
pub proof fn lemma_word_len(s: Seq<char>)
    ensures
        word_len(s) <= s.len(),
    decreases s.len(),
{
    if s.len() > 0 && !crate::text::is_white(s[0]) {
        lemma_word_len(s.drop_first());
    }
}

/// The contents of texts.
pub open spec fn texts(strings: Seq<String>) -> Seq<Seq<char>> {
    strings.map_values(|s: String| s@)
}

/// How long the word is that characters begin with.
fn word_end(s: &[char]) -> (r: usize)
    ensures
        r == word_len(s@),
        r <= s@.len(),
{
    let mut n: usize = 0;
    assert(s@.skip(0) == s@);
    while n < s.len() && !white(s[n])
        invariant
            n <= s@.len(),
            word_len(s@) == n + word_len(s@.skip(n as int)),
        decreases s@.len() - n,
    {
        assert(s@.skip(n as int).drop_first() == s@.skip(n + 1));
        n = n + 1;
    }
    n
}

/// The words of a text.
pub fn split_words(s: &str) -> (r: Vec<String>)
    ensures
        texts(r@) == words(s@),
{
    let chars = chars_of(s);
    let mut rest: &[char] = chars.as_slice();
    let mut out: Vec<String> = Vec::new();
    while rest.len() > 0
        invariant
            texts(out@) + words(rest@) == words(s@),
        decreases rest@.len(),
    {
        let ghost before = rest@;
        if white(rest[0]) {
            rest = skipped(rest, 1);
            assert(rest@ == before.drop_first());
        } else {
            let n: usize = word_end(rest);
            let ghost done = texts(out@);
            out.push(string_of(taken(rest, n)));
            assert(texts(out@) == done.push(before.take(n as int)));
            assert(word_len(before) == 1 + word_len(before.drop_first()));
            rest = skipped(rest, n);
            assert(texts(out@) + words(rest@) == done + (seq![before.take(n as int)] + words(rest@)));
        }
    }
    out
}

/// A value, or what stands for it where it is missing.
pub open spec fn value_or(value: Option<Seq<char>>, default: Seq<char>) -> Seq<char> {
    match value {
        Some(text) => text,
        None => default,
    }
}

fn or_default(value: Option<String>, default: &str) -> (r: String)
    ensures
        r@ == value_or(text_of(value), default@),
{
    match value {
        Some(text) => text,
        None => default.to_owned(),
    }
}

/// How long a session lives where nothing valid is configured, in seconds.
pub const DEFAULT_SESSION_SECONDS: u64 = 43_200;

/// How long a session lives, in seconds.
pub open spec fn ttl_seconds(value: Option<Seq<char>>) -> nat {
    match value {
        Some(text) => match crate::text::unsigned(text, u64::MAX as nat) {
            Some(seconds) if seconds > 0 => seconds,
            _ => DEFAULT_SESSION_SECONDS as nat,
        },
        None => DEFAULT_SESSION_SECONDS as nat,
    }
}

/// How long a session lives.
pub fn session_ttl(value: Option<String>) -> (r: Duration)
    ensures
        r@ == ttl_seconds(text_of(value)) * 1_000_000_000,
{
    let given: Option<u64> = match value {
        Some(text) => {
            let chars = chars_of(text.as_str());
            parse_unsigned(chars.as_slice(), u64::MAX)
        },
        None => None,
    };
    match given {
        Some(seconds) if seconds > 0 => Duration::from_secs(seconds),
        _ => Duration::from_secs(DEFAULT_SESSION_SECONDS),
    }
}

/// What speaks against the values of the environment: what speaks against the
/// first that is required and missing or empty.
pub open spec fn auth_fault(env: AuthEnv) -> Option<Seq<char>> {
    match env_fault("FOUNDRY_CIRCLE_OIDC_ISSUER"@, text_of(env.issuer)) {
        Some(message) => Some(message),
        None => match env_fault("FOUNDRY_CIRCLE_OIDC_CLIENT_ID"@, text_of(env.client_id)) {
            Some(message) => Some(message),
            None => env_fault(
                "FOUNDRY_CIRCLE_OIDC_PUBLIC_BASE_URL"@,
                text_of(env.public_base_url),
            ),
        },
    }
}

/// Reads how logins are configured.
pub fn from_env(env: AuthEnv) -> (r: Result<AuthSettings, String>)
    ensures
        match r {
            Ok(settings) => {
                &&& auth_fault(env) is None
                &&& env.issuer == Some(settings.issuer)
                &&& env.client_id == Some(settings.client_id)
                &&& env.public_base_url is Some
                &&& settings.redirect_uri@ == env.public_base_url->Some_0@
                    + "/api/auth/oidc/callback"@
                &&& texts(settings.scopes@) == words(
                    value_or(text_of(env.scopes), "openid profile email groups"@),
                )
                &&& settings.access_group@ == value_or(
                    text_of(env.access_group),
                    "foundry-circle-users"@,
                )
                &&& settings.admin_group@ == value_or(
                    text_of(env.admin_group),
                    "foundry-circle-admins"@,
                )
                &&& settings.session_ttl@ == ttl_seconds(text_of(env.session_ttl)) * 1_000_000_000
            },
            Err(message) => auth_fault(env) == Some(message@),
        },
{
    let issuer = match required_env("FOUNDRY_CIRCLE_OIDC_ISSUER", env.issuer) {
        Ok(text) => text,
        Err(message) => return Err(message),
    };
    let client_id = match required_env("FOUNDRY_CIRCLE_OIDC_CLIENT_ID", env.client_id) {
        Ok(text) => text,
        Err(message) => return Err(message),
    };
    let mut redirect_uri = match required_env(
        "FOUNDRY_CIRCLE_OIDC_PUBLIC_BASE_URL",
        env.public_base_url,
    ) {
        Ok(text) => text,
        Err(message) => return Err(message),
    };
    redirect_uri.append("/api/auth/oidc/callback");
    let scopes = or_default(env.scopes, "openid profile email groups");
    Ok(
        AuthSettings {
            issuer,
            client_id,
            redirect_uri,
            scopes: split_words(scopes.as_str()),
            access_group: or_default(env.access_group, "foundry-circle-users"),
            admin_group: or_default(env.admin_group, "foundry-circle-admins"),
            session_ttl: session_ttl(env.session_ttl),
        },
    )
}

/// The value of the first cookie with a name among the parts of a header.
pub open spec fn first_cookie(parts: Seq<Seq<char>>, name: Seq<char>) -> Option<Seq<char>>
    decreases parts.len(),
{
    if parts.len() == 0 {
        None
    } else {
        match crate::text::split_once(crate::text::trim(parts[0]), '=') {
            Some((key, value)) if key == name => Some(value),
            _ => first_cookie(parts.drop_first(), name),
        }
    }
}

/// The value of the cookie with a name in a `Cookie` header.
pub open spec fn cookie_value(header: Seq<char>, name: Seq<char>) -> Option<Seq<char>> {
    first_cookie(crate::text::split(header, ';'), name)
}

/// The value of the cookie with a name in a `Cookie` header.
pub fn cookie(header: &str, name: &str) -> (r: Option<String>)
    ensures
        text_of(r) == cookie_value(header@, name@),
{
    let chars = chars_of(header);
    let wanted = chars_of(name);
    let all = parts(chars.as_slice(), ';');
    let ghost pieces = all@.map_values(|p: &[char]| p@);
    let mut i: usize = 0;
    assert(pieces.skip(0) == pieces);
    while i < all.len()
        invariant
            i <= all.len(),
            wanted@ == name@,
            pieces == all@.map_values(|p: &[char]| p@),
            cookie_value(header@, name@) == first_cookie(pieces.skip(i as int), name@),
        decreases all.len() - i,
    {
        assert(pieces.skip(i as int)[0] == all@[i as int]@);
        assert(pieces.skip(i as int).drop_first() == pieces.skip(i + 1));
        let part = trimmed(all[i]);
        let p: usize = crate::text::find_char(part, '=');
        if p < part.len() {
            if crate::text::same(taken(part, p), wanted.as_slice()) {
                return Some(string_of(skipped(part, p + 1)));
            }
        }
        i = i + 1;
    }
    None
}

/// The name of the cookie that holds a session.
pub open spec fn session_name() -> Seq<char> {
    "foundry_circle_session"@
}

/// The token of the session in a `Cookie` header.
pub fn session_token(header: &str) -> (r: Option<String>)
    ensures
        text_of(r) == cookie_value(header@, session_name()),
{
    cookie(header, "foundry_circle_session")
}

/// The cookie that hands out a session.
pub open spec fn session_cookie_text(token: Seq<char>, seconds: nat) -> Seq<char> {
    "foundry_circle_session="@ + token + "; Path=/; Max-Age="@ + crate::text::decimal(seconds)
        + "; HttpOnly; Secure; SameSite=Lax"@
}

/// The cookie that hands out a session.
pub fn session_cookie(token: &str, ttl: Duration) -> (r: String)
    ensures
        r@ == session_cookie_text(token@, ttl@ / 1_000_000_000),
{
    let mut out = "foundry_circle_session=".to_owned();
    out.append(token);
    out.append("; Path=/; Max-Age=");
    push_decimal(&mut out, ttl.as_secs());
    out.append("; HttpOnly; Secure; SameSite=Lax");
    out
}

/// The cookie that takes a session back.
pub fn expired_session_cookie() -> (r: String)
    ensures
        r@ == "foundry_circle_session=; Path=/; Max-Age=0; HttpOnly; Secure; SameSite=Lax"@,
{
    "foundry_circle_session=; Path=/; Max-Age=0; HttpOnly; Secure; SameSite=Lax".to_owned()
}

/// The cookie that takes a session back is the one that hands out an empty
/// token for no time.
pub proof fn lemma_expired_cookie_holds_nothing()
    ensures
        session_cookie_text(seq![], 0)
            == "foundry_circle_session=; Path=/; Max-Age=0; HttpOnly; Secure; SameSite=Lax"@,
{
    reveal_strlit("foundry_circle_session=");
    reveal_strlit("; Path=/; Max-Age=");
    reveal_strlit("; HttpOnly; Secure; SameSite=Lax");
    reveal_strlit("foundry_circle_session=; Path=/; Max-Age=0; HttpOnly; Secure; SameSite=Lax");
    assert(crate::text::decimal(0) == seq!['0']) by {
        assert(crate::text::decimal(0) == seq![crate::text::digit(0)]);
    }
}

/// Cookies before the one that is looked for do not matter.
proof fn lemma_first_cookie_append(parts: Seq<Seq<char>>, last: Seq<char>, name: Seq<char>)
    requires
        first_cookie(parts, name) is None,
    ensures
        first_cookie(parts + seq![last], name) == first_cookie(seq![last], name),
    decreases parts.len(),
{
    if parts.len() > 0 {
        assert((parts + seq![last])[0] == parts[0]);
        assert((parts + seq![last]).drop_first() == parts.drop_first() + seq![last]);
        lemma_first_cookie_append(parts.drop_first(), last, name);
    } else {
        assert(parts + seq![last] == seq![last]);
    }
}

/// The cookie `name=value` alone, perhaps behind a space.
proof fn lemma_single_cookie(space: Seq<char>, name: Seq<char>, value: Seq<char>)
    requires
        forall|i: int| 0 <= i < space.len() ==> crate::text::is_white(#[trigger] space[i]),
        name.len() > 0,
        !crate::text::is_white(name[0]),
        !name.contains('='),
        value.len() > 0 ==> !crate::text::is_white(value.last()),
    ensures
        first_cookie(seq![space + name.push('=') + value], name) == Some(value),
{
    let pair = name.push('=') + value;
    let part = space + name.push('=') + value;
    assert(part == space + pair + Seq::<char>::empty());
    crate::text::lemma_trim_padding(space, pair, Seq::<char>::empty());
    assert(pair[0] == name[0]);
    if value.len() > 0 {
        assert(pair.last() == value.last());
    } else {
        assert(pair.last() == '=');
    }
    crate::text::lemma_trim_nothing(pair);
    assert forall|i: int| 0 <= i < name.len() implies pair[i] != '=' by {
        assert(pair[i] == name[i]);
        assert(name.contains(name[i]));
    }
    assert(pair[name.len() as int] == '=');
    crate::text::lemma_position_is(pair, '=', name.len() as int);
    assert(pair.take(name.len() as int) == name);
    assert(pair.skip(name.len() as int + 1) == value);
    assert(seq![part][0] == part);
}

/// A session that a browser sends back is read as it was handed out: alone, or
/// behind other cookies of which none has its name. A token that holds a
/// semicolon or ends in white space is left out.
pub proof fn lemma_session_reads_back(token: Seq<char>, others: Seq<char>)
    requires
        !token.contains(';'),
        token.len() > 0 ==> !crate::text::is_white(token.last()),
        cookie_value(others, session_name()) is None,
    ensures
        cookie_value(session_name().push('=') + token, session_name()) == Some(token),
        cookie_value(
            others.push(';') + (seq![' '] + session_name().push('=') + token),
            session_name(),
        ) == Some(token),
{
    let name = session_name();
    let none = Seq::<char>::empty();
    reveal_strlit("foundry_circle_session");
    assert(!name.contains('='));
    assert(!name.contains(';'));
    let alone = name.push('=') + token;
    let spaced = seq![' '] + name.push('=') + token;
    assert(!alone.contains(';')) by {
        if alone.contains(';') {
            let i = choose|i: int| 0 <= i < alone.len() && alone[i] == ';';
            if i < name.len() {
                assert(name.contains(name[i]));
            } else if i > name.len() {
                assert(token.contains(token[i - name.len() - 1]));
            }
        }
    }
    assert(!spaced.contains(';')) by {
        if spaced.contains(';') {
            let i = choose|i: int| 0 <= i < spaced.len() && spaced[i] == ';';
            if i > 0 {
                assert(spaced[i] == alone[i - 1]);
                assert(alone.contains(alone[i - 1]));
            }
        }
    }
    crate::text::lemma_position(alone, ';');
    crate::text::lemma_position(spaced, ';');
    assert(crate::text::split(alone, ';') == seq![alone]);
    assert(crate::text::split(spaced, ';') == seq![spaced]);
    assert(none + name.push('=') + token == alone);
    lemma_single_cookie(none, name, token);
    lemma_single_cookie(seq![' '], name, token);
    crate::text::lemma_split_join(others, spaced, ';');
    lemma_first_cookie_append(crate::text::split(others, ';'), spaced, name);
}

/// A cookie is found only under its exact name.
pub proof fn lemma_cookie_name_is_exact(header: Seq<char>, name: Seq<char>)
    requires
        cookie_value(header, name) is Some,
    ensures
        exists|i: int|
            0 <= i < crate::text::split(header, ';').len() && crate::text::split_once(
                crate::text::trim(#[trigger] crate::text::split(header, ';')[i]),
                '=',
            ) == Some((name, cookie_value(header, name)->Some_0)),
{
    lemma_found_cookie(crate::text::split(header, ';'), name);
}

proof fn lemma_found_cookie(parts: Seq<Seq<char>>, name: Seq<char>)
    requires
        first_cookie(parts, name) is Some,
    ensures
        exists|i: int|
            0 <= i < parts.len() && crate::text::split_once(
                crate::text::trim(#[trigger] parts[i]),
                '=',
            ) == Some((name, first_cookie(parts, name)->Some_0)),
    decreases parts.len(),
{
    match crate::text::split_once(crate::text::trim(parts[0]), '=') {
        Some((key, value)) if key == name => {
            assert(crate::text::split_once(crate::text::trim(parts[0]), '=') == Some((name, value)));
        },
        _ => {
            let rest = parts.drop_first();
            lemma_found_cookie(rest, name);
            let i = choose|i: int|
                0 <= i < rest.len() && crate::text::split_once(
                    crate::text::trim(#[trigger] rest[i]),
                    '=',
                ) == Some((name, first_cookie(rest, name)->Some_0));
            assert(parts[i + 1] == rest[i]);
        },
    }
}

/// The texts among JSON values, in order.
pub open spec fn node_texts(nodes: Seq<Node>) -> Seq<Seq<char>>
    decreases nodes.len(),
{
    if nodes.len() == 0 {
        seq![]
    } else {
        let before = node_texts(nodes.drop_last());
        match nodes.last() {
            Node::Text(text) => before.push(text),
            _ => before,
        }
    }
}

/// The values that JSON nodes stand for.
pub open spec fn node_views(nodes: Seq<JsonNode>) -> Seq<Node> {
    nodes.map_values(|n: JsonNode| n@)
}

/// The groups among the values of a claim: those that are texts.
pub fn text_groups(nodes: &Vec<JsonNode>) -> (r: Vec<String>)
    ensures
        texts(r@) == node_texts(node_views(nodes@)),
{
    let ghost views = node_views(nodes@);
    let mut out: Vec<String> = Vec::new();
    let mut i: usize = 0;
    assert(views.take(0) == Seq::<Node>::empty());
    assert(texts(out@) == node_texts(views.take(0)));
    while i < nodes.len()
        invariant
            i <= nodes.len(),
            views == node_views(nodes@),
            texts(out@) == node_texts(views.take(i as int)),
        decreases nodes.len() - i,
    {
        assert(views.take(i + 1).drop_last() == views.take(i as int));
        assert(views.take(i + 1).last() == nodes@[i as int]@);
        let ghost before = texts(out@);
        match &nodes[i] {
            JsonNode::Text(text) => {
                out.push(text.clone());
                assert(texts(out@) == before.push(text@));
            },
            _ => {},
        }
        i = i + 1;
    }
    assert(views.take(i as int) == views);
    out
}

/// The values of the `groups` claim in stored claims.
pub open spec fn group_nodes(claims: Seq<u8>) -> Seq<Node> {
    match crate::json::json_at(claims, "/groups"@) {
        Node::Array(len) => Seq::new(
            len as nat,
            |i: int| crate::json::json_at(claims, "/groups/"@ + crate::text::decimal(i as nat)),
        ),
        _ => seq![],
    }
}

/// The groups in stored claims.
pub fn claim_groups(claims: &[u8]) -> (r: Vec<String>)
    ensures
        texts(r@) == node_texts(group_nodes(claims@)),
{
    let len: usize = match json_node(claims, "/groups") {
        JsonNode::Array(len) => len,
        _ => 0,
    };
    let mut nodes: Vec<JsonNode> = Vec::new();
    let mut i: usize = 0;
    while i < len
        invariant
            i <= len,
            len == group_nodes(claims@).len(),
            node_views(nodes@) == group_nodes(claims@).take(i as int),
        decreases len - i,
    {
        let mut pointer = "/groups/".to_owned();
        push_decimal(&mut pointer, i as u64);
        let ghost before = node_views(nodes@);
        let node = json_node(claims, pointer.as_str());
        nodes.push(node);
        assert(node_views(nodes@) == before.push(node@));
        i = i + 1;
    }
    assert(group_nodes(claims@).take(i as int) == group_nodes(claims@));
    text_groups(&nodes)
}

/// What an endpoint answers.
#[derive(Debug)]
pub enum Answer {
    Text { status: u16, text: &'static str },
    Redirect { to: String },
    RedirectWithCookie { to: String, cookie: String },
}

/// The content of an `Answer`.
pub ghost enum Said {
    Text { status: u16, text: Seq<char> },
    Redirect { to: Seq<char> },
    RedirectWithCookie { to: Seq<char>, cookie: Seq<char> },
}

impl View for Answer {
    type V = Said;

    open spec fn view(&self) -> Said {
        match self {
            Answer::Text { status, text } => Said::Text { status: *status, text: text@ },
            Answer::Redirect { to } => Said::Redirect { to: to@ },
            Answer::RedirectWithCookie { to, cookie } => Said::RedirectWithCookie {
                to: to@,
                cookie: cookie@,
            },
        }
    }
}

/// What is answered while the service lacks what it needs. `auth` says whether
/// logins are configured, `database` whether there is a database.
pub open spec fn service_refusal(auth: bool, database: bool) -> Option<Said> {
    if !auth {
        Some(Said::Text { status: 503, text: "OIDC is not configured"@ })
    } else if !database {
        Some(Said::Text { status: 503, text: "database is not configured"@ })
    } else {
        None
    }
}

/// Checks that the service has what it needs.
pub fn require_services(auth: bool, database: bool) -> (r: Result<(), Answer>)
    ensures
        match r {
            Ok(()) => service_refusal(auth, database) is None,
            Err(answer) => service_refusal(auth, database) == Some(answer@),
        },
{
    if !auth {
        Err(Answer::Text { status: 503, text: "OIDC is not configured" })
    } else if !database {
        Err(Answer::Text { status: 503, text: "database is not configured" })
    } else {
        Ok(())
    }
}

/// What is answered to a login request once the service has what it needs.
/// `url` is where the login begins, where that could be made out, and `saved`
/// whether the login was saved.
pub fn login_start(url: Option<String>, saved: bool) -> (r: Answer)
    ensures
        r@ == match text_of(url) {
            None => Said::Text { status: 502, text: "OIDC authentication failed"@ },
            Some(url) => if saved {
                Said::Redirect { to: url }
            } else {
                Said::Text { status: 500, text: "login transaction error"@ }
            },
        },
{
    match url {
        None => Answer::Text { status: 502, text: "OIDC authentication failed" },
        Some(url) => if saved {
            Answer::Redirect { to: url }
        } else {
            Answer::Text { status: 500, text: "login transaction error" }
        },
    }
}

/// The state that a login comes back with.
pub fn callback_state(state: Option<String>) -> (r: Result<String, Answer>)
    ensures
        match r {
            Ok(state_value) => state == Some(state_value),
            Err(answer) => state is None && answer@ == (Said::Text {
                status: 400,
                text: "missing OIDC state"@,
            }),
        },
{
    match state {
        Some(value) => Ok(value),
        None => Err(Answer::Text { status: 400, text: "missing OIDC state" }),
    }
}

/// A point in time: seconds since 1970, and nanoseconds beyond them.
#[derive(Debug, Clone, Copy)]
pub struct Moment {
    pub secs: i64,
    pub nanos: u32,
}

impl View for Moment {
    type V = int;

    /// Nanoseconds since 1970.
    open spec fn view(&self) -> int {
        self.secs * 1_000_000_000 + self.nanos
    }
}

impl Moment {
    /// Whether the nanoseconds are less than a second.
    pub open spec fn valid(self) -> bool {
        self.nanos < 1_000_000_000
    }
}

fn is_after(a: Moment, b: Moment) -> (r: bool)
    requires
        a.valid(),
        b.valid(),
    ensures
        r == (a@ > b@),
{
    a.secs > b.secs || (a.secs == b.secs && a.nanos > b.nanos)
}

/// How a saved login was found.
#[derive(Debug, Clone, Copy)]
pub enum SavedLogin {
    /// It was there, until this time.
    Until(Moment),
    Missing,
    Failed,
}

/// Decides whether a saved login is used. One that was not there, or was there
/// for too long, is refused.
pub fn take_transaction(saved: SavedLogin, now: Moment) -> (r: Result<(), Answer>)
    requires
        now.valid(),
        saved matches SavedLogin::Until(time) ==> time.valid(),
    ensures
        match r {
            Ok(()) => saved matches SavedLogin::Until(time) && time@ > now@,
            Err(answer) => if saved is Failed {
                answer@ == (Said::Text { status: 500, text: "login transaction error"@ })
            } else {
                &&& saved matches SavedLogin::Until(time) ==> time@ <= now@
                &&& answer@ == (Said::Text { status: 400, text: "invalid or replayed login flow"@ })
            },
        },
{
    match saved {
        SavedLogin::Until(time) => if is_after(time, now) {
            Ok(())
        } else {
            Err(Answer::Text { status: 400, text: "invalid or replayed login flow" })
        },
        SavedLogin::Missing => Err(
            Answer::Text { status: 400, text: "invalid or replayed login flow" },
        ),
        SavedLogin::Failed => Err(Answer::Text { status: 500, text: "login transaction error" }),
    }
}

/// The seconds of a time, where it is not before 1970.
pub fn unix_timestamp(secs: i64) -> (r: u64)
    ensures
        r == if secs < 0 {
            0
        } else {
            secs as int
        },
{
    if secs < 0 {
        0
    } else {
        secs as u64
    }
}

/// How long a saved login is kept, in seconds.
pub const LOGIN_SECONDS: i64 = 600;

/// When a login was saved that is kept until a time.
pub fn issued_at(expires: i64) -> (r: u64)
    requires
        expires >= i64::MIN + LOGIN_SECONDS,
    ensures
        r == if expires < LOGIN_SECONDS {
            0
        } else {
            expires - LOGIN_SECONDS
        },
        expires >= 600 ==> r == expires - 600,
        expires < 600 ==> r == 0,
{
    unix_timestamp(expires - LOGIN_SECONDS)
}

/// Decides whether someone who logged in may use the service. `groups` are
/// those of the identity, where the login was completed.
pub fn check_identity(groups: Option<&Vec<String>>, access_group: &str) -> (r: Result<(), Answer>)
    ensures
        match r {
            Ok(()) => groups matches Some(groups) && in_group(groups@, access_group@),
            Err(answer) => match groups {
                None => answer@ == (Said::Text { status: 502, text: "OIDC authentication failed"@ }),
                Some(groups) => !in_group(groups@, access_group@) && answer@ == (Said::Text {
                    status: 403,
                    text: "Foundry Circle access is not provisioned"@,
                }),
            },
        },
{
    match groups {
        None => Err(Answer::Text { status: 502, text: "OIDC authentication failed" }),
        Some(groups) => if has_group(groups, access_group) {
            Ok(())
        } else {
            Err(Answer::Text { status: 403, text: "Foundry Circle access is not provisioned" })
        },
    }
}

/// What is answered once a login is complete. `saved` says whether its session
/// was saved, and `return_to` where the login was asked from.
pub fn callback_answer(saved: bool, token: &str, ttl: Duration, return_to: Option<String>) -> (r:
    Answer)
    ensures
        r@ == if saved {
            Said::RedirectWithCookie {
                to: value_or(text_of(return_to), "/api/console"@),
                cookie: session_cookie_text(token@, ttl@ / 1_000_000_000),
            }
        } else {
            Said::Text { status: 500, text: "session error"@ }
        },
{
    if saved {
        Answer::RedirectWithCookie {
            to: or_default(return_to, "/api/console"),
            cookie: session_cookie(token, ttl),
        }
    } else {
        Answer::Text { status: 500, text: "session error" }
    }
}

/// What is learnt of a login that has come back.
#[derive(Debug)]
pub enum CallbackEvent {
    Requested { auth: bool, database: bool, state: Option<String> },
    Taken { login: SavedLogin, now: Moment },
    /// The groups of the identity, where the login was completed.
    Completed { groups: Option<Vec<String>> },
    Saved { saved: bool, token: String, return_to: Option<String> },
}

/// What is done next.
#[derive(Debug)]
pub enum CallbackAction {
    /// Take the saved login with this state, so that it cannot be taken again.
    TakeTransaction(String),
    /// Complete the login.
    CompleteLogin,
    /// Save the principal, and a session for it.
    SaveSession,
    Answer(Answer),
}

/// Whether the times that an event brings are times.
pub open spec fn has_valid_times(event: CallbackEvent) -> bool {
    event matches CallbackEvent::Taken { login, now } ==> {
        &&& now.valid()
        &&& login matches SavedLogin::Until(time) ==> time.valid()
    }
}

/// What is answered after an event, where the login is over.
pub open spec fn callback_said(event: CallbackEvent, access_group: Seq<char>, ttl: nat) -> Option<
    Said,
> {
    match event {
        CallbackEvent::Requested { auth, database, state } => match service_refusal(
            auth,
            database,
        ) {
            Some(said) => Some(said),
            None => if state is None {
                Some(Said::Text { status: 400, text: "missing OIDC state"@ })
            } else {
                None
            },
        },
        CallbackEvent::Taken { login, now } => match login {
            SavedLogin::Until(time) if time@ > now@ => None,
            SavedLogin::Failed => Some(Said::Text { status: 500, text: "login transaction error"@ }),
            _ => Some(Said::Text { status: 400, text: "invalid or replayed login flow"@ }),
        },
        CallbackEvent::Completed { groups } => match groups {
            None => Some(Said::Text { status: 502, text: "OIDC authentication failed"@ }),
            Some(groups) => if in_group(groups@, access_group) {
                None
            } else {
                Some(Said::Text { status: 403, text: "Foundry Circle access is not provisioned"@ })
            },
        },
        CallbackEvent::Saved { saved, token, return_to } => Some(
            if saved {
                Said::RedirectWithCookie {
                    to: value_or(text_of(return_to), "/api/console"@),
                    cookie: session_cookie_text(token@, ttl / 1_000_000_000),
                }
            } else {
                Said::Text { status: 500, text: "session error"@ }
            },
        ),
    }
}

/// Decides what is done next with a login that has come back.
pub fn oidc_callback(event: CallbackEvent, access_group: &str, ttl: Duration) -> (r:
    CallbackAction)
    requires
        has_valid_times(event),
    ensures
        match r {
            CallbackAction::Answer(answer) => callback_said(
                event,
                access_group@,
                ttl@,
            ) == Some(answer@),
            CallbackAction::TakeTransaction(value) => {
                &&& callback_said(event, access_group@, ttl@) is None
                &&& event matches CallbackEvent::Requested { state: given, .. } && given == Some(value)
            },
            CallbackAction::CompleteLogin => {
                &&& callback_said(event, access_group@, ttl@) is None
                &&& event is Taken
            },
            CallbackAction::SaveSession => {
                &&& callback_said(event, access_group@, ttl@) is None
                &&& event is Completed
            },
        },
{
    match event {
        CallbackEvent::Requested { auth, database, state } => {
            match require_services(auth, database) {
                Ok(()) => {},
                Err(answer) => return CallbackAction::Answer(answer),
            }
            match callback_state(state) {
                Ok(value) => CallbackAction::TakeTransaction(value),
                Err(answer) => CallbackAction::Answer(answer),
            }
        },
        CallbackEvent::Taken { login, now } => match take_transaction(login, now) {
            Ok(()) => CallbackAction::CompleteLogin,
            Err(answer) => CallbackAction::Answer(answer),
        },
        CallbackEvent::Completed { groups } => match check_identity(groups.as_ref(), access_group) {
            Ok(()) => CallbackAction::SaveSession,
            Err(answer) => CallbackAction::Answer(answer),
        },
        CallbackEvent::Saved { saved, token, return_to } => CallbackAction::Answer(
            callback_answer(saved, token.as_str(), ttl, return_to),
        ),
    }
}

/// Whether events lead a login that has come back to a session.
pub open spec fn leads_to_session(
    events: Seq<CallbackEvent>,
    access_group: Seq<char>,
    ttl: nat,
) -> bool {
    &&& events.len() == 3
    &&& events[0] is Requested
    &&& events[1] is Taken
    &&& events[2] is Completed
    &&& forall|i: int| 0 <= i < 3 ==> callback_said(#[trigger] events[i], access_group, ttl) is None
}

/// A session is saved only for an identity in the group that has access, after
/// a login that was saved and has not expired.
pub proof fn lemma_session_needs_access(
    events: Seq<CallbackEvent>,
    access_group: Seq<char>,
    ttl: nat,
)
    requires
        leads_to_session(events, access_group, ttl),
    ensures
        events[1] matches CallbackEvent::Taken { login, now } && login matches SavedLogin::Until(
            time,
        ) && time@ > now@,
        events[2] matches CallbackEvent::Completed { groups } && groups matches Some(groups)
            && in_group(groups@, access_group),
{
    assert(callback_said(events[1], access_group, ttl) is None);
    assert(callback_said(events[2], access_group, ttl) is None);
}

/// What is answered to a logout.
pub fn logout(database: bool) -> (r: Answer)
    ensures
        r@ == if database {
            Said::RedirectWithCookie {
                to: "/api/console"@,
                cookie: "foundry_circle_session=; Path=/; Max-Age=0; HttpOnly; Secure; SameSite=Lax"@,
            }
        } else {
            Said::Text { status: 204, text: ""@ }
        },
{
    if database {
        Answer::RedirectWithCookie {
            to: "/api/console".to_owned(),
            cookie: expired_session_cookie(),
        }
    } else {
        Answer::Text { status: 204, text: "" }
    }
}

/// What is answered to a request before its session is looked up.
pub open spec fn request_refusal(auth: bool, database: bool, header: Option<Seq<char>>) -> Option<
    Said,
> {
    match service_refusal(auth, database) {
        Some(said) => Some(said),
        None => match header {
            Some(header) if cookie_value(header, session_name()) is Some => None,
            _ => Some(Said::Redirect { to: "/api/auth/login"@ }),
        },
    }
}

/// The token of the session that a request belongs to. `header` is its `Cookie`
/// header.
pub fn request_token(auth: bool, database: bool, header: Option<String>) -> (r: Result<
    String,
    Answer,
>)
    ensures
        match r {
            Ok(token) => {
                &&& request_refusal(auth, database, text_of(header)) is None
                &&& header matches Some(text) && cookie_value(text@, session_name()) == Some(token@)
            },
            Err(answer) => request_refusal(auth, database, text_of(header)) == Some(answer@),
        },
{
    match require_services(auth, database) {
        Ok(()) => {},
        Err(answer) => return Err(answer),
    }
    let token = match &header {
        Some(text) => session_token(text.as_str()),
        None => None,
    };
    match token {
        Some(token) => Ok(token),
        None => Err(Answer::Redirect { to: "/api/auth/login".to_owned() }),
    }
}

/// How a session was found.
#[derive(Debug)]
pub enum SessionLookup {
    Found(Principal),
    Missing,
    Failed,
}

/// Decides whether a request is let through, once its session was looked up:
/// only where its principal is still in the group that has access.
pub fn require_session(found: SessionLookup, access_group: &str) -> (r: Result<Principal, Answer>)
    ensures
        match r {
            Ok(principal) => found == SessionLookup::Found(principal) && in_group(
                principal.groups@,
                access_group@,
            ),
            Err(answer) => match found {
                SessionLookup::Found(principal) => !in_group(principal.groups@, access_group@)
                    && answer@ == (Said::Text {
                    status: 403,
                    text: "Foundry Circle access is no longer provisioned"@,
                }),
                SessionLookup::Missing => answer@ == (Said::Redirect { to: "/api/auth/login"@ }),
                SessionLookup::Failed => answer@ == (Said::Text {
                    status: 500,
                    text: "session lookup error"@,
                }),
            },
        },
{
    match found {
        SessionLookup::Found(principal) => if has_group(&principal.groups, access_group) {
            Ok(principal)
        } else {
            Err(
                Answer::Text {
                    status: 403,
                    text: "Foundry Circle access is no longer provisioned",
                },
            )
        },
        SessionLookup::Missing => Err(Answer::Redirect { to: "/api/auth/login".to_owned() }),
        SessionLookup::Failed => Err(Answer::Text { status: 500, text: "session lookup error" }),
    }
}

/// Where logins are not configured, every protected request is refused in the
/// same way, whatever it carries.
pub proof fn lemma_requests_fail_closed(database: bool, header: Option<Seq<char>>)
    ensures
        request_refusal(false, database, header) == Some(
            Said::Text { status: 503, text: "OIDC is not configured"@ },
        ),
{
}

/// The longest span that `chrono` holds, in nanoseconds.
pub open spec fn longest_lifetime() -> int {
    i64::MAX * 1_000_000
}

/// Calls `chrono::Duration::from_std`: it takes spans of up to `i64::MAX`
/// milliseconds, and no longer ones.
#[verifier::external_body]
fn chrono_takes(secs: u64, nanos: u32) -> (r: bool)
    requires
        nanos < 1_000_000_000,
    ensures
        r == (secs * 1_000_000_000 + nanos <= longest_lifetime()),
{
    chrono::Duration::from_std(std::time::Duration::new(secs, nanos)).is_ok()
}

/// The first second that `chrono` counts: the year -262143 begins.
pub const FIRST_SECOND: i64 = -8_334_601_228_800;

/// The last second that `chrono` counts: the year 262142 ends.
pub const LAST_SECOND: i64 = 8_210_266_876_799;

/// Whether there is a time for a number of seconds since 1970.
pub open spec fn is_time(secs: i64) -> bool {
    FIRST_SECOND <= secs <= LAST_SECOND
}

/// Calls `chrono::DateTime::from_timestamp`: there is a time for the seconds of
/// the years from -262143 to 262142, and none beyond them.
#[verifier::external_body]
fn chrono_time(secs: i64) -> (r: bool)
    ensures
        r == is_time(secs),
{
    chrono::DateTime::<chrono::Utc>::from_timestamp(secs, 0).is_some()
}

/// How long a session is meant to live, in nanoseconds: as configured, or twelve
/// hours where that is too long to count.
pub open spec fn lifetime(ttl: nat) -> int {
    if ttl <= longest_lifetime() {
        ttl as int
    } else {
        43_200_000_000_000
    }
}

/// When a session ends: when it has lived as long as configured, or when the
/// token that it rests on ends, whichever is first. `token_end` is that time in
/// seconds, where it is known and is a time.
pub open spec fn session_end(now: int, ttl: nat, token_end: Option<i64>) -> int {
    let configured = now + lifetime(ttl);
    match token_end {
        Some(secs) => if secs * 1_000_000_000 < configured {
            secs * 1_000_000_000
        } else {
            configured
        },
        None => configured,
    }
}

/// The latest seconds to which any lifetime can be added.
pub const LATEST_START: i64 = 9_000_000_000_000_000_000;

/// When a session ends. `token_end` is when the token ends that it rests on, in
/// seconds since 1970.
pub fn earlier_end(now: Moment, ttl: Duration, token_end: Option<i64>) -> (r: Moment)
    requires
        now.valid(),
        now.secs <= LATEST_START,
    ensures
        r.valid(),
        r@ == session_end(now@, ttl@, token_end),
{
    let secs: u64 = ttl.as_secs();
    let nanos: u32 = ttl.subsec_nanos();
    assert(ttl@ == secs * 1_000_000_000 + nanos);
    let (add_secs, add_nanos): (u64, u32) = if chrono_takes(secs, nanos) {
        (secs, nanos)
    } else {
        (43_200, 0)
    };
    let fine: u32 = now.nanos + add_nanos;
    let whole: i64 = now.secs + add_secs as i64;
    let configured = if fine >= 1_000_000_000 {
        Moment { secs: whole + 1, nanos: fine - 1_000_000_000 }
    } else {
        Moment { secs: whole, nanos: fine }
    };
    assert(configured@ == now@ + lifetime(ttl@));
    match token_end {
        Some(secs) => {
            let end = Moment { secs, nanos: 0 };
            if is_after(configured, end) {
                end
            } else {
                configured
            }
        },
        None => configured,
    }
}

/// When a session ends. `token_expiry` is when the token ends that it rests on,
/// in seconds since 1970; an end that is no time does not count.
pub fn session_expiry(now: Moment, ttl: Duration, token_expiry: Option<u64>) -> (r: Moment)
    requires
        now.valid(),
        now.secs <= LATEST_START,
    ensures
        r.valid(),
        r@ == session_end(
            now@,
            ttl@,
            match token_expiry {
                Some(secs) => if is_time(secs as i64) {
                    Some(secs as i64)
                } else {
                    None
                },
                None => None,
            },
        ),
{
    let token_end: Option<i64> = match token_expiry {
        Some(secs) => {
            let end: i64 = #[verifier::truncate] (secs as i64);
            if chrono_time(end) {
                Some(end)
            } else {
                None
            }
        },
        None => None,
    };
    earlier_end(now, ttl, token_end)
}

/// A session ends no later than its token, and no later than configured.
pub proof fn lemma_session_ends_in_time(now: int, ttl: nat, token_end: Option<i64>)
    ensures
        session_end(now, ttl, token_end) <= now + lifetime(ttl),
        token_end matches Some(secs) ==> session_end(now, ttl, token_end) <= secs * 1_000_000_000,
{
}

/// A group counts only as a whole, and wherever it stands.
pub proof fn lemma_groups(groups: Seq<String>, group: Seq<char>)
    ensures
        in_group(groups, group) <==> texts(groups).contains(group),
{
    if in_group(groups, group) {
        let i = choose|i: int| 0 <= i < groups.len() && (#[trigger] groups[i])@ == group;
        assert(texts(groups)[i] == group);
    }
    if texts(groups).contains(group) {
        let i = choose|i: int| 0 <= i < texts(groups).len() && texts(groups)[i] == group;
        assert(groups[i]@ == group);
    }
}

/// Logins need an issuer, a client id and a public base URL; the first that is
/// missing or blank is named.
pub proof fn lemma_required_for_logins(env: AuthEnv)
    ensures
        auth_fault(env) is None <==> {
            &&& env.issuer is Some && crate::text::trim(env.issuer->0@).len() > 0
            &&& env.client_id is Some && crate::text::trim(env.client_id->0@).len() > 0
            &&& env.public_base_url is Some && crate::text::trim(env.public_base_url->0@).len() > 0
        },
        env.issuer is None ==> auth_fault(env) == Some("FOUNDRY_CIRCLE_OIDC_ISSUER is not set"@),
        env.issuer is Some && crate::text::trim(env.issuer->0@).len() == 0 ==> auth_fault(env)
            == Some("FOUNDRY_CIRCLE_OIDC_ISSUER is empty"@),
        env.issuer is Some && crate::text::trim(env.issuer->0@).len() > 0 && env.client_id is None
            ==> auth_fault(env) == Some("FOUNDRY_CIRCLE_OIDC_CLIENT_ID is not set"@),
        env.issuer is Some && crate::text::trim(env.issuer->0@).len() > 0 && env.client_id is Some
            && crate::text::trim(env.client_id->0@).len() > 0 && env.public_base_url is None
            ==> auth_fault(env) == Some("FOUNDRY_CIRCLE_OIDC_PUBLIC_BASE_URL is not set"@),
{
    reveal_strlit(" is not set");
    reveal_strlit(" is empty");
    reveal_strlit("FOUNDRY_CIRCLE_OIDC_ISSUER");
    reveal_strlit("FOUNDRY_CIRCLE_OIDC_CLIENT_ID");
    reveal_strlit("FOUNDRY_CIRCLE_OIDC_PUBLIC_BASE_URL");
    reveal_strlit("FOUNDRY_CIRCLE_OIDC_ISSUER is not set");
    reveal_strlit("FOUNDRY_CIRCLE_OIDC_ISSUER is empty");
    reveal_strlit("FOUNDRY_CIRCLE_OIDC_CLIENT_ID is not set");
    reveal_strlit("FOUNDRY_CIRCLE_OIDC_PUBLIC_BASE_URL is not set");
    assert("FOUNDRY_CIRCLE_OIDC_ISSUER"@ + " is not set"@
        == "FOUNDRY_CIRCLE_OIDC_ISSUER is not set"@);
    assert("FOUNDRY_CIRCLE_OIDC_ISSUER"@ + " is empty"@ == "FOUNDRY_CIRCLE_OIDC_ISSUER is empty"@);
    assert("FOUNDRY_CIRCLE_OIDC_CLIENT_ID"@ + " is not set"@
        == "FOUNDRY_CIRCLE_OIDC_CLIENT_ID is not set"@);
    assert("FOUNDRY_CIRCLE_OIDC_PUBLIC_BASE_URL"@ + " is not set"@
        == "FOUNDRY_CIRCLE_OIDC_PUBLIC_BASE_URL is not set"@);
}

/// A word runs up to the first white character.
proof fn lemma_word_run(s: Seq<char>, n: nat)
    requires
        n <= s.len(),
        forall|i: int| 0 <= i < n ==> !crate::text::is_white(#[trigger] s[i]),
        n < s.len() ==> crate::text::is_white(s[n as int]),
    ensures
        word_len(s) == n,
    decreases n,
{
    if n > 0 {
        assert(!crate::text::is_white(s[0]));
        let rest = s.drop_first();
        assert forall|i: int| 0 <= i < n - 1 implies !crate::text::is_white(#[trigger] rest[i]) by {
            assert(rest[i] == s[i + 1]);
        }
        lemma_word_run(rest, (n - 1) as nat);
    }
}

/// A text without white space is one word, and white space parts a word from
/// what follows it; white space in front does not matter.
pub proof fn lemma_words(word: Seq<char>, c: char, rest: Seq<char>)
    requires
        forall|i: int| 0 <= i < word.len() ==> !crate::text::is_white(#[trigger] word[i]),
        crate::text::is_white(c),
    ensures
        words(seq![]) == Seq::<Seq<char>>::empty(),
        word.len() > 0 ==> words(word) == seq![word],
        word.len() > 0 ==> words(word.push(c) + rest) == seq![word] + words(rest),
        words(seq![c] + rest) == words(rest),
{
    assert((seq![c] + rest).drop_first() == rest);
    assert((seq![c] + rest)[0] == c);
    assert(words(seq![c] + rest) == words(rest));
    assert(words(Seq::<char>::empty()) == Seq::<Seq<char>>::empty());
    if word.len() > 0 {
        lemma_word_run(word, word.len());
        assert(word.take(word.len() as int) == word);
        assert(word.skip(word.len() as int) == Seq::<char>::empty());
        let s = word.push(c) + rest;
        assert forall|i: int| 0 <= i < word.len() implies !crate::text::is_white(#[trigger] s[i]) by {
            assert(s[i] == word[i]);
        }
        assert(s[word.len() as int] == c);
        lemma_word_run(s, word.len());
        assert(s.take(word.len() as int) == word);
        assert(s.skip(word.len() as int) == seq![c] + rest);
        assert(!crate::text::is_white(s[0]));
        assert(words(s) == seq![word] + words(seq![c] + rest));
    }
}

/// A session lives as many seconds as are configured, and twelve hours where
/// nothing, nothing valid or zero is.
pub proof fn lemma_session_lifetime(n: nat, text: Seq<char>)
    ensures
        0 < n <= u64::MAX ==> ttl_seconds(Some(crate::text::decimal(n))) == n,
        ttl_seconds(Some(crate::text::decimal(0))) == 43_200,
        n > u64::MAX ==> ttl_seconds(Some(crate::text::decimal(n))) == 43_200,
        crate::text::unsigned(text, u64::MAX as nat) is None ==> ttl_seconds(Some(text)) == 43_200,
        ttl_seconds(None) == 43_200,
{
    crate::text::lemma_decimal_reads_back(n);
    crate::text::lemma_decimal_reads_back(0);
}

/// The session is read from the cookie `foundry_circle_session`.
pub proof fn lemma_session_cookie_name(token: Seq<char>)
    requires
        !token.contains(';'),
        token.len() > 0 ==> !crate::text::is_white(token.last()),
    ensures
        cookie_value("foundry_circle_session="@ + token, "foundry_circle_session"@) == Some(token),
        session_name() == "foundry_circle_session"@,
        cookie_value(seq![], "foundry_circle_session"@) is None,
{
    reveal_strlit("foundry_circle_session");
    reveal_strlit("foundry_circle_session=");
    let none = Seq::<char>::empty();
    crate::text::lemma_position(none, ';');
    assert(crate::text::split(none, ';') == seq![none]);
    crate::text::lemma_trim_nothing(none);
    crate::text::lemma_position(none, '=');
    reveal_with_fuel(first_cookie, 3);
    assert(seq![none][0] == none);
    assert(seq![none].drop_first() == Seq::<Seq<char>>::empty());
    assert(cookie_value(none, "foundry_circle_session"@) is None);
    lemma_session_reads_back(token, none);
    assert("foundry_circle_session="@ + token == session_name().push('=') + token);
}

/// Of several cookies with a name the first counts, and cookies with other names
/// do not.
pub proof fn lemma_first_cookie_counts(parts: Seq<Seq<char>>, name: Seq<char>, n: int)
    requires
        0 <= n <= parts.len(),
        forall|i: int|
            0 <= i < n ==> first_cookie(seq![#[trigger] parts[i]], name) is None,
    ensures
        n == parts.len() ==> first_cookie(parts, name) is None,
        n < parts.len() && first_cookie(seq![parts[n]], name) is Some ==> first_cookie(parts, name)
            == first_cookie(seq![parts[n]], name),
    decreases n,
{
    if n < parts.len() {
        assert(seq![parts[n]].drop_first() == Seq::<Seq<char>>::empty());
        assert(first_cookie(Seq::<Seq<char>>::empty(), name) is None);
    }
    if n > 0 {
        let rest = parts.drop_first();
        assert(seq![parts[0]][0] == parts[0]);
        assert(first_cookie(seq![parts[0]], name) is None);
        assert forall|i: int| 0 <= i < n - 1 implies first_cookie(
            seq![#[trigger] rest[i]],
            name,
        ) is None by {
            assert(rest[i] == parts[i + 1]);
            assert(first_cookie(seq![parts[i + 1]], name) is None);
        }
        lemma_first_cookie_counts(rest, name, n - 1);
        if n < parts.len() {
            assert(rest[n - 1] == parts[n]);
        }
    } else if parts.len() > 0 {
        assert(seq![parts[0]][0] == parts[0]);
    }
}

/// A cookie that hands out a session names it, lives as long as the session, and
/// is kept from scripts, from plain HTTP and from other sites.
pub proof fn lemma_session_cookie_is_guarded(token: Seq<char>, seconds: nat)
    ensures
        ("foundry_circle_session="@ + token + ";"@).is_prefix_of(
            session_cookie_text(token, seconds),
        ),
        ("; Path=/; Max-Age="@ + crate::text::decimal(seconds)
            + "; HttpOnly; Secure; SameSite=Lax"@).is_suffix_of(
            session_cookie_text(token, seconds),
        ),
{
    reveal_strlit(";");
    reveal_strlit("; Path=/; Max-Age=");
    let whole = session_cookie_text(token, seconds);
    let front = "foundry_circle_session="@ + token + ";"@;
    let back = "; Path=/; Max-Age="@ + crate::text::decimal(seconds)
        + "; HttpOnly; Secure; SameSite=Lax"@;
    assert(whole == "foundry_circle_session="@ + token + back);
    assert(whole.take(front.len() as int) == front);
    assert(whole.skip(whole.len() - back.len()) == back);
}

/// The texts among values are found one by one, in order, and nothing else is.
pub proof fn lemma_texts_among_values(a: Seq<Node>, b: Seq<Node>, node: Node)
    ensures
        node_texts(a + b) == node_texts(a) + node_texts(b),
        node matches Node::Text(text) ==> node_texts(seq![node]) == seq![text],
        !(node is Text) ==> node_texts(seq![node]) == Seq::<Seq<char>>::empty(),
    decreases b.len(),
{
    assert(seq![node].drop_last() == Seq::<Node>::empty());
    assert(node_texts(Seq::<Node>::empty()) == Seq::<Seq<char>>::empty());
    if b.len() == 0 {
        assert(a + b == a);
    } else {
        assert((a + b).drop_last() == a + b.drop_last());
        assert((a + b).last() == b.last());
        lemma_texts_among_values(a, b.drop_last(), node);
    }
}

/// The groups in claims are the items of the array under `groups`; where no
/// array stands there, there are none.
pub proof fn lemma_groups_in_claims(claims: Seq<u8>, i: int)
    ensures
        !(crate::json::json_at(claims, "/groups"@) is Array) ==> group_nodes(claims).len() == 0,
        crate::json::json_at(claims, "/groups"@) matches Node::Array(len) ==> group_nodes(
            claims,
        ).len() == len,
        0 <= i < group_nodes(claims).len() ==> group_nodes(claims)[i] == crate::json::json_at(
            claims,
            "/groups/"@ + crate::text::decimal(i as nat),
        ),
{
}

/// The service answers only with logins and a database; what is missing is said.
pub proof fn lemma_needed_services(auth: bool, database: bool)
    ensures
        service_refusal(auth, database) is None <==> auth && database,
        auth && !database ==> service_refusal(auth, database) == Some(
            Said::Text { status: 503, text: "database is not configured"@ },
        ),
        !auth ==> service_refusal(auth, database) == Some(
            Said::Text { status: 503, text: "OIDC is not configured"@ },
        ),
{
}

/// A request is let through to its session exactly where the service has what it
/// needs and the session cookie came; otherwise the login page is shown.
pub proof fn lemma_requests_with_a_session(
    auth: bool,
    database: bool,
    header: Option<Seq<char>>,
)
    ensures
        request_refusal(auth, database, header) is None <==> auth && database && header is Some
            && cookie_value(header->0, "foundry_circle_session"@) is Some,
        auth && database && (header is None || cookie_value(
            header->0,
            "foundry_circle_session"@,
        ) is None) ==> request_refusal(auth, database, header) == Some(
            Said::Redirect { to: "/api/auth/login"@ },
        ),
{
}

/// A login that has come back goes on exactly where the service has what it
/// needs and a state came with it.
pub proof fn lemma_callback_needs_a_state(
    auth: bool,
    database: bool,
    state: Option<String>,
    group: Seq<char>,
    ttl: nat,
)
    ensures
        callback_said(CallbackEvent::Requested { auth, database, state }, group, ttl) is None
            <==> auth && database && state is Some,
        auth && database && state is None ==> callback_said(
            CallbackEvent::Requested { auth, database, state },
            group,
            ttl,
        ) == Some(Said::Text { status: 400, text: "missing OIDC state"@ }),
{
}

/// A saved login is used only before it ends: not at its end, not after it, and
/// not where it is missing or could not be looked up.
pub proof fn lemma_callback_needs_a_saved_login(
    login: SavedLogin,
    now: Moment,
    group: Seq<char>,
    ttl: nat,
)
    ensures
        callback_said(CallbackEvent::Taken { login, now }, group, ttl) is None
            <==> (login matches SavedLogin::Until(time) && time@ > now@),
        login is Missing ==> callback_said(CallbackEvent::Taken { login, now }, group, ttl) == Some(
            Said::Text { status: 400, text: "invalid or replayed login flow"@ },
        ),
        (login matches SavedLogin::Until(time) && time@ <= now@) ==> callback_said(
            CallbackEvent::Taken { login, now },
            group,
            ttl,
        ) == Some(Said::Text { status: 400, text: "invalid or replayed login flow"@ }),
        login is Failed ==> callback_said(CallbackEvent::Taken { login, now }, group, ttl) == Some(
            Said::Text { status: 500, text: "login transaction error"@ },
        ),
{
}

/// A session is saved only for an identity whose groups hold the one with access.
pub proof fn lemma_callback_needs_the_group(
    groups: Option<Vec<String>>,
    group: Seq<char>,
    ttl: nat,
)
    ensures
        callback_said(CallbackEvent::Completed { groups }, group, ttl) is None <==> groups is Some
            && texts(groups->0@).contains(group),
        groups is None ==> callback_said(CallbackEvent::Completed { groups }, group, ttl) == Some(
            Said::Text { status: 502, text: "OIDC authentication failed"@ },
        ),
        groups is Some && !texts(groups->0@).contains(group) ==> callback_said(
            CallbackEvent::Completed { groups },
            group,
            ttl,
        ) == Some(Said::Text { status: 403, text: "Foundry Circle access is not provisioned"@ }),
{
    if let Some(list) = groups {
        lemma_groups(list@, group);
    }
}

/// A session that was saved is handed out with a redirect to where the login was
/// asked from, or else to the console; one that was not saved is not.
pub proof fn lemma_callback_ends(
    token: String,
    return_to: Option<String>,
    group: Seq<char>,
    ttl: nat,
)
    ensures
        callback_said(CallbackEvent::Saved { saved: true, token, return_to }, group, ttl) == Some(
            Said::RedirectWithCookie {
                to: if return_to is Some {
                    return_to->0@
                } else {
                    "/api/console"@
                },
                cookie: session_cookie_text(token@, ttl / 1_000_000_000),
            },
        ),
        callback_said(CallbackEvent::Saved { saved: false, token, return_to }, group, ttl) == Some(
            Said::Text { status: 500, text: "session error"@ },
        ),
{
}

/// A session ends when it has lived its time or when its token ends, whichever
/// is first; the time is as configured, or twelve hours where that is beyond
/// `i64::MAX` milliseconds.
pub proof fn lemma_session_ends_first(now: int, ttl: nat, token_end: Option<i64>)
    ensures
        ttl <= 9_223_372_036_854_775_807_000_000 ==> lifetime(ttl) == ttl,
        ttl > 9_223_372_036_854_775_807_000_000 ==> lifetime(ttl) == 43_200_000_000_000,
        session_end(now, ttl, None) == now + lifetime(ttl),
        token_end matches Some(secs) ==> session_end(now, ttl, token_end) == now + lifetime(ttl)
            || session_end(now, ttl, token_end) == secs * 1_000_000_000,
{
}

/// A request is let through exactly where its session was found and its
/// principal is still in the group with access.
pub proof fn lemma_sessions_let_through(
    found: SessionLookup,
    access_group: &str,
    r: Result<Principal, Answer>,
)
    requires
        call_ensures(require_session, (found, access_group), r),
    ensures
        r is Ok <==> (found matches SessionLookup::Found(principal) && texts(
            principal.groups@,
        ).contains(access_group@)),
        r matches Ok(principal) ==> found == SessionLookup::Found(principal),
        (found matches SessionLookup::Found(principal) && !texts(principal.groups@).contains(
            access_group@,
        )) ==> (r matches Err(answer) && answer@ == (Said::Text {
            status: 403,
            text: "Foundry Circle access is no longer provisioned"@,
        })),
        found is Missing ==> (r matches Err(answer) && answer@ == (Said::Redirect {
            to: "/api/auth/login"@,
        })),
        found is Failed ==> (r matches Err(answer) && answer@ == (Said::Text {
            status: 500,
            text: "session lookup error"@,
        })),
{
    if let SessionLookup::Found(principal) = found {
        lemma_groups(principal.groups@, access_group@);
    }
}

/// Someone who logged in is let in exactly where the group with access is among
/// their groups.
pub proof fn lemma_identities_let_in(
    groups: Option<&Vec<String>>,
    access_group: &str,
    r: Result<(), Answer>,
)
    requires
        call_ensures(check_identity, (groups, access_group), r),
    ensures
        r is Ok <==> groups is Some && texts(groups->0@).contains(access_group@),
{
    if let Some(list) = groups {
        lemma_groups(list@, access_group@);
    }
}

/// A login begins with a redirect exactly where there is somewhere to go and the
/// login was saved.
pub proof fn lemma_begun_logins(url: Option<String>, saved: bool, r: Answer)
    requires
        call_ensures(login_start, (url, saved), r),
    ensures
        r is Redirect <==> url is Some && saved,
        r matches Answer::Redirect { to } ==> to@ == url->0@,
        url is None ==> r@ == (Said::Text { status: 502, text: "OIDC authentication failed"@ }),
        url is Some && !saved ==> r@ == (Said::Text {
            status: 500,
            text: "login transaction error"@,
        }),
{
    if url is Some && saved {
        assert(r@ is Redirect);
    }
}

/// The configuration of logins holds what is given, and the usual groups, scopes
/// and lifetime where nothing is.
pub proof fn lemma_login_settings(env: AuthEnv, r: Result<AuthSettings, String>)
    requires
        call_ensures(from_env, (env,), r),
    ensures
        r matches Ok(settings) ==> {
            &&& env.issuer is Some && settings.issuer@ == env.issuer->0@
            &&& env.client_id is Some && settings.client_id@ == env.client_id->0@
            &&& env.public_base_url is Some && settings.redirect_uri@ == env.public_base_url->0@
                + "/api/auth/oidc/callback"@
            &&& env.scopes is Some ==> texts(settings.scopes@) == words(env.scopes->0@)
            &&& env.access_group is Some ==> settings.access_group@ == env.access_group->0@
            &&& env.access_group is None ==> settings.access_group@ == "foundry-circle-users"@
            &&& env.admin_group is Some ==> settings.admin_group@ == env.admin_group->0@
            &&& env.admin_group is None ==> settings.admin_group@ == "foundry-circle-admins"@
            &&& env.session_ttl is None ==> settings.session_ttl@ == 43_200_000_000_000
        },
        env.issuer is None ==> r is Err,
        env.client_id is None ==> r is Err,
        env.public_base_url is None ==> r is Err,
{
}

/// A time before 1970 counts as 1970, and any other as it is.
pub proof fn lemma_timestamps(secs: i64, r: u64)
    requires
        call_ensures(unix_timestamp, (secs,), r),
    ensures
        secs >= 0 ==> r == secs,
        secs < 0 ==> r == 0,
{
}

/// A login that has come back is completed step by step: the saved login with
/// its state is taken, then the login is completed, then a session is saved,
/// each where nothing is answered instead.
pub proof fn lemma_callback_steps(
    event: CallbackEvent,
    access_group: &str,
    ttl: Duration,
    r: CallbackAction,
)
    requires
        has_valid_times(event),
        call_ensures(oidc_callback, (event, access_group, ttl), r),
    ensures
        r is Answer <==> callback_said(event, access_group@, ttl@) is Some,
        event matches CallbackEvent::Requested { auth, database, state } ==> (r is TakeTransaction
            <==> auth && database && state is Some),
        event matches CallbackEvent::Taken { login, now } ==> (r is CompleteLogin <==> (
        login matches SavedLogin::Until(time) && time@ > now@)),
        event matches CallbackEvent::Completed { groups } ==> (r is SaveSession <==> groups is Some
            && texts(groups->0@).contains(access_group@)),
        event is Saved ==> r is Answer,
{
    if let CallbackEvent::Completed { groups } = event {
        lemma_callback_needs_the_group(groups, access_group@, ttl@);
    }
}

}
