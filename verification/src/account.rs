//! The licensed account flow: the login page is fetched, the login form is
//! submitted, the download URL of the release is requested, and the archive is
//! downloaded from it. Each step is decided by the answer to the one before it.
use vstd::prelude::*;
use vstd::utf8::decode_utf8;

use crate::error::{Fault, FetchError};
use crate::fetch::{check_status, checked_text};
use crate::html::extract_input;
use crate::release::{Platform, ReleaseId};
use crate::text::contains;
use crate::web::{check_release_url, join_url, release_endpoint, Address, WebUrl, MAX_URL_CHARS};

verus! {

/// The URL of the login page, to which the login form is submitted too.
pub fn login_url(site: &WebUrl) -> (r: Result<String, FetchError>)
    ensures
        match r {
            Ok(url) => crate::web::url_joined(site@.text, "auth/login/"@) == Some(url@),
            Err(e) => join_fault(site@, "auth/login/"@) == Some(e@),
        },
{
    join_url(site, "auth/login/")
}

/// The token in the login form of a page.
pub open spec fn page_token(page: Seq<char>) -> Option<Seq<char>> {
    crate::html::first_input(crate::text::split(page, '<'), "csrfmiddlewaretoken"@)
}

/// What speaks against an answer that should be the login page.
pub open spec fn page_fault(status: u16, body: Seq<u8>) -> Option<Fault> {
    match crate::fetch::text_fault(status, body, "login page"@) {
        Some(fault) => Some(fault),
        None => if page_token(decode_utf8(body)) is None {
            Some(Fault::MissingFormField("csrfmiddlewaretoken"@))
        } else {
            None
        },
    }
}

/// The token that is submitted with the login form, from the answer to the
/// request for the login page.
pub fn login_token(status: u16, body: Vec<u8>) -> (r: Result<String, FetchError>)
    ensures
        match r {
            Ok(token) => page_fault(status, body@) is None && page_token(decode_utf8(body@))
                == Some(token@),
            Err(e) => page_fault(status, body@) == Some(e@),
        },
{
    match checked_text(status, body, "login page") {
        Ok(page) => match extract_input(page.as_str(), "csrfmiddlewaretoken") {
            Some(token) => Ok(token),
            None => Err(FetchError::MissingFormField("csrfmiddlewaretoken")),
        },
        Err(e) => Err(e),
    }
}

/// Whether a page is shown to someone who is logged in.
pub open spec fn shows_login(page: Seq<char>) -> bool {
    crate::text::has_text(page, "login-welcome"@) || crate::text::has_text(page, "logout"@)
}

/// What speaks against the answer to a login.
pub open spec fn login_fault(status: u16, body: Seq<u8>) -> Option<Fault> {
    match crate::fetch::text_fault(status, body, "account login"@) {
        Some(fault) => Some(fault),
        None => if shows_login(decode_utf8(body)) {
            None
        } else {
            Some(Fault::AuthenticationRejected { status })
        },
    }
}

/// Checks the answer to a login. Only a page that is shown to someone who is
/// logged in is accepted.
pub fn check_login(status: u16, body: Vec<u8>) -> (r: Result<(), FetchError>)
    ensures
        match r {
            Ok(()) => login_fault(status, body@) is None,
            Err(e) => login_fault(status, body@) == Some(e@),
        },
{
    match checked_text(status, body, "account login") {
        Ok(page) => if contains(page.as_str(), "login-welcome") || contains(page.as_str(), "logout") {
            Ok(())
        } else {
            Err(FetchError::AuthenticationRejected { status })
        },
        Err(e) => Err(e),
    }
}

/// The fault of a path that cannot be joined to the site.
pub open spec fn join_fault(site: Address, path: Seq<char>) -> Option<Fault> {
    match crate::web::url_joined(site.text, path) {
        Some(_) => None,
        None => Some(
            Fault::InvalidUrl(
                "cannot join "@ + crate::text::debug_text(path) + " to Foundry site"@,
            ),
        ),
    }
}

/// What speaks against requesting a download URL after the answer to the login.
pub open spec fn request_fault(site: Address, status: u16, body: Seq<u8>) -> Option<Fault> {
    match login_fault(status, body) {
        Some(fault) => Some(fault),
        None => join_fault(site, "releases/download"@),
    }
}

/// The URL at which the download URL of a release is requested, from the answer
/// to the login. Nothing is requested after a login that was not accepted.
pub fn release_request(
    site: &WebUrl,
    release: &ReleaseId,
    platform: Platform,
    status: u16,
    body: Vec<u8>,
) -> (r: Result<String, FetchError>)
    requires
        site@.text.len() <= MAX_URL_CHARS,
    ensures
        match r {
            Ok(url) => request_fault(site@, status, body@) is None && crate::web::url_query(
                site@.text,
                "releases/download"@,
                crate::web::release_query(*release, platform),
            ) == Some(url@),
            Err(e) => request_fault(site@, status, body@) == Some(e@),
        },
{
    match check_login(status, body) {
        Ok(()) => release_endpoint(site, release, platform),
        Err(e) => Err(e),
    }
}

/// What speaks against the answer to the request for a download URL: its
/// status, that it could not be read, that what it holds is no URL, or that
/// nothing may be downloaded from there. `answer` is the URL in it, or why it
/// could not be read; `parsed` is what that URL was read as.
pub open spec fn release_fault(
    site: Address,
    status: u16,
    answer: Result<Seq<char>, Seq<char>>,
    parsed: Option<Address>,
) -> Option<Fault> {
    if !crate::fetch::is_success(status) {
        Some(Fault::Remote { status, context: "release URL endpoint"@ })
    } else {
        match (answer, parsed) {
            (Err(text), _) => Some(Fault::Metadata(text)),
            (Ok(_), None) => Some(
                Fault::InvalidUrl("release endpoint returned an invalid download URL"@),
            ),
            (Ok(_), Some(url)) => if crate::web::may_download(url, site) {
                None
            } else {
                Some(
                    Fault::InvalidUrl(
                        "download URL must use HTTPS (loopback HTTP is allowed only for tests)"@,
                    ),
                )
            },
        }
    }
}

/// The content of a text that was read, or of the reason why it was not.
pub open spec fn answer_text(answer: Result<String, String>) -> Result<Seq<char>, Seq<char>> {
    match answer {
        Ok(text) => Ok(text@),
        Err(text) => Err(text@),
    }
}

/// The content of a URL that was read.
pub open spec fn address(parsed: Option<WebUrl>) -> Option<Address> {
    match parsed {
        Some(url) => Some(url@),
        None => None,
    }
}

/// Checks the answer to the request for a download URL. `parsed` is what the
/// URL in it was read as.
pub fn check_release_answer(
    site: &WebUrl,
    status: u16,
    answer: Result<String, String>,
    parsed: Option<WebUrl>,
) -> (r: Result<WebUrl, FetchError>)
    ensures
        match r {
            Ok(url) => release_fault(site@, status, answer_text(answer), address(parsed)) is None
                && parsed == Some(url),
            Err(e) => release_fault(site@, status, answer_text(answer), address(parsed)) == Some(
                e@,
            ),
        },
{
    match check_status(status, "release URL endpoint") {
        Ok(()) => {},
        Err(e) => return Err(e),
    }
    match answer {
        Ok(_) => check_release_url(parsed, site),
        Err(text) => Err(FetchError::Metadata(text)),
    }
}

/// The URL from which the archive is downloaded, from the answer to the request
/// for it.
pub fn download_url(site: &WebUrl, status: u16, answer: Result<String, String>) -> (r: Result<
    WebUrl,
    FetchError,
>)
    ensures
        ({
            let parsed = parsed_answer(answer);
            match r {
                Ok(url) => release_fault(site@, status, answer_text(answer), parsed) is None
                    && parsed == Some(url@),
                Err(e) => release_fault(site@, status, answer_text(answer), parsed) == Some(e@),
            }
        }),
{
    let parsed = match &answer {
        Ok(text) => WebUrl::parse(text.as_str()),
        Err(_) => None,
    };
    check_release_answer(site, status, answer, parsed)
}

/// Where the flow stands: which answer it waits for.
#[derive(Debug, Clone, Copy, PartialEq, Eq, Structural)]
pub enum AccountState {
    /// Nothing was requested yet.
    Start,
    /// The login page was requested.
    LoginPage,
    /// The login form was submitted.
    Login,
    /// The download URL was requested.
    Release,
    /// The flow is over.
    Done,
}

/// What the flow is told.
#[derive(Debug)]
pub enum AccountEvent {
    Begin,
    /// An answer to the request for the login page, or to the login.
    Answered { status: u16, body: Vec<u8> },
    /// An answer to the request for the download URL: the URL in it, or why it
    /// could not be read.
    ReleaseAnswered { status: u16, answer: Result<String, String> },
}

/// What is to be done next.
#[derive(Debug)]
pub enum AccountAction {
    GetLoginPage { url: String },
    /// The form goes to the URL, which is also the referer, with this token.
    SubmitLogin { url: String, token: String },
    RequestRelease { url: String },
    Download { from: WebUrl },
    Fail(FetchError),
}

/// Whether an event can come in a state.
pub open spec fn expects(state: AccountState, event: AccountEvent) -> bool {
    match event {
        AccountEvent::Begin => state == AccountState::Start,
        AccountEvent::Answered { .. } => state == AccountState::LoginPage || state
            == AccountState::Login,
        AccountEvent::ReleaseAnswered { .. } => state == AccountState::Release,
    }
}

/// What the URL in an answer was read as.
pub open spec fn parsed_answer(answer: Result<String, String>) -> Option<Address> {
    match answer {
        Ok(text) => crate::web::url_of(text@),
        Err(_) => None,
    }
}

/// What ends the flow in a state, after an event.
pub open spec fn step_fault(site: Address, state: AccountState, event: AccountEvent) -> Option<
    Fault,
> {
    match event {
        AccountEvent::Begin => join_fault(site, "auth/login/"@),
        AccountEvent::Answered { status, body } => if state == AccountState::LoginPage {
            match page_fault(status, body@) {
                Some(fault) => Some(fault),
                None => join_fault(site, "auth/login/"@),
            }
        } else {
            request_fault(site, status, body@)
        },
        AccountEvent::ReleaseAnswered { status, answer } => release_fault(
            site,
            status,
            answer_text(answer),
            parsed_answer(answer),
        ),
    }
}

/// The state that follows, where nothing ends the flow.
pub open spec fn state_after(state: AccountState) -> AccountState {
    match state {
        AccountState::Start => AccountState::LoginPage,
        AccountState::LoginPage => AccountState::Login,
        AccountState::Login => AccountState::Release,
        AccountState::Release => AccountState::Done,
        AccountState::Done => AccountState::Done,
    }
}

/// Decides what is done next, and where the flow stands then.
pub fn account_step(
    state: AccountState,
    event: AccountEvent,
    site: &WebUrl,
    release: &ReleaseId,
    platform: Platform,
) -> (r: (AccountState, AccountAction))
    requires
        expects(state, event),
        site@.text.len() <= MAX_URL_CHARS,
    ensures
        match r.1 {
            AccountAction::Fail(e) => r.0 == AccountState::Done && step_fault(site@, state, event)
                == Some(e@),
            _ => r.0 == state_after(state) && step_fault(site@, state, event) is None,
        },
        match r.1 {
            AccountAction::GetLoginPage { url } => state == AccountState::Start
                && crate::web::url_joined(site@.text, "auth/login/"@) == Some(url@),
            AccountAction::SubmitLogin { url, token } => {
                &&& state == AccountState::LoginPage
                &&& crate::web::url_joined(site@.text, "auth/login/"@) == Some(url@)
                &&& event matches AccountEvent::Answered { body, .. } && page_token(
                    decode_utf8(body@),
                ) == Some(token@)
            },
            AccountAction::RequestRelease { url } => state == AccountState::Login
                && crate::web::url_query(
                site@.text,
                "releases/download"@,
                crate::web::release_query(*release, platform),
            ) == Some(url@),
            AccountAction::Download { from } => {
                &&& state == AccountState::Release
                &&& event matches AccountEvent::ReleaseAnswered { answer, .. }
                    && parsed_answer(answer) == Some(from@)
            },
            AccountAction::Fail(_) => true,
        },
{
    match event {
        AccountEvent::Begin => match login_url(site) {
            Ok(url) => (AccountState::LoginPage, AccountAction::GetLoginPage { url }),
            Err(e) => (AccountState::Done, AccountAction::Fail(e)),
        },
        AccountEvent::Answered { status, body } => if state == AccountState::LoginPage {
            match login_token(status, body) {
                Ok(token) => match login_url(site) {
                    Ok(url) => (AccountState::Login, AccountAction::SubmitLogin { url, token }),
                    Err(e) => (AccountState::Done, AccountAction::Fail(e)),
                },
                Err(e) => (AccountState::Done, AccountAction::Fail(e)),
            }
        } else {
            match release_request(site, release, platform, status, body) {
                Ok(url) => (AccountState::Release, AccountAction::RequestRelease { url }),
                Err(e) => (AccountState::Done, AccountAction::Fail(e)),
            }
        },
        AccountEvent::ReleaseAnswered { status, answer } => match download_url(site, status, answer) {
            Ok(from) => (AccountState::Done, AccountAction::Download { from }),
            Err(e) => (AccountState::Done, AccountAction::Fail(e)),
        },
    }
}

/// Whether events lead from the start of the flow to the end of a download,
/// without a fault.
pub open spec fn leads_to_download(site: Address, events: Seq<AccountEvent>) -> bool {
    &&& events.len() == 4
    &&& expects(AccountState::Start, events[0]) && step_fault(
        site,
        AccountState::Start,
        events[0],
    ) is None
    &&& expects(AccountState::LoginPage, events[1]) && step_fault(
        site,
        AccountState::LoginPage,
        events[1],
    ) is None
    &&& expects(AccountState::Login, events[2]) && step_fault(
        site,
        AccountState::Login,
        events[2],
    ) is None
    &&& expects(AccountState::Release, events[3]) && step_fault(
        site,
        AccountState::Release,
        events[3],
    ) is None
}

/// Nothing is downloaded unless the login page had a token, the login was
/// accepted, and the site answered with a URL that may be downloaded from.
pub proof fn lemma_download_needs_a_login(site: Address, events: Seq<AccountEvent>)
    requires
        leads_to_download(site, events),
    ensures
        events[1] matches AccountEvent::Answered { status, body } && crate::fetch::is_success(status)
            && page_token(decode_utf8(body@)) is Some,
        events[2] matches AccountEvent::Answered { status, body } && crate::fetch::is_success(status)
            && shows_login(decode_utf8(body@)),
        events[3] matches AccountEvent::ReleaseAnswered { status, answer } && crate::fetch::is_success(
            status,
        ) && parsed_answer(answer) is Some && crate::web::may_download(
            parsed_answer(answer)->Some_0,
            site,
        ),
{
}

/// A login that is refused, by its status or by what the page shows, ends the
/// flow: there is a fault, and it does not depend on anything but the answer.
pub proof fn lemma_rejected_login_fails_closed(status: u16, body: Seq<u8>)
    requires
        !crate::fetch::is_success(status) || !vstd::utf8::valid_utf8(body) || !shows_login(
            decode_utf8(body),
        ),
    ensures
        login_fault(status, body) is Some,
        !crate::fetch::is_success(status) ==> login_fault(status, body) == Some(
            Fault::Remote { status, context: "account login"@ },
        ),
{
}

/// Whatever the site answers, the archive is downloaded over HTTPS, or from
/// this machine where the site is reached over HTTPS or is on it too.
pub proof fn lemma_flow_downloads_are_secure(
    site: Address,
    status: u16,
    answer: Result<Seq<char>, Seq<char>>,
    parsed: Option<Address>,
)
    requires
        release_fault(site, status, answer, parsed) is None,
    ensures
        parsed is Some,
        parsed->Some_0.scheme == "https"@ || (crate::web::is_secure_or_loopback(parsed->Some_0)
            && crate::web::is_secure_or_loopback(site)),
{
}

/// A login is accepted exactly where it succeeded with a text that shows
/// `login-welcome` or `logout`.
pub proof fn lemma_accepted_logins(status: u16, body: Seq<u8>)
    ensures
        login_fault(status, body) is None <==> status / 100 == 2 && vstd::utf8::valid_utf8(body) && (
        crate::text::has_text(decode_utf8(body), "login-welcome"@) || crate::text::has_text(
            decode_utf8(body),
            "logout"@,
        )),
        status / 100 == 2 && vstd::utf8::valid_utf8(body) && !crate::text::has_text(
            decode_utf8(body),
            "login-welcome"@,
        ) && !crate::text::has_text(decode_utf8(body), "logout"@) ==> login_fault(status, body)
            == Some(Fault::AuthenticationRejected { status }),
        status / 100 != 2 ==> login_fault(status, body) == Some(
            Fault::Remote { status, context: "account login"@ },
        ),
{
}

/// A page that shows the mark of someone who is logged in is accepted, whatever
/// stands around the mark.
pub proof fn lemma_mark_is_found(status: u16, body: Seq<u8>, before: Seq<char>, after: Seq<char>)
    requires
        status / 100 == 2,
        vstd::utf8::valid_utf8(body),
        decode_utf8(body) == before + "login-welcome"@ + after || decode_utf8(body) == before
            + "logout"@ + after,
    ensures
        login_fault(status, body) is None,
{
    let page = decode_utf8(body);
    if page == before + "login-welcome"@ + after {
        assert(page.subrange(before.len() as int, (before.len() + "login-welcome"@.len()) as int)
            == "login-welcome"@);
        assert(crate::text::occurs_at(page, "login-welcome"@, before.len() as int));
    } else {
        assert(page.subrange(before.len() as int, (before.len() + "logout"@.len()) as int)
            == "logout"@);
        assert(crate::text::occurs_at(page, "logout"@, before.len() as int));
    }
}

/// The login page is accepted exactly where it came with success, is a text, and
/// has a `csrfmiddlewaretoken` field; what is missing is named.
pub proof fn lemma_accepted_login_pages(status: u16, body: Seq<u8>)
    ensures
        page_fault(status, body) is None <==> status / 100 == 2 && vstd::utf8::valid_utf8(body)
            && crate::html::first_input(
            crate::text::split(decode_utf8(body), '<'),
            "csrfmiddlewaretoken"@,
        ) is Some,
        status / 100 != 2 ==> page_fault(status, body) == Some(
            Fault::Remote { status, context: "login page"@ },
        ),
        status / 100 == 2 && vstd::utf8::valid_utf8(body) && crate::html::first_input(
            crate::text::split(decode_utf8(body), '<'),
            "csrfmiddlewaretoken"@,
        ) is None ==> page_fault(status, body) == Some(
            Fault::MissingFormField("csrfmiddlewaretoken"@),
        ),
{
}

/// An answer with a download URL is accepted exactly where it came with success,
/// could be read, and holds a URL that uses HTTPS, or that leads to this machine
/// while the site uses HTTPS or is on this machine too.
pub proof fn lemma_accepted_release_answers(
    site: Address,
    status: u16,
    answer: Result<Seq<char>, Seq<char>>,
    parsed: Option<Address>,
)
    ensures
        release_fault(site, status, answer, parsed) is None <==> status / 100 == 2 && answer is Ok
            && parsed is Some && (parsed->0.scheme == "https"@ || (parsed->0.host is Some
            && crate::web::is_loopback_host(parsed->0.host->0) && (site.scheme == "https"@ || (
        site.host is Some && crate::web::is_loopback_host(site.host->0))))),
        status / 100 != 2 ==> release_fault(site, status, answer, parsed) == Some(
            Fault::Remote { status, context: "release URL endpoint"@ },
        ),
        status / 100 == 2 && answer is Err ==> release_fault(site, status, answer, parsed) == Some(
            Fault::Metadata(answer->Err_0),
        ),
        status / 100 == 2 && answer is Ok && parsed is None ==> release_fault(
            site,
            status,
            answer,
            parsed,
        ) == Some(Fault::InvalidUrl("release endpoint returned an invalid download URL"@)),
{
}

/// The flow goes from the login page to the login, from there to the request for
/// the download URL, and ends with its answer. It never starts over.
pub proof fn lemma_order_of_the_flow(state: AccountState)
    ensures
        state_after(state) != AccountState::Start,
        state_after(AccountState::Start) == AccountState::LoginPage,
        state_after(state_after(AccountState::Start)) == AccountState::Login,
        state_after(state_after(state_after(AccountState::Start))) == AccountState::Release,
        state_after(AccountState::Release) == AccountState::Done,
        state_after(AccountState::Done) == AccountState::Done,
{
}

/// Where a step of the flow fails, it is for what the answer to that step was, or
/// for a URL that could not be made; a good answer leads on.
pub proof fn lemma_steps_of_the_flow(site: Address, status: u16, body: Vec<u8>)
    ensures
        step_fault(site, AccountState::Start, AccountEvent::Begin) is None
            <==> crate::web::url_joined(site.text, "auth/login/"@) is Some,
        step_fault(site, AccountState::LoginPage, AccountEvent::Answered { status, body }) is None
            <==> page_fault(status, body@) is None && crate::web::url_joined(
            site.text,
            "auth/login/"@,
        ) is Some,
        step_fault(site, AccountState::Login, AccountEvent::Answered { status, body }) is None
            <==> login_fault(status, body@) is None && crate::web::url_joined(
            site.text,
            "releases/download"@,
        ) is Some,
{
}

/// Checking the answer to a login accepts it exactly where it succeeded with a
/// text that shows `login-welcome` or `logout`.
pub proof fn lemma_checked_logins(status: u16, body: Vec<u8>, r: Result<(), FetchError>)
    requires
        call_ensures(check_login, (status, body), r),
    ensures
        r is Ok <==> 200 <= status < 300 && vstd::utf8::valid_utf8(body@) && (crate::text::has_text(
            decode_utf8(body@),
            "login-welcome"@,
        ) || crate::text::has_text(decode_utf8(body@), "logout"@)),
{
}

/// What the input element of a login form says is read back from the page that
/// holds it, behind whatever stands before it without a token of its own.
pub proof fn lemma_token_reads_back(before: Seq<char>, token: Seq<char>, after: Seq<char>)
    requires
        page_token(before) is None,
        !token.contains('"'),
        !token.contains('<'),
    ensures
        page_token(
            before + "<input name=\"csrfmiddlewaretoken\" value=\""@ + token + "\">"@ + after,
        ) == Some(token),
{
    reveal_strlit("<input name=\"csrfmiddlewaretoken\" value=\"");
    reveal_strlit("\">");
    reveal_strlit("input");
    reveal_strlit("name");
    reveal_strlit("value");
    reveal_strlit("csrfmiddlewaretoken");
    let opening = "<input name=\"csrfmiddlewaretoken\" value=\""@;
    let field = "csrfmiddlewaretoken"@;
    let page = before + opening + token + "\">"@ + after;
    let end = crate::text::position(after, '<');
    crate::text::lemma_position(after, '<');
    let tail = seq!['>'] + after.take(end);
    let attributes = opening.skip(6) + token + seq!['"'] + tail;
    let fragment = "input"@ + attributes;
    let rest = opening.skip(1) + token + "\">"@ + after;
    assert(page == before.push('<') + rest);
    crate::text::lemma_split_join(before, rest, '<');
    // The element is the first fragment of what stands behind its `<`.
    assert(fragment == rest.take(fragment.len() as int));
    assert forall|i: int| 0 <= i < fragment.len() implies rest[i] != '<' by {
        assert(rest[i] == fragment[i]);
        let n = opening.len() - 1;
        if i < n {
            assert(rest[i] == opening[i + 1]);
        } else if i < n + token.len() {
            assert(rest[i] == token[i - n]);
            assert(token.contains(token[i - n]));
        } else if i >= n + token.len() + 2 {
            assert(rest[i] == after[i - n - token.len() - 2]);
        }
    }
    crate::text::lemma_position(rest, '<');
    let p = fragment.len() as int;
    assert(p < rest.len() ==> rest[p] == '<') by {
        if p < rest.len() {
            assert(rest[p] == after[end]);
        }
    }
    crate::text::lemma_position_is(rest, '<', p);
    assert(crate::text::split(rest, '<')[0] == fragment) by {
        if p == rest.len() {
            assert(rest.take(p) == rest);
        }
    }
    // Its name is the one that is looked for, and its value the token.
    let none = Seq::<char>::empty();
    let shown = opening.skip(33) + token + seq!['"'] + tail;
    assert(attributes == seq![' '] + "name"@ + seq!['='] + none + seq!['"'] + field + seq!['"']
        + shown);
    assert(attributes[0] == ' ');
    assert forall|i: int| 0 <= i < 1 implies !#[trigger] crate::text::occurs_at(
        attributes,
        "name"@ + seq!['='],
        i,
    ) by {
        if crate::text::occurs_at(attributes, "name"@ + seq!['='], i) {
            assert(attributes.subrange(i, i + 5)[0] == ("name"@ + seq!['='])[0]);
        }
    }
    assert(!field.contains('"'));
    crate::html::lemma_attribute_reads_back(seq![' '], "name"@, none, '"', field, shown);
    let front = opening.subrange(6, 34);
    assert(attributes == front + "value"@ + seq!['='] + none + seq!['"'] + token + seq!['"']
        + tail);
    assert forall|i: int| 0 <= i < front.len() implies !#[trigger] crate::text::occurs_at(
        attributes,
        "value"@ + seq!['='],
        i,
    ) by {
        if crate::text::occurs_at(attributes, "value"@ + seq!['='], i) {
            assert(attributes.subrange(i, i + 6)[0] == ("value"@ + seq!['='])[0]);
            assert(attributes[i] == opening[i + 6]);
        }
    }
    crate::html::lemma_attribute_reads_back(front, "value"@, none, '"', token, tail);
    crate::html::lemma_inputs(attributes, fragment, field);
    let first = crate::text::split(before, '<');
    let all = crate::text::split(page, '<');
    crate::text::lemma_split_parts(rest, '<');
    lemma_no_input_before(first, field);
    assert(all == first + crate::text::split(rest, '<'));
    assert(all[first.len() as int] == fragment);
    assert forall|i: int| 0 <= i < first.len() implies crate::html::input_value(
        #[trigger] all[i],
        field,
    ) is None by {
        assert(all[i] == first[i]);
    }
    crate::html::lemma_first_input_counts(all, field, first.len() as int);
}

proof fn lemma_no_input_before(fragments: Seq<Seq<char>>, name: Seq<char>)
    requires
        crate::html::first_input(fragments, name) is None,
    ensures
        forall|i: int|
            0 <= i < fragments.len() ==> crate::html::input_value(#[trigger] fragments[i], name) is None,
    decreases fragments.len(),
{
    if fragments.len() > 0 {
        let rest = fragments.drop_first();
        lemma_no_input_before(rest, name);
        assert forall|i: int| 0 <= i < fragments.len() implies crate::html::input_value(
            #[trigger] fragments[i],
            name,
        ) is None by {
            if i > 0 {
                assert(fragments[i] == rest[i - 1]);
            }
        }
    }
}

/// After a login that was not accepted nothing is requested any more: the flow
/// is over. After one that was, the download URL of the release is requested.
pub proof fn lemma_step_after_a_login(
    status: u16,
    body: Vec<u8>,
    site: &WebUrl,
    release: &ReleaseId,
    platform: Platform,
    r: (AccountState, AccountAction),
)
    requires
        site@.text.len() <= MAX_URL_CHARS,
        call_ensures(
            account_step,
            (
                AccountState::Login,
                AccountEvent::Answered { status, body },
                site,
                release,
                platform,
            ),
            r,
        ),
    ensures
        login_fault(status, body@) is Some ==> r.0 == AccountState::Done && r.1 is Fail,
        r.1 is Fail || r.1 is RequestRelease,
        r.1 is RequestRelease ==> r.0 == AccountState::Release && login_fault(status, body@) is None,
{
}

}
