//! What can go wrong while a release is acquired, and how it is reported.
use vstd::prelude::*;

use crate::text::push_decimal;

verus! {

/// The standard reason phrase of an HTTP status code, as
/// `reqwest::StatusCode` knows it.
pub uninterp spec fn canonical_reason(code: u16) -> Option<Seq<char>>;

/// Calls `reqwest::StatusCode::from_u16` and `StatusCode::canonical_reason`:
/// the reason phrase is a fixed table over the codes, and a code without an
/// entry in it has none.
#[verifier::external_body]
fn reason_phrase(code: u16) -> (r: Option<&'static str>)
    ensures
        match r {
            Some(phrase) => canonical_reason(code) == Some(phrase@),
            None => canonical_reason(code) is None,
        },
{
    reqwest::StatusCode::from_u16(code).ok().and_then(|status| status.canonical_reason())
}

#[derive(Debug)]
#[allow(inconsistent_fields)]
pub enum FetchError {
    InvalidRelease(String),
    InvalidUrl(String),
    NotRegularFile(String),
    TooLarge { limit: u64 },
    InvalidArchive(String),
    Http { context: &'static str },
    Remote { status: u16, context: String },
    AuthenticationRejected { status: u16 },
    MissingFormField(&'static str),
    Metadata(String),
    NoAcquisitionSource,
    Io(String),
}

/// The content of a `FetchError`.
pub ghost enum Fault {
    InvalidRelease(Seq<char>),
    InvalidUrl(Seq<char>),
    NotRegularFile(Seq<char>),
    TooLarge { limit: u64 },
    InvalidArchive(Seq<char>),
    Http { context: Seq<char> },
    Remote { status: u16, context: Seq<char> },
    AuthenticationRejected { status: u16 },
    MissingFormField(Seq<char>),
    Metadata(Seq<char>),
    NoAcquisitionSource,
    Io(Seq<char>),
}

impl View for FetchError {
    type V = Fault;

    open spec fn view(&self) -> Fault {
        match self {
            FetchError::InvalidRelease(text) => Fault::InvalidRelease(text@),
            FetchError::InvalidUrl(text) => Fault::InvalidUrl(text@),
            FetchError::NotRegularFile(path) => Fault::NotRegularFile(path@),
            FetchError::TooLarge { limit } => Fault::TooLarge { limit: *limit },
            FetchError::InvalidArchive(text) => Fault::InvalidArchive(text@),
            FetchError::Http { context } => Fault::Http { context: context@ },
            FetchError::Remote { status, context } => Fault::Remote {
                status: *status,
                context: context@,
            },
            FetchError::AuthenticationRejected { status } => Fault::AuthenticationRejected {
                status: *status,
            },
            FetchError::MissingFormField(field) => Fault::MissingFormField(field@),
            FetchError::Metadata(text) => Fault::Metadata(text@),
            FetchError::NoAcquisitionSource => Fault::NoAcquisitionSource,
            FetchError::Io(text) => Fault::Io(text@),
        }
    }
}

/// A status code as it is shown: the number and the reason phrase.
pub open spec fn status_text(code: u16) -> Seq<char> {
    crate::text::decimal(code as nat) + " "@ + match canonical_reason(code) {
        Some(phrase) => phrase,
        None => "<unknown status code>"@,
    }
}

/// What is shown of a fault.
pub open spec fn fault_text(fault: Fault) -> Seq<char> {
    match fault {
        Fault::InvalidRelease(text) => "invalid release identifier: "@ + text,
        Fault::InvalidUrl(text) => "invalid URL: "@ + text,
        Fault::NotRegularFile(path) => "archive is not a regular file: "@ + path,
        Fault::TooLarge { limit } => "archive exceeds the configured size limit ("@
            + crate::text::decimal(limit as nat) + " bytes)"@,
        Fault::InvalidArchive(text) => "archive validation failed: "@ + text,
        Fault::Http { context } => "HTTP request failed while "@ + context
            + "; URL and response content redacted"@,
        Fault::Remote { status, context } => "Foundry endpoint returned "@ + status_text(status)
            + ": "@ + context,
        Fault::AuthenticationRejected { status } =>
            "Foundry account login response did not indicate success ("@ + status_text(status)
            + ")"@,
        Fault::MissingFormField(field) => "required login form field was not found: "@ + field,
        Fault::Metadata(text) => "cache metadata is invalid: "@ + text,
        Fault::NoAcquisitionSource => "no usable release acquisition source was supplied"@,
        Fault::Io(text) => "I/O error: "@ + text,
    }
}

/// Writes the number of a status code and its reason phrase.
fn push_status(out: &mut String, code: u16)
    ensures
        final(out)@ == old(out)@ + status_text(code),
{
    push_decimal(out, code as u64);
    out.append(" ");
    match reason_phrase(code) {
        Some(phrase) => out.append(phrase),
        None => out.append("<unknown status code>"),
    }
}

impl FetchError {
    /// The text that is shown of the error. A failed request is shown by what
    /// was being done, without its URL or anything that came back.
    pub fn message(&self) -> (r: String)
        ensures
            r@ == fault_text(self@),
    {
        let mut out = String::new();
        match self {
            FetchError::InvalidRelease(text) => {
                out.append("invalid release identifier: ");
                out.append(text.as_str());
            },
            FetchError::InvalidUrl(text) => {
                out.append("invalid URL: ");
                out.append(text.as_str());
            },
            FetchError::NotRegularFile(path) => {
                out.append("archive is not a regular file: ");
                out.append(path.as_str());
            },
            FetchError::TooLarge { limit } => {
                out.append("archive exceeds the configured size limit (");
                push_decimal(&mut out, *limit);
                out.append(" bytes)");
            },
            FetchError::InvalidArchive(text) => {
                out.append("archive validation failed: ");
                out.append(text.as_str());
            },
            FetchError::Http { context } => {
                out.append("HTTP request failed while ");
                out.append(context);
                out.append("; URL and response content redacted");
            },
            FetchError::Remote { status, context } => {
                out.append("Foundry endpoint returned ");
                push_status(&mut out, *status);
                out.append(": ");
                out.append(context.as_str());
            },
            FetchError::AuthenticationRejected { status } => {
                out.append("Foundry account login response did not indicate success (");
                push_status(&mut out, *status);
                out.append(")");
            },
            FetchError::MissingFormField(field) => {
                out.append("required login form field was not found: ");
                out.append(field);
            },
            FetchError::Metadata(text) => {
                out.append("cache metadata is invalid: ");
                out.append(text.as_str());
            },
            FetchError::NoAcquisitionSource => {
                out.append("no usable release acquisition source was supplied");
            },
            FetchError::Io(text) => {
                out.append("I/O error: ");
                out.append(text.as_str());
            },
        }
        out
    }
}

/// What is shown of a failed request holds no slash, and so no URL, unless what
/// was being done is said with one.
pub proof fn lemma_failed_request_is_redacted(context: Seq<char>)
    requires
        !context.contains('/'),
    ensures
        !fault_text(Fault::Http { context }).contains('/'),
{
    reveal_strlit("HTTP request failed while ");
    reveal_strlit("; URL and response content redacted");
    let start = "HTTP request failed while "@;
    let end = "; URL and response content redacted"@;
    let shown = start + context + end;
    if shown.contains('/') {
        let i = choose|i: int| 0 <= i < shown.len() && shown[i] == '/';
        if i < start.len() {
            assert(shown[i] == start[i]);
        } else if i < start.len() + context.len() {
            assert(context.contains(context[i - start.len()]));
        } else {
            assert(shown[i] == end[i - start.len() - context.len()]);
        }
    }
}

}
