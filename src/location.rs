use vstd::prelude::*;

use crate::error::EngineError;

verus! {

/// Why a string is not an absolute URL.
#[derive(Debug, Clone, Copy, PartialEq, Eq, Structural)]
pub enum UrlError {
    /// It has no scheme: a plain path.
    RelativeWithoutBase,
    /// It is malformed in another way.
    Invalid,
}

/// What URL parsing gives for a string: the scheme-and-authority prefix and
/// the path of an absolute URL, or why there is none.
pub uninterp spec fn url_parse_outcome(s: Seq<char>) -> Result<(Seq<char>, Seq<char>), UrlError>;

pub open spec fn outcome_view(r: Result<(String, String), UrlError>) -> Result<(Seq<char>, Seq<char>), UrlError> {
    match r {
        Ok(t) => Ok((t.0@, t.1@)),
        Err(e) => Err(e),
    }
}

/// Relies on `url::Url::parse`, and on `Url[..Position::BeforePath]` and
/// `Url::path` of what it returns; its error is told apart as
/// `RelativeUrlWithoutBase` or another.
#[verifier::external_body]
fn parse_url(s: &str) -> (r: Result<(String, String), UrlError>)
    ensures
        outcome_view(r) == url_parse_outcome(s@),
{
    match url::Url::parse(s) {
        Ok(u) => Ok((u[..url::Position::BeforePath].to_string(), u.path().to_string())),
        Err(url::ParseError::RelativeUrlWithoutBase) => Err(UrlError::RelativeWithoutBase),
        Err(_) => Err(UrlError::Invalid),
    }
}

/// Where a written file goes.
#[derive(Debug, Clone, PartialEq, Eq)]
pub enum Destination {
    /// A path in the object store at `store_url`.
    ObjectStore { store_url: String, path: String },
    /// A path on the local file system.
    LocalFile { path: String },
}

/// A destination as (is it in an object store, store URL, path).
pub open spec fn destination_view(d: Destination) -> (bool, Seq<char>, Seq<char>) {
    match d {
        Destination::ObjectStore { store_url, path } => (true, store_url@, path@),
        Destination::LocalFile { path } => (false, Seq::empty(), path@),
    }
}

pub open spec fn resolved_view(r: Result<Destination, EngineError>) -> Result<(bool, Seq<char>, Seq<char>), EngineError> {
    match r {
        Ok(d) => Ok(destination_view(d)),
        Err(e) => Err(e),
    }
}

/// The destination of `file` given how it parsed as a URL: an absolute URL
/// names an object store and a path in it; a string without a scheme is a
/// local path, taken whole; anything else is a configuration error.
pub open spec fn destination_of(
    file: Seq<char>,
    outcome: Result<(Seq<char>, Seq<char>), UrlError>,
) -> Result<(bool, Seq<char>, Seq<char>), EngineError> {
    match outcome {
        Ok(t) => Ok((true, t.0, t.1)),
        Err(UrlError::RelativeWithoutBase) => Ok((false, Seq::empty(), file)),
        Err(UrlError::Invalid) => Err(EngineError::ConfigurationError),
    }
}

/// The destination of `file`, given how it parsed as a URL.
pub fn destination_from(file: String, outcome: Result<(String, String), UrlError>) -> (r: Result<
    Destination,
    EngineError,
>)
    ensures
        resolved_view(r) == destination_of(file@, outcome_view(outcome)),
{
    match outcome {
        Ok((store_url, path)) => Ok(Destination::ObjectStore { store_url, path }),
        Err(UrlError::RelativeWithoutBase) => Ok(Destination::LocalFile { path: file }),
        Err(UrlError::Invalid) => Err(EngineError::ConfigurationError),
    }
}

/// Where the file named `file` is written.
pub fn resolve_destination(file: String) -> (r: Result<Destination, EngineError>)
    ensures
        resolved_view(r) == destination_of(file@, url_parse_outcome(file@)),
{
    let outcome = parse_url(file.as_str());
    destination_from(file, outcome)
}

} // verus!
