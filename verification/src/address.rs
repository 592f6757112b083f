//! The address of a server: where it listens, and who connects.
use url::Url;
use vstd::prelude::*;

verus! {

/// Why text is no URL.
#[verifier::external_type_specification]
#[verifier::external_body]
pub struct ExParseError(url::ParseError);

/// What a server's URL says, as far as a connection needs it.
pub struct UrlParts {
    pub host: Option<String>,
    pub port: Option<u16>,
    pub username: String,
    pub password: Option<String>,
}

pub struct UrlPartsView {
    pub host: Option<Seq<char>>,
    pub port: Option<u16>,
    pub username: Seq<char>,
    pub password: Option<Seq<char>>,
}

/// The characters of a string, if there is one.
pub open spec fn chars_of(text: Option<String>) -> Option<Seq<char>> {
    match text {
        Some(text) => Some(text@),
        None => None,
    }
}

impl View for UrlParts {
    type V = UrlPartsView;

    open spec fn view(&self) -> UrlPartsView {
        UrlPartsView {
            host: chars_of(self.host),
            port: self.port,
            username: self.username@,
            password: chars_of(self.password),
        }
    }
}

/// Whether a URL says where to connect to: it names a host and a port.
pub open spec fn names_endpoint(parts: UrlPartsView) -> bool {
    parts.host is Some && parts.port is Some
}

/// What a URL says, or why the text is none.
pub uninterp spec fn url_parts(addr: Seq<char>) -> Result<UrlPartsView, url::ParseError>;

/// `Url::parse`, and of the URL what `host_str`, `port`, `username` and
/// `password` give.
#[verifier::external_body]
pub(crate) fn parse_url(addr: &str) -> (r: Result<UrlParts, url::ParseError>)
    ensures
        match r {
            Ok(parts) => url_parts(addr@) == Ok::<_, url::ParseError>(parts@),
            Err(error) => url_parts(addr@) == Err::<UrlPartsView, _>(error),
        },
{
    let url = Url::parse(addr)?;
    Ok(UrlParts {
        host: url.host_str().map(|h| h.to_owned()),
        port: url.port(),
        username: url.username().to_owned(),
        password: url.password().map(|p| p.to_owned()),
    })
}

/// Where a server listens.
#[derive(Debug)]
pub struct Endpoint {
    pub host: String,
    pub port: u16,
}

} // verus!
