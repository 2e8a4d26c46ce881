//! The parts of a URL that the egress path reads.

use vstd::prelude::*;

use crate::text;

verus! {

/// The parts of a URL, as plain values.
#[verifier::ext_equal]
pub ghost struct UrlView {
    pub scheme: Seq<char>,
    pub host: Option<Seq<char>>,
    pub port: Option<u16>,
    pub path: Seq<char>,
    pub query: Option<Seq<char>>,
}

/// The parts of a URL: `port` is the one that the URL gives or else the one that
/// its scheme is known to have.
pub struct UrlParts {
    pub scheme: String,
    pub host: Option<String>,
    pub port: Option<u16>,
    pub path: String,
    pub query: Option<String>,
}

impl View for UrlParts {
    type V = UrlView;

    open spec fn view(&self) -> UrlView {
        UrlView {
            scheme: self.scheme@,
            host: text::optional_text(self.host),
            port: self.port,
            path: self.path@,
            query: text::optional_text(self.query),
        }
    }
}

/// What the URL parser makes of a text: the parts of the URL, or a complaint.
pub uninterp spec fn url_result(text: Seq<char>) -> Result<UrlView, Seq<char>>;

/// The plain values behind what parsing a URL gave.
pub open spec fn to_url_result(r: Result<UrlParts, String>) -> Result<UrlView, Seq<char>> {
    match r {
        Ok(parts) => Ok(parts@),
        Err(e) => Err(e@),
    }
}

/// `Url::parse` of the crate `url`, and the accessors `scheme`, `host_str`,
/// `port_or_known_default`, `path` and `query` on what it returns. The parts, and
/// the wording of an error, depend on the text alone.
#[verifier::external_body]
pub(crate) fn parse_url(text: &str) -> (r: Result<UrlParts, String>)
    ensures
        to_url_result(r) == url_result(text@),
{
    let u = url::Url::parse(text).map_err(|e| e.to_string())?;
    Ok(UrlParts {
        scheme: u.scheme().to_string(),
        host: u.host_str().map(|h| h.to_string()),
        port: u.port_or_known_default(),
        path: u.path().to_string(),
        query: u.query().map(|q| q.to_string()),
    })
}

} // verus!
