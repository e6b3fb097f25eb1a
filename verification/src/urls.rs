use vstd::prelude::*;

verus! {

/// The parts of a URL that the library reads.
pub struct UrlParts {
    pub scheme: String,
    pub host: Option<String>,
    pub path: String,
    pub query: Option<String>,
    /// The port written in the URL, when it is not the scheme's default.
    pub port: Option<u16>,
}

pub open spec fn opt_string_view(o: Option<String>) -> Option<Seq<char>> {
    match o {
        Some(s) => Some(s@),
        None => None,
    }
}

impl UrlParts {
    /// Scheme, host, path, query and port.
    pub open spec fn parts(self) -> UrlView {
        (
            self.scheme@,
            opt_string_view(self.host),
            self.path@,
            opt_string_view(self.query),
            self.port,
        )
    }
}

/// Scheme, host, path, query and port of a URL.
pub type UrlView = (Seq<char>, Option<Seq<char>>, Seq<char>, Option<Seq<char>>, Option<u16>);

/// What `url::Url::parse` makes of `input`, when it accepts it: the scheme,
/// the host, the path, the query and the port of the URL, as `Url::scheme`,
/// `Url::host_str`, `Url::path`, `Url::query` and `Url::port` give them.
pub uninterp spec fn parsed_url(input: Seq<char>) -> Option<
    (Seq<char>, Option<Seq<char>>, Seq<char>, Option<Seq<char>>, Option<u16>),
>;

/// Parses a URL with `url::Url::parse`. The contract claims only that the
/// result is a function of the input (`parsed_url`), `None` where the crate
/// refuses the input; what the parser accepts and how it normalises a URL is
/// left to the crate.
#[verifier::external_body]
pub(crate) fn parse_url(input: &str) -> (r: Option<UrlParts>)
    ensures
        match r {
            Some(p) => parsed_url(input@) == Some(p.parts()),
            None => parsed_url(input@) is None,
        },
{
    match url::Url::parse(input) {
        Ok(u) => Some(
            UrlParts {
                scheme: u.scheme().to_string(),
                host: u.host_str().map(str::to_string),
                path: u.path().to_string(),
                query: u.query().map(str::to_string),
                port: u.port(),
            },
        ),
        Err(_) => None,
    }
}

} // verus!
