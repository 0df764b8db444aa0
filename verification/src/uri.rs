//! URIs of documents and workspace folders, parsed by the `url` crate, with
//! conversion to and from file system paths.
use vstd::prelude::*;

use crate::path::{clean_path, clean_path_text};
use crate::text::str_eq;

verus! {

#[verifier::external_type_specification]
#[verifier::external_body]
pub struct ExUrl(url::Url);

#[verifier::external_type_specification]
#[verifier::external_body]
pub struct ExParseError(url::ParseError);

/// The serialization of the URL that `Url::parse` makes of `s`, or `None`
/// when it refuses `s`.
pub uninterp spec fn url_parse(s: Seq<char>) -> Option<Seq<char>>;

/// `Url::scheme` of the URL parsed from `t`.
pub uninterp spec fn url_scheme(t: Seq<char>) -> Seq<char>;

/// `Url::host_str` of the URL parsed from `t`.
pub uninterp spec fn url_host(t: Seq<char>) -> Option<Seq<char>>;

/// `Url::path` of the URL parsed from `t`.
pub uninterp spec fn url_path(t: Seq<char>) -> Seq<char>;

/// `Url::query` of the URL parsed from `t`.
pub uninterp spec fn url_query(t: Seq<char>) -> Option<Seq<char>>;

/// `Url::fragment` of the URL parsed from `t`.
pub uninterp spec fn url_fragment(t: Seq<char>) -> Option<Seq<char>>;

/// The text of the path `Url::to_file_path` gives for the URL parsed from
/// `t`, or `None` when it gives none.
pub uninterp spec fn url_file_path(t: Seq<char>) -> Option<Seq<char>>;

/// The serialization of the URL `Url::from_file_path` makes of the path
/// with text `p`, or `None` when it makes none.
pub uninterp spec fn url_from_file_path(p: Seq<char>) -> Option<Seq<char>>;

/// The serialization of the URL parsed from `t` after `Url::set_path(p)`.
pub uninterp spec fn url_with_path(t: Seq<char>, p: Seq<char>) -> Seq<char>;

/// A text that `Url::parse` accepts.
pub open spec fn parses(t: Seq<char>) -> bool {
    url_parse(t) is Some
}

/// `Url::parse(s)` and the serialization of the result.  Its contract
/// claims the serialization is `url_parse` of `s`, and that it parses again
/// to itself (the url crate keeps that as an invariant of every `Url`: see
/// `Url::check_invariants`).
#[verifier::external_body]
fn parse_url(s: &str) -> (r: Result<String, url::ParseError>)
    ensures
        match r {
            Ok(t) => url_parse(s@) == Some(t@) && url_parse(t@) == Some(t@),
            Err(_) => url_parse(s@) is None,
        },
{
    Ok(url::Url::parse(s)?.as_str().to_owned())
}

/// `Url::scheme` of the URL parsed from `t`.
#[verifier::external_body]
fn scheme_of(t: &str) -> (r: String)
    requires
        parses(t@),
    ensures
        r@ == url_scheme(t@),
{
    url::Url::parse(t).expect("a URI holds text that parses").scheme().to_owned()
}

/// `Url::host_str` of the URL parsed from `t`.
#[verifier::external_body]
fn host_of(t: &str) -> (r: Option<String>)
    requires
        parses(t@),
    ensures
        match r {
            Some(h) => url_host(t@) == Some(h@),
            None => url_host(t@) is None,
        },
{
    url::Url::parse(t).expect("a URI holds text that parses").host_str().map(|h| h.to_owned())
}

/// `Url::path` of the URL parsed from `t`.
#[verifier::external_body]
fn path_of(t: &str) -> (r: String)
    requires
        parses(t@),
    ensures
        r@ == url_path(t@),
{
    url::Url::parse(t).expect("a URI holds text that parses").path().to_owned()
}

/// `Url::query` of the URL parsed from `t`.
#[verifier::external_body]
fn query_of(t: &str) -> (r: Option<String>)
    requires
        parses(t@),
    ensures
        match r {
            Some(q) => url_query(t@) == Some(q@),
            None => url_query(t@) is None,
        },
{
    url::Url::parse(t).expect("a URI holds text that parses").query().map(|q| q.to_owned())
}

/// `Url::fragment` of the URL parsed from `t`.
#[verifier::external_body]
fn fragment_of(t: &str) -> (r: Option<String>)
    requires
        parses(t@),
    ensures
        match r {
            Some(f) => url_fragment(t@) == Some(f@),
            None => url_fragment(t@) is None,
        },
{
    url::Url::parse(t).expect("a URI holds text that parses").fragment().map(|f| f.to_owned())
}

/// `Url::to_file_path` of the URL parsed from `t`, as text (a path that is
/// not UTF-8 is converted lossily).
#[verifier::external_body]
fn file_path_of(t: &str) -> (r: Option<String>)
    requires
        parses(t@),
    ensures
        match r {
            Some(p) => url_file_path(t@) == Some(p@),
            None => url_file_path(t@) is None,
        },
{
    match url::Url::parse(t).expect("a URI holds text that parses").to_file_path() {
        Ok(p) => Some(p.to_string_lossy().into_owned()),
        Err(()) => None,
    }
}

/// `Url::from_file_path(p)` and the serialization of the result; the
/// contract claims that the serialization parses again to itself, as every
/// `Url`'s does.
#[verifier::external_body]
pub(crate) fn url_text_of_path(p: &str) -> (r: Option<String>)
    ensures
        match r {
            Some(t) => url_from_file_path(p@) == Some(t@) && url_parse(t@) == Some(t@),
            None => url_from_file_path(p@) is None,
        },
{
    Some(url::Url::from_file_path(p).ok()?.as_str().to_owned())
}

/// `Url::set_path(p)` on the URL parsed from `t`, and the serialization of
/// the result; the contract claims that the serialization parses again to
/// itself, as every `Url`'s does.
#[verifier::external_body]
fn set_path_of(t: &str, p: &str) -> (r: String)
    requires
        parses(t@),
    ensures
        r@ == url_with_path(t@, p@),
        url_parse(r@) == Some(r@),
{
    let mut u = url::Url::parse(t).expect("a URI holds text that parses");
    u.set_path(p);
    u.as_str().to_owned()
}

/// `Url::parse` of a URI's text, to hand the URL itself out.
#[verifier::external_body]
fn url_value(t: &str) -> (r: url::Url)
    requires
        parses(t@),
{
    url::Url::parse(t).expect("a URI holds text that parses")
}

/// Error type for invalid URIs.
#[derive(Debug)]
pub enum UriError {
    /// The text is not a URL.
    Parse(url::ParseError),
    /// Only `file` and `untitled` URIs convert to paths.
    InvalidScheme(String),
    /// The URI or path does not convert.
    PathConversion(String),
}

/// A URI, held as the serialization of its URL.  Two URIs are equal when
/// their URLs are.
#[derive(Debug, PartialEq, Eq, Hash)]
pub struct Uri {
    text: String,
}

impl View for Uri {
    type V = Seq<char>;

    closed spec fn view(&self) -> Seq<char> {
        self.text@
    }
}

/// The path a URI converts to: only `file` and `untitled` URIs convert.
pub open spec fn uri_to_path(t: Seq<char>) -> Option<Seq<char>> {
    if url_scheme(t) == "file"@ || url_scheme(t) == "untitled"@ {
        url_file_path(t)
    } else {
        None
    }
}

/// The URI a `file` URI normalizes to: the URI of its path cleaned
/// lexically, where there is one; the URI itself otherwise.
pub open spec fn normalized_text(t: Seq<char>) -> Seq<char> {
    if url_scheme(t) == "file"@ {
        match url_file_path(t) {
            Some(p) => match url_from_file_path(clean_path_text(p)) {
                Some(n) => n,
                None => t,
            },
            None => t,
        }
    } else {
        t
    }
}

impl Uri {
    /// A URI's text parses.
    #[verifier::type_invariant]
    closed spec fn inv(self) -> bool {
        parses(self.text@)
    }

    /// Parse a URI string.
    pub fn parse(s: &str) -> (r: Result<Uri, UriError>)
        ensures
            match url_parse(s@) {
                Some(t) => r matches Ok(u) && u@ == t,
                None => r matches Err(UriError::Parse(_)),
            },
            r matches Ok(u) ==> parses(u@),
    {
        match parse_url(s) {
            Ok(t) => Ok(Uri { text: t }),
            Err(e) => Err(UriError::Parse(e)),
        }
    }

    /// Create a URI from a file system path.
    pub fn from_path(path: &str) -> (r: Result<Uri, UriError>)
        ensures
            match url_from_file_path(path@) {
                Some(t) => r matches Ok(u) && u@ == t,
                None => r matches Err(UriError::PathConversion(p)) && p@ == path@,
            },
            r matches Ok(u) ==> parses(u@),
    {
        match url_text_of_path(path) {
            Some(t) => Ok(Uri { text: t }),
            None => Err(UriError::PathConversion(path.to_owned())),
        }
    }

    /// Convert this URI to a file system path; only `file` and `untitled`
    /// URIs convert.
    pub fn to_path(&self) -> (r: Result<String, UriError>)
        ensures
            match uri_to_path(self@) {
                Some(p) => r matches Ok(q) && q@ == p,
                None => r is Err,
            },
            !(url_scheme(self@) == "file"@ || url_scheme(self@) == "untitled"@) ==> (
            r matches Err(UriError::InvalidScheme(s)) && s@ == url_scheme(self@)),
            (url_scheme(self@) == "file"@ || url_scheme(self@) == "untitled"@) && url_file_path(
                self@,
            ) is None ==> (r matches Err(UriError::PathConversion(s)) && s@ == self@),
    {
        proof {
            use_type_invariant(self);
        }
        let scheme = scheme_of(self.text.as_str());
        if !str_eq(scheme.as_str(), "file") && !str_eq(scheme.as_str(), "untitled") {
            return Err(UriError::InvalidScheme(scheme));
        }
        match file_path_of(self.text.as_str()) {
            Some(p) => Ok(p),
            None => Err(UriError::PathConversion(self.text.clone())),
        }
    }

    /// The scheme of this URI.
    pub fn scheme(&self) -> (r: String)
        ensures
            r@ == url_scheme(self@),
    {
        proof {
            use_type_invariant(self);
        }
        scheme_of(self.text.as_str())
    }

    /// The host of this URI, if any.
    pub fn host(&self) -> (r: Option<String>)
        ensures
            match r {
                Some(h) => url_host(self@) == Some(h@),
                None => url_host(self@) is None,
            },
    {
        proof {
            use_type_invariant(self);
        }
        host_of(self.text.as_str())
    }

    /// The path component of this URI.
    pub fn path(&self) -> (r: String)
        ensures
            r@ == url_path(self@),
    {
        proof {
            use_type_invariant(self);
        }
        path_of(self.text.as_str())
    }

    /// The query string, if any.
    pub fn query(&self) -> (r: Option<String>)
        ensures
            match r {
                Some(q) => url_query(self@) == Some(q@),
                None => url_query(self@) is None,
            },
    {
        proof {
            use_type_invariant(self);
        }
        query_of(self.text.as_str())
    }

    /// The fragment, if any.
    pub fn fragment(&self) -> (r: Option<String>)
        ensures
            match r {
                Some(f) => url_fragment(self@) == Some(f@),
                None => url_fragment(self@) is None,
            },
    {
        proof {
            use_type_invariant(self);
        }
        fragment_of(self.text.as_str())
    }

    /// The URL of this URI.
    pub fn as_url(&self) -> url::Url {
        proof {
            use_type_invariant(self);
        }
        url_value(self.text.as_str())
    }

    /// A normalized version of this URI: for a `file` URI, the URI of its
    /// path with `.` and `..` resolved; otherwise, and when that fails, the
    /// URI itself.
    pub fn normalized(&self) -> (r: Uri)
        ensures
            r@ == normalized_text(self@),
    {
        proof {
            use_type_invariant(self);
        }
        let scheme = scheme_of(self.text.as_str());
        if str_eq(scheme.as_str(), "file") {
            if let Ok(p) = self.to_path() {
                let cleaned = clean_path(p.as_str());
                if let Ok(u) = Self::from_path(cleaned.as_str()) {
                    return u;
                }
            }
        }
        self.clone()
    }

    /// A new URI with the path component replaced; it is always made.
    pub fn with_path(&self, new_path: &str) -> (r: Result<Uri, UriError>)
        ensures
            r matches Ok(u) && u@ == url_with_path(self@, new_path@),
    {
        proof {
            use_type_invariant(self);
        }
        Ok(Uri { text: set_path_of(self.text.as_str(), new_path) })
    }

    /// The URI as text: the serialization of its URL.
    pub fn to_string(&self) -> (r: String)
        ensures
            r@ == self@,
    {
        self.text.clone()
    }
}

impl Clone for Uri {
    fn clone(&self) -> (r: Self)
        ensures
            r@ == self@,
    {
        proof {
            use_type_invariant(self);
        }
        Uri { text: self.text.clone() }
    }
}

} // verus!
