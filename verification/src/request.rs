//! The request builder: the data model and the entry point that turns a
//! file's contents into a [`Request`] or a classified [`ParseError`].

use vstd::prelude::*;
use vstd::string::StringExecFns;

use crate::comments::clean_up_comments;
use crate::comments::strip_comments;
use crate::extract::parse_key;
use crate::extract::parse_key_spec;
use crate::text::str_eq;

verus! {

/// The recognized HTTP request methods.
#[derive(Clone, Copy, Debug, PartialEq, Eq, Structural)]
pub enum RequestMethod {
    GET,
    POST,
    PUT,
    PATCH,
    DELETE,
    HEAD,
    OPTIONS,
}

/// How a parse can fail: the file could not be read, the method field
/// is missing or unrecognized, or the URL field is missing.
#[derive(Clone, Copy, Debug, PartialEq, Eq, Structural)]
pub enum ParseError {
    InvalidFilePath,
    InvalidMethod,
    InvalidUrl,
}

/// A parsed request: a recognized method and the URL text exactly as it
/// stood between the delimiters of the file.
#[derive(Debug)]
pub struct Request {
    pub method: RequestMethod,
    pub url: String,
}

impl PartialEq for Request {
    fn eq(&self, other: &Request) -> (r: bool) {
        self.method == other.method && self.url == other.url
    }
}

impl vstd::std_specs::cmp::PartialEqSpecImpl for Request {
    open spec fn obeys_eq_spec() -> bool {
        true
    }

    open spec fn eq_spec(&self, other: &Request) -> bool {
        self.method == other.method && self.url@ == other.url@
    }
}

/// What `str::to_uppercase` returns for a text with the given
/// characters: the Unicode upper-case mapping, a function of the
/// characters alone.
pub uninterp spec fn upper_of(s: Seq<char>) -> Seq<char>;

/// Relies on `str::to_uppercase`: the Unicode upper-case form of `s`,
/// depending on the characters of `s` alone.
#[verifier::external_body]
fn uppercase(s: &str) -> (r: String)
    ensures
        r@ == upper_of(s@),
{
    s.to_uppercase()
}

/// The method an already upper-cased name denotes: it must equal one of
/// the seven recognized method names exactly.
pub open spec fn method_name_of(u: Seq<char>) -> Option<RequestMethod> {
    if u == "GET"@ {
        Some(RequestMethod::GET)
    } else if u == "POST"@ {
        Some(RequestMethod::POST)
    } else if u == "PUT"@ {
        Some(RequestMethod::PUT)
    } else if u == "PATCH"@ {
        Some(RequestMethod::PATCH)
    } else if u == "DELETE"@ {
        Some(RequestMethod::DELETE)
    } else if u == "HEAD"@ {
        Some(RequestMethod::HEAD)
    } else if u == "OPTIONS"@ {
        Some(RequestMethod::OPTIONS)
    } else {
        None
    }
}

/// The method a field value names: its upper-cased form must equal one
/// of the seven recognized method names exactly.
pub open spec fn method_of(v: Seq<char>) -> Option<RequestMethod> {
    method_name_of(upper_of(v))
}

/// Maps an upper-cased method name to the method it denotes, `Some`
/// exactly when it is one of the seven recognized names.
pub fn method_from_upper(u: &str) -> (r: Option<RequestMethod>)
    ensures
        r == method_name_of(u@),
{
    if str_eq(u, "GET") {
        Some(RequestMethod::GET)
    } else if str_eq(u, "POST") {
        Some(RequestMethod::POST)
    } else if str_eq(u, "PUT") {
        Some(RequestMethod::PUT)
    } else if str_eq(u, "PATCH") {
        Some(RequestMethod::PATCH)
    } else if str_eq(u, "DELETE") {
        Some(RequestMethod::DELETE)
    } else if str_eq(u, "HEAD") {
        Some(RequestMethod::HEAD)
    } else if str_eq(u, "OPTIONS") {
        Some(RequestMethod::OPTIONS)
    } else {
        None
    }
}

impl RequestMethod {
    /// Maps a field value to the method it names, case-insensitively:
    /// `Some` exactly when the upper-cased value is one of the seven
    /// recognized names.
    pub fn from_value(v: &str) -> (r: Option<RequestMethod>)
        ensures
            r == method_of(v@),
    {
        let u = uppercase(v);
        method_from_upper(u.as_str())
    }
}

/// What parsing a file's contents yields: the method and the URL text,
/// or the error that classifies the failure.
///
/// The method field is extracted first; a missing marker, a missing
/// terminator or an unrecognized name fails with `InvalidMethod` before
/// the URL is ever looked at.  A missing URL marker (or missing
/// terminator, were the URL field the first thing in the file) fails
/// with `InvalidUrl`.
pub open spec fn parse_request_spec(contents: Seq<char>) -> Result<
    (RequestMethod, Seq<char>),
    ParseError,
> {
    let cleaned = strip_comments(contents);
    match parse_key_spec(cleaned, "--method"@) {
        None => Err(ParseError::InvalidMethod),
        Some(mval) => match method_of(mval) {
            None => Err(ParseError::InvalidMethod),
            Some(m) => match parse_key_spec(cleaned, "--url"@) {
                None => Err(ParseError::InvalidUrl),
                Some(uval) => Ok((m, uval)),
            },
        },
    }
}

/// Comment lines never affect extraction: parsing is a function of the
/// comment-stripped text alone, so two contents that strip to the same
/// cleaned text — for instance one with comment lines interleaved
/// between a key marker and its value and one without them — parse to
/// the same result.
pub proof fn lemma_comments_do_not_affect_parsing(c1: Seq<char>, c2: Seq<char>)
    requires
        strip_comments(c1) == strip_comments(c2),
    ensures
        parse_request_spec(c1) == parse_request_spec(c2),
{
}

/// Parses a request-description file, handed the file's contents, or
/// `None` when the file could not be read.
///
/// On success the returned request holds the recognized method and the
/// URL text verbatim, as [`parse_request_spec`] describes; every
/// failure is classified by a [`ParseError`].
pub fn parse_file(contents: Option<&str>) -> (r: Result<Request, ParseError>)
    ensures
        contents is None ==> r == Err::<Request, ParseError>(ParseError::InvalidFilePath),
        contents matches Some(text) ==> match parse_request_spec(text@) {
            Ok((m, uval)) => r matches Ok(req) && req.method == m && req.url@ == uval,
            Err(e) => r == Err::<Request, ParseError>(e),
        },
{
    match contents {
        None => Err(ParseError::InvalidFilePath),
        Some(text) => {
            let cleaned = clean_up_comments(text);
            proof {
                reveal_strlit("--method");
                reveal_strlit("--url");
            }
            match parse_key(cleaned.as_str(), "--method") {
                None => Err(ParseError::InvalidMethod),
                Some(mval) => match RequestMethod::from_value(mval) {
                    None => Err(ParseError::InvalidMethod),
                    Some(method) => match parse_key(cleaned.as_str(), "--url") {
                        None => Err(ParseError::InvalidUrl),
                        Some(uval) => Ok(Request { method, url: String::from_str(uval) }),
                    },
                },
            }
        },
    }
}

} // verus!
