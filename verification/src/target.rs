//! A download target: one file to fetch, described by a non-empty set of
//! mirror URLs, a destination path and an optional comment.

use crate::strutil::str_eq;
use vstd::prelude::*;

verus! {

/// The mathematical content of a [`Target`].
pub struct TargetView {
    pub urls: Seq<Seq<char>>,
    pub file: Seq<char>,
    pub comment: Option<Seq<char>>,
}

impl TargetView {
    /// Structural well-formedness: a target names at least one URL.
    pub open spec fn wf(self) -> bool {
        self.urls.len() >= 1
    }
}

/// One file to be fetched.
#[derive(Debug, Clone, PartialEq, Eq)]
pub struct Target {
    urls: Vec<String>,
    file: String,
    comment: Option<String>,
}

impl View for Target {
    type V = TargetView;

    closed spec fn view(&self) -> TargetView {
        TargetView {
            urls: self.urls@.map_values(|u: String| u@),
            file: self.file@,
            comment: match self.comment {
                Some(ref c) => Some(c@),
                None => None,
            },
        }
    }
}

/// The scheme that URL parsing assigns to a string, if it parses at all.
pub uninterp spec fn url_scheme(s: Seq<char>) -> Option<Seq<char>>;

/// Relies on `url::Url::parse` and `url::Url::scheme`: parsing either
/// rejects the string or yields a URL whose scheme depends on the input
/// string alone.
#[verifier::external_body]
fn parse_url_scheme(s: &str) -> (r: Option<String>)
    ensures
        r matches Some(sch) ==> url_scheme(s@) == Some(sch@),
        r is None ==> url_scheme(s@) is None,
{
    url::Url::parse(s).ok().map(|u| u.scheme().to_string())
}

/// Whether a URL string parses with one of the two accepted schemes.
pub open spec fn scheme_ok(s: Seq<char>) -> bool {
    url_scheme(s) == Some("http"@) || url_scheme(s) == Some("https"@)
}

/// Why a target could not be built.
#[derive(Debug, Clone, Copy, PartialEq, Eq, Structural)]
pub enum TargetError {
    /// No URL was given.
    NoUrls,
    /// Some URL does not parse as an http or https URL.
    BadScheme,
}

impl Target {
    /// Build a target after validating its URLs: at least one, each an
    /// http or https URL.
    pub fn new(urls: Vec<String>, file: String, comment: Option<String>) -> (r: Result<
        Target,
        TargetError,
    >)
        ensures
            r matches Ok(t) ==> {
                &&& t@.urls == urls@.map_values(|u: String| u@)
                &&& t@.file == file@
                &&& t@.comment == (match comment {
                    Some(ref c) => Some(c@),
                    None => None::<Seq<char>>,
                })
                &&& urls@.len() >= 1
                &&& forall|i: int| 0 <= i < urls@.len() ==> scheme_ok(#[trigger] urls@[i]@)
            },
            r matches Err(e) ==> (match e {
                TargetError::NoUrls => urls@.len() == 0,
                TargetError::BadScheme => urls@.len() >= 1 && exists|i: int|
                    0 <= i < urls@.len() && !scheme_ok(#[trigger] urls@[i]@),
            }),
    {
        if urls.len() == 0 {
            return Err(TargetError::NoUrls);
        }
        let mut k: usize = 0;
        while k < urls.len()
            invariant
                k <= urls@.len(),
                forall|i: int| 0 <= i < k ==> scheme_ok(#[trigger] urls@[i]@),
            decreases urls@.len() - k,
        {
            match parse_url_scheme(urls[k].as_str()) {
                None => {
                    return Err(TargetError::BadScheme);
                },
                Some(sch) => {
                    let http = str_eq(sch.as_str(), "http");
                    let https = str_eq(sch.as_str(), "https");
                    if !http && !https {
                        proof {
                            assert(!scheme_ok(urls@[k as int]@));
                        }
                        return Err(TargetError::BadScheme);
                    }
                },
            }
            k = k + 1;
        }
        Ok(Target { urls, file, comment })
    }

    /// Assemble a target from already-validated parts.
    pub(crate) fn from_parts(urls: Vec<String>, file: String, comment: Option<String>) -> (r:
        Target)
        ensures
            r@.urls == urls@.map_values(|u: String| u@),
            r@.file == file@,
            r@.comment == (match comment {
                Some(ref c) => Some(c@),
                None => None::<Seq<char>>,
            }),
    {
        Target { urls, file, comment }
    }

    /// The mirror URLs.
    pub fn urls(&self) -> (r: &Vec<String>)
        ensures
            r@.map_values(|u: String| u@) == self@.urls,
    {
        &self.urls
    }

    /// The destination path, relative to the configured base directory
    /// unless absolute.
    pub fn file(&self) -> (r: &String)
        ensures
            r@ == self@.file,
    {
        &self.file
    }

    /// The free-text comment, if any.
    pub fn comment(&self) -> (r: &Option<String>)
        ensures
            (match r {
                Some(c) => self@.comment matches Some(vc) && c@ == vc,
                None => self@.comment is None,
            }),
    {
        &self.comment
    }

    /// One line describing the target: the comment, a separator, the
    /// destination; or the destination alone.
    pub fn render(&self) -> (r: String)
        ensures
            r@ == (match self@.comment {
                Some(c) => c + ": "@ + self@.file,
                None => self@.file,
            }),
    {
        match &self.comment {
            None => {
                let mut out = String::new();
                out.append(self.file.as_str());
                proof {
                    assert(out@ =~= self@.file);
                }
                out
            },
            Some(c) => {
                let mut out = String::new();
                out.append(c.as_str());
                out.append(": ");
                out.append(self.file.as_str());
                proof {
                    assert(out@ =~= c@ + ": "@ + self@.file);
                }
                out
            },
        }
    }
}

} // verus!
