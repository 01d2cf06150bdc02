//! Where a dataset snapshot manifest is read from.

use crate::text::str_eq;
use vstd::prelude::*;

verus! {

/// The scheme of a URL, as the url crate parses it; `None` when the text is
/// not a URL.
pub uninterp spec fn url_scheme_of(s: Seq<char>) -> Option<Seq<char>>;

/// Relies on `url::Url::parse`, whose result is converted with
/// `Url::scheme`: the scheme of the URL, or `None` when it does not parse.
#[verifier::external_body]
fn parse_url_scheme(s: &str) -> (r: Option<String>)
    ensures
        r matches Some(x) ==> url_scheme_of(s@) == Some(x@),
        r is None ==> url_scheme_of(s@) is None,
{
    url::Url::parse(s).ok().map(|u| u.scheme().to_owned())
}

/// Where to read a snapshot manifest.
#[derive(Clone, Debug)]
pub enum SnapshotSource {
    /// A local file.
    Path { path: String },
    /// A `file:` URL.
    FileUrl { url: String },
    /// An `http:` or `https:` URL.
    HttpUrl { url: String },
}

/// Why a manifest location was refused.
#[derive(Clone, Debug)]
pub enum ResourceError {
    /// The text is not a URL.
    InvalidUrl { url: String },
    /// The URL's scheme is not one the loader reads.
    UnsupportedScheme { scheme: String },
}

/// The source for a URL with the given scheme.
pub open spec fn source_for_scheme(url: Seq<char>, scheme: Seq<char>) -> Result<SnapshotSourceModel, Seq<char>> {
    if scheme == "file"@ {
        Ok(SnapshotSourceModel::FileUrl { url })
    } else if scheme == "http"@ || scheme == "https"@ {
        Ok(SnapshotSourceModel::HttpUrl { url })
    } else {
        Err(scheme)
    }
}

/// `r` is the outcome that `source_for_scheme` gives for a URL `url`.
pub open spec fn ref_outcome(url: Seq<char>, r: Result<SnapshotSource, ResourceError>) -> bool {
    match source_for_scheme(url, url_scheme_of(url).unwrap()) {
        Ok(m) => r matches Ok(s) && s@ == m,
        Err(sch) => r matches Err(ResourceError::UnsupportedScheme { scheme: x }) && x@ == sch,
    }
}

/// `r` is the local path `path`.
pub open spec fn is_path_source(r: Result<SnapshotSource, ResourceError>, path: Seq<char>) -> bool {
    r matches Ok(s) && s@ == (SnapshotSourceModel::Path { path })
}

/// The view of a `SnapshotSource`.
pub enum SnapshotSourceModel {
    Path { path: Seq<char> },
    FileUrl { url: Seq<char> },
    HttpUrl { url: Seq<char> },
}

impl View for SnapshotSource {
    type V = SnapshotSourceModel;

    open spec fn view(&self) -> SnapshotSourceModel {
        match self {
            SnapshotSource::Path { path } => SnapshotSourceModel::Path { path: path@ },
            SnapshotSource::FileUrl { url } => SnapshotSourceModel::FileUrl { url: url@ },
            SnapshotSource::HttpUrl { url } => SnapshotSourceModel::HttpUrl { url: url@ },
        }
    }
}

/// Loads dataset snapshot manifests.
pub struct ResourceLoaderImpl {}

impl ResourceLoaderImpl {
    pub fn new() -> (r: ResourceLoaderImpl) {
        ResourceLoaderImpl {  }
    }

    /// The source of a manifest at a URL with a given scheme.
    pub fn source_for_scheme(&self, url: &str, scheme: &str) -> (r: Result<SnapshotSource, ResourceError>)
        ensures
            match source_for_scheme(url@, scheme@) {
                Ok(m) => r matches Ok(s) && s@ == m,
                Err(sch) => r matches Err(ResourceError::UnsupportedScheme { scheme: x }) && x@ == sch,
            },
    {
        if str_eq(scheme, "file") {
            Ok(SnapshotSource::FileUrl { url: url.to_owned() })
        } else if str_eq(scheme, "http") || str_eq(scheme, "https") {
            Ok(SnapshotSource::HttpUrl { url: url.to_owned() })
        } else {
            Err(ResourceError::UnsupportedScheme { scheme: scheme.to_owned() })
        }
    }

    /// The source of a manifest at a URL: by its scheme.
    pub fn source_for_url(&self, url: &str) -> (r: Result<SnapshotSource, ResourceError>)
        ensures
            match url_scheme_of(url@) {
                None => r matches Err(ResourceError::InvalidUrl { url: u }) && u@ == url@,
                Some(scheme) => match source_for_scheme(url@, scheme) {
                    Ok(m) => r matches Ok(s) && s@ == m,
                    Err(sch) => r matches Err(ResourceError::UnsupportedScheme { scheme: x }) && x@ == sch,
                },
            },
    {
        match parse_url_scheme(url) {
            None => Err(ResourceError::InvalidUrl { url: url.to_owned() }),
            Some(scheme) => self.source_for_scheme(url, scheme.as_str()),
        }
    }

    /// The source of a manifest named by a reference: an existing local
    /// path, else a URL when it parses as one, else a local path.
    pub fn source_for_ref(&self, sref: &str, path_exists: bool) -> (r: Result<SnapshotSource, ResourceError>)
        ensures
            path_exists ==> is_path_source(r, sref@),
            !path_exists && url_scheme_of(sref@) is None ==> is_path_source(r, sref@),
            !path_exists && url_scheme_of(sref@) is Some ==> ref_outcome(sref@, r),
    {
        if path_exists {
            return Ok(SnapshotSource::Path { path: sref.to_owned() });
        }
        match parse_url_scheme(sref) {
            None => Ok(SnapshotSource::Path { path: sref.to_owned() }),
            Some(scheme) => self.source_for_scheme(sref, scheme.as_str()),
        }
    }
}

/// Whether the text parses as a URL.
pub fn is_url(s: &str) -> (r: bool)
    ensures
        r == url_scheme_of(s@) is Some,
{
    parse_url_scheme(s).is_some()
}

} // verus!
