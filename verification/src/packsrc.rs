use vstd::prelude::*;

use crate::strutil::{has_prefix, lower_char, starts_with, str_eq};

verus! {

/// Default source kinds a pack locator may use.
#[derive(Clone, Copy, Debug, PartialEq, Eq, Structural)]
pub enum PackSource {
    Fs,
    Http,
    Oci,
    S3,
    Gcs,
    AzBlob,
}

/// The scheme name of a pack source.
pub open spec fn spec_scheme(s: PackSource) -> Seq<char> {
    match s {
        PackSource::Fs => "fs"@,
        PackSource::Http => "http"@,
        PackSource::Oci => "oci"@,
        PackSource::S3 => "s3"@,
        PackSource::Gcs => "gcs"@,
        PackSource::AzBlob => "azblob"@,
    }
}

impl PackSource {
    pub fn scheme(self) -> (r: &'static str)
        ensures
            r@ == spec_scheme(self),
    {
        match self {
            PackSource::Fs => "fs",
            PackSource::Http => "http",
            PackSource::Oci => "oci",
            PackSource::S3 => "s3",
            PackSource::Gcs => "gcs",
            PackSource::AzBlob => "azblob",
        }
    }

    /// The source a lowercased name denotes, if any.
    pub open spec fn spec_parse(v: Seq<char>) -> Option<PackSource> {
        let low = v.map_values(|c: char| lower_char(c));
        if low == "fs"@ {
            Some(PackSource::Fs)
        } else if low == "http"@ || low == "https"@ {
            Some(PackSource::Http)
        } else if low == "oci"@ {
            Some(PackSource::Oci)
        } else if low == "s3"@ {
            Some(PackSource::S3)
        } else if low == "gcs"@ {
            Some(PackSource::Gcs)
        } else if low == "azblob"@ || low == "azure"@ || low == "azureblob"@ {
            Some(PackSource::AzBlob)
        } else {
            None
        }
    }

    /// Parses a source name, case-insensitively; an unknown name is an
    /// error naming it.
    pub fn parse(value: &str) -> (r: Result<PackSource, String>)
        ensures
            match PackSource::spec_parse(value@) {
                Some(s) => r matches Ok(got) && got == s,
                None => r matches Err(e) && e@ == "unsupported PACK_SOURCE `"@ + value@ + "`"@,
            },
    {
        let low = crate::strutil::lower_ascii(value);
        if str_eq(low.as_str(), "fs") {
            Ok(PackSource::Fs)
        } else if str_eq(low.as_str(), "http") || str_eq(low.as_str(), "https") {
            Ok(PackSource::Http)
        } else if str_eq(low.as_str(), "oci") {
            Ok(PackSource::Oci)
        } else if str_eq(low.as_str(), "s3") {
            Ok(PackSource::S3)
        } else if str_eq(low.as_str(), "gcs") {
            Ok(PackSource::Gcs)
        } else if str_eq(low.as_str(), "azblob") || str_eq(low.as_str(), "azure") || str_eq(
            low.as_str(),
            "azureblob",
        ) {
            Ok(PackSource::AzBlob)
        } else {
            let mut msg = "unsupported PACK_SOURCE `".to_owned();
            msg.append(value);
            msg.append("`");
            Err(msg)
        }
    }
}

/// Where the pack index document lives.
#[derive(Debug)]
pub enum IndexLocation {
    File(String),
    Remote(String),
}

/// Names the result of url::Url::parse on a string: whether it parses as a
/// URL; a function of the string alone.
pub uninterp spec fn url_parses(s: Seq<char>) -> bool;

/// Relies on url::Url::parse.
#[verifier::external_body]
fn parse_url_ok(s: &str) -> (r: bool)
    ensures
        r == url_parses(s@),
{
    url::Url::parse(s).is_ok()
}

/// Names the filesystem path a `file://` URL denotes, when it parses and
/// converts; a function of the string alone for one build — the conversion
/// differs between Unix and Windows targets, and non-UTF-8 paths are
/// spelled lossily.
pub uninterp spec fn file_url_path_of(s: Seq<char>) -> Option<Seq<char>>;

/// Relies on url::Url::parse and Url::to_file_path.
#[verifier::external_body]
fn file_url_to_path(s: &str) -> (r: Option<String>)
    ensures
        match r {
            Some(p) => file_url_path_of(s@) == Some(p@),
            None => file_url_path_of(s@) is None,
        },
{
    url::Url::parse(s).ok()?.to_file_path().ok().map(|p| p.display().to_string())
}

impl IndexLocation {
    /// Reads an index location: HTTP and HTTPS values must be valid URLs,
    /// `file://` values must convert to a path, anything else is a plain
    /// file path.
    pub fn from_value(value: &str) -> (r: Result<IndexLocation, String>)
        ensures
            has_prefix(value@, "http://"@) || has_prefix(value@, "https://"@) ==> (match r {
                Ok(loc) => url_parses(value@) && (loc matches IndexLocation::Remote(u) && u@
                    == value@),
                Err(e) => !url_parses(value@) && e@ == "PACK_INDEX_URL is not a valid URL"@,
            }),
            !(has_prefix(value@, "http://"@) || has_prefix(value@, "https://"@)) && has_prefix(
                value@,
                "file://"@,
            ) ==> (match r {
                Ok(loc) => (loc matches IndexLocation::File(p) && file_url_path_of(value@)
                    == Some(p@)),
                Err(e) => file_url_path_of(value@) is None && e@
                    == "PACK_INDEX_URL points to an invalid file URI"@,
            }),
            !(has_prefix(value@, "http://"@) || has_prefix(value@, "https://"@) || has_prefix(
                value@,
                "file://"@,
            )) ==> (r matches Ok(loc) && loc matches IndexLocation::File(p) && p@ == value@),
    {
        if starts_with(value, "http://") || starts_with(value, "https://") {
            if parse_url_ok(value) {
                return Ok(IndexLocation::Remote(value.to_owned()));
            }
            return Err("PACK_INDEX_URL is not a valid URL".to_owned());
        }
        if starts_with(value, "file://") {
            return match file_url_to_path(value) {
                Some(p) => Ok(IndexLocation::File(p)),
                None => Err("PACK_INDEX_URL points to an invalid file URI".to_owned()),
            };
        }
        Ok(IndexLocation::File(value.to_owned()))
    }

    /// The location spelled out for humans.
    pub fn display(&self) -> (r: String)
        ensures
            match self {
                IndexLocation::File(p) => r@ == p@,
                IndexLocation::Remote(u) => r@ == u@,
            },
    {
        match self {
            IndexLocation::File(p) => p.clone(),
            IndexLocation::Remote(u) => u.clone(),
        }
    }
}

} // verus!
