//! Where the data of a node came from.

use vstd::prelude::*;
use crate::text::str_eq;

verus! {

/// Source of data in the system.
#[derive(Debug, PartialEq, Eq, Hash)]
pub enum Source {
    /// Direct user input.
    UserInput,
    /// File upload.
    FileUpload,
    /// Web crawling result.
    WebCrawl,
    /// API import.
    ApiImport,
    /// Automatically extracted from other content.
    AutoExtracted,
    /// Custom source with its identifier.
    Custom(String),
}

impl Clone for Source {
    fn clone(&self) -> (r: Source)
        ensures
            r == *self,
    {
        match self {
            Source::UserInput => Source::UserInput,
            Source::FileUpload => Source::FileUpload,
            Source::WebCrawl => Source::WebCrawl,
            Source::ApiImport => Source::ApiImport,
            Source::AutoExtracted => Source::AutoExtracted,
            Source::Custom(s) => Source::Custom(s.clone()),
        }
    }
}

/// The display form of a source; a custom source shows as `custom:` and its
/// identifier.
pub open spec fn source_text(s: Source) -> Seq<char> {
    match s {
        Source::UserInput => "user_input"@,
        Source::FileUpload => "file_upload"@,
        Source::WebCrawl => "web_crawl"@,
        Source::ApiImport => "api_import"@,
        Source::AutoExtracted => "auto_extracted"@,
        Source::Custom(c) => "custom:"@ + c@,
    }
}

/// Whether `r` is the source read from the exact text `name`.
pub open spec fn source_named(r: Source, name: Seq<char>) -> bool {
    if name == "user_input"@ {
        r == Source::UserInput
    } else if name == "file_upload"@ {
        r == Source::FileUpload
    } else if name == "web_crawl"@ {
        r == Source::WebCrawl
    } else if name == "api_import"@ {
        r == Source::ApiImport
    } else if name == "auto_extracted"@ {
        r == Source::AutoExtracted
    } else {
        r matches Source::Custom(c) && c@ == name
    }
}

impl Source {
    /// A custom source with the given identifier.
    pub fn custom(s: &str) -> (r: Source)
        ensures
            r matches Source::Custom(c) && c@ == s@,
    {
        Source::Custom(String::from_str(s))
    }

    /// Whether this source is automated (extraction, crawling or import).
    pub fn is_automated(&self) -> (r: bool)
        ensures
            r == (*self is AutoExtracted || *self is WebCrawl || *self is ApiImport),
    {
        match self {
            Source::AutoExtracted | Source::WebCrawl | Source::ApiImport => true,
            _ => false,
        }
    }

    /// The display form of this source.
    pub fn to_string(&self) -> (r: String)
        ensures
            r@ == source_text(*self),
    {
        match self {
            Source::UserInput => String::from_str("user_input"),
            Source::FileUpload => String::from_str("file_upload"),
            Source::WebCrawl => String::from_str("web_crawl"),
            Source::ApiImport => String::from_str("api_import"),
            Source::AutoExtracted => String::from_str("auto_extracted"),
            Source::Custom(c) => String::from_str("custom:").concat(c.as_str()),
        }
    }

    /// Reads a source from its exact name; any other text becomes a custom
    /// source holding that text.
    pub fn from_name(s: &str) -> (r: Source)
        ensures
            source_named(r, s@),
    {
        if str_eq(s, "user_input") {
            Source::UserInput
        } else if str_eq(s, "file_upload") {
            Source::FileUpload
        } else if str_eq(s, "web_crawl") {
            Source::WebCrawl
        } else if str_eq(s, "api_import") {
            Source::ApiImport
        } else if str_eq(s, "auto_extracted") {
            Source::AutoExtracted
        } else {
            Source::Custom(String::from_str(s))
        }
    }
}

impl Default for Source {
    fn default() -> (r: Source)
        ensures
            r == Source::UserInput,
    {
        Source::UserInput
    }
}

} // verus!
