//! Format sniffing for values deserialized from files.
//!
//! A user hands a path; the file's format is detected from its extension —
//! YAML and JSON are understood — and the file's content is deserialized
//! into the target type by the surrounding application. The sniffing
//! decision lives here.

use vstd::prelude::*;

use crate::str_eq;

verus! {

/// The input format denoted by a path's extension.
#[derive(Debug, Clone, Copy, PartialEq, Eq, Structural)]
pub enum FileFormat {
    Yaml,
    Json,
    Unsupported,
}

/// The name of what the mime guess returns for a path: the subtype of the
/// first guess, or of `text/plain` when there is none. A lookup on the
/// path's extension, a function of the path alone.
pub uninterp spec fn mime_subtype(path: Seq<char>) -> Seq<char>;

/// Relies on `mime_guess::from_path(..).first_or_text_plain().subtype()`:
/// the guess is determined by the path's extension alone.
#[verifier::external_body]
fn path_mime_subtype(path: &str) -> (r: String)
    ensures
        r@ == mime_subtype(path@),
{
    mime_guess::from_path(path).first_or_text_plain().subtype().as_str().to_owned()
}

/// The format behind a mime subtype: `x-yaml` is YAML, `json` is JSON,
/// everything else is unsupported.
pub open spec fn format_of_subtype(subtype: Seq<char>) -> FileFormat {
    if subtype == "x-yaml"@ {
        FileFormat::Yaml
    } else if subtype == "json"@ {
        FileFormat::Json
    } else {
        FileFormat::Unsupported
    }
}

/// Sniff a file's format from its path's extension.
pub fn classify_path(path: &str) -> (f: FileFormat)
    ensures
        f == format_of_subtype(mime_subtype(path@)),
{
    let subtype = path_mime_subtype(path);
    if str_eq(subtype.as_str(), "x-yaml") {
        FileFormat::Yaml
    } else if str_eq(subtype.as_str(), "json") {
        FileFormat::Json
    } else {
        FileFormat::Unsupported
    }
}

/// Marker for parsing a command-line value of type `T` out of a file. The
/// deserialization itself is the surrounding application's concern; the
/// format decision is [`classify_path`].
#[derive(Debug)]
pub struct File<T> {
    pub marker: core::marker::PhantomData<T>,
}

impl<T> Clone for File<T> {
    fn clone(&self) -> (r: Self)
        ensures
            r == *self,
    {
        File { marker: core::marker::PhantomData }
    }
}

impl<T> Default for File<T> {
    fn default() -> (r: Self)
        ensures
            r == (File::<T> { marker: core::marker::PhantomData }),
    {
        File { marker: core::marker::PhantomData }
    }
}

} // verus!
