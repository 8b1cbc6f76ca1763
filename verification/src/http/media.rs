//! Media types, as the `mime` crate reads them.

use vstd::prelude::*;

verus! {

/// A media type taken apart.
#[derive(Clone, Debug, PartialEq)]
pub struct MediaType {
    /// The top-level type, such as `multipart`.
    pub kind: String,
    /// The subtype, such as `form-data`.
    pub subtype: String,
    /// The value of the `boundary` parameter, if there is one.
    pub boundary: Option<String>,
    /// The whole media type as text.
    pub text: String,
}

/// A `MediaType` as plain values.
pub struct MediaView {
    pub kind: Seq<char>,
    pub subtype: Seq<char>,
    pub boundary: Option<Seq<char>>,
    pub text: Seq<char>,
}

impl View for MediaType {
    type V = MediaView;

    open spec fn view(&self) -> MediaView {
        MediaView {
            kind: self.kind@,
            subtype: self.subtype@,
            boundary: match self.boundary {
                Some(b) => Some(b@),
                None => None,
            },
            text: self.text@,
        }
    }
}

/// What the `mime` crate makes of a media type written as `text`: its parts,
/// or `None` where it does not accept the text.
pub uninterp spec fn media_text(text: Seq<char>) -> Option<MediaView>;

/// Parses a media type with `mime`'s `FromStr` and reads its type, subtype,
/// `boundary` parameter and text off the result. Nothing is claimed beyond
/// that the outcome depends on the text alone.
#[verifier::external_body]
pub(crate) fn media_type(text: &str) -> (parsed: Option<MediaType>)
    ensures
        match parsed {
            Some(m) => media_text(text@) == Some(m@),
            None => media_text(text@) is None,
        },
{
    text.parse::<mime::Mime>().ok().map(|m| MediaType {
        kind: m.type_().as_str().to_string(),
        subtype: m.subtype().as_str().to_string(),
        boundary: m.get_param(mime::BOUNDARY).map(|b| b.as_str().to_string()),
        text: m.as_ref().to_string(),
    })
}

} // verus!
