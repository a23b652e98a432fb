//! Validating message-body media types.
//!
//! Each decoder states which `Content-Type` it accepts.  The media type
//! arrives as a plain record — top-level type, subtype, and optional
//! charset parameter — so the acceptance rules are decided here; reading
//! the body bytes and decoding them into typed values is the caller's
//! work outside this crate's scope.

use vstd::prelude::*;
use crate::segments::str_eq;

verus! {

/// The parts of a parsed media type that decoding decides on.
pub struct MimeInfo {
    /// The top-level type, lower case (`text`, `application`).
    pub kind: String,
    /// The subtype, lower case (`plain`, `json`).
    pub subtype: String,
    /// The `charset` parameter, when present.
    pub charset: Option<String>,
}

impl MimeInfo {
    /// Whether the media type is `kind/subtype` with no charset
    /// parameter.
    pub open spec fn spec_is(&self, kind: Seq<char>, subtype: Seq<char>) -> bool {
        self.kind@ == kind && self.subtype@ == subtype && self.charset is None
    }
}

/// Why a message body is rejected before decoding.
pub enum ExtractBodyError {
    /// The request carries no `Content-Type` field.
    MissingContentType,
    /// The `Content-Type` is not the one the decoder accepts.
    UnexpectedContentType { expected: String },
    /// The `Content-Type` does not parse as a media type.
    InvalidMime,
    /// The charset parameter names an encoding other than `utf-8`.
    NotUtf8Charset,
    /// The body bytes do not decode.
    InvalidContent { message: String },
}

/// Accepts `text/plain` bodies, or bodies without a declared type.
pub struct PlainTextDecoder;

impl PlainTextDecoder {
    /// A missing media type passes; `text/plain` passes unless its
    /// charset names an encoding other than `utf-8`; anything else is
    /// rejected.
    pub fn validate_mime(&self, mime: Option<&MimeInfo>) -> (r: Result<(), ExtractBodyError>)
        ensures
            match mime {
                None => r is Ok,
                Some(m) => {
                    if m.kind@ != "text"@ || m.subtype@ != "plain"@ {
                        r matches Err(ExtractBodyError::UnexpectedContentType { .. })
                    } else if m.charset matches Some(c) && c@ != "utf-8"@ {
                        r matches Err(ExtractBodyError::NotUtf8Charset)
                    } else {
                        r is Ok
                    }
                },
            },
    {
        match mime {
            None => Ok(()),
            Some(m) => {
                if !str_eq(m.kind.as_str(), "text") || !str_eq(m.subtype.as_str(), "plain") {
                    return Err(
                        ExtractBodyError::UnexpectedContentType {
                            expected: String::from_str("text/plain"),
                        },
                    );
                }
                match &m.charset {
                    Some(c) => {
                        if !str_eq(c.as_str(), "utf-8") {
                            return Err(ExtractBodyError::NotUtf8Charset);
                        }
                    },
                    None => {},
                }
                Ok(())
            },
        }
    }
}

/// Accepts exactly `application/json` bodies.
pub struct JsonDecoder;

impl JsonDecoder {
    /// A missing media type is rejected; only plain `application/json`
    /// passes.
    pub fn validate_mime(&self, mime: Option<&MimeInfo>) -> (r: Result<(), ExtractBodyError>)
        ensures
            match mime {
                None => r matches Err(ExtractBodyError::MissingContentType),
                Some(m) => {
                    if m.spec_is("application"@, "json"@) {
                        r is Ok
                    } else {
                        r matches Err(ExtractBodyError::UnexpectedContentType { .. })
                    }
                },
            },
    {
        match mime {
            None => Err(ExtractBodyError::MissingContentType),
            Some(m) => {
                if str_eq(m.kind.as_str(), "application") && str_eq(m.subtype.as_str(), "json")
                    && m.charset.is_none() {
                    Ok(())
                } else {
                    Err(
                        ExtractBodyError::UnexpectedContentType {
                            expected: String::from_str("application/json"),
                        },
                    )
                }
            },
        }
    }
}

/// Accepts exactly `application/x-www-form-urlencoded` bodies.
pub struct UrlencodedDecoder;

impl UrlencodedDecoder {
    /// A missing media type is rejected; only the plain form media type
    /// passes.
    pub fn validate_mime(&self, mime: Option<&MimeInfo>) -> (r: Result<(), ExtractBodyError>)
        ensures
            match mime {
                None => r matches Err(ExtractBodyError::MissingContentType),
                Some(m) => {
                    if m.spec_is("application"@, "x-www-form-urlencoded"@) {
                        r is Ok
                    } else {
                        r matches Err(ExtractBodyError::UnexpectedContentType { .. })
                    }
                },
            },
    {
        match mime {
            None => Err(ExtractBodyError::MissingContentType),
            Some(m) => {
                if str_eq(m.kind.as_str(), "application") && str_eq(
                    m.subtype.as_str(),
                    "x-www-form-urlencoded",
                ) && m.charset.is_none() {
                    Ok(())
                } else {
                    Err(
                        ExtractBodyError::UnexpectedContentType {
                            expected: String::from_str("application/x-www-form-urlencoded"),
                        },
                    )
                }
            },
        }
    }
}

/// A body extraction declaration: a decoder together with the point
/// where the validated, decoded value re-enters the pipeline.
pub struct Decoded<D> {
    /// The decoder that validates and decodes the body.
    pub decoder: D,
}

impl<D> Decoded<D> {
    /// Wraps a decoder.
    pub fn new(decoder: D) -> (r: Self)
        ensures
            r.decoder == decoder,
    {
        Decoded { decoder }
    }

    /// The wrapped decoder.
    pub fn decoder(&self) -> (r: &D)
        ensures
            *r == self.decoder,
    {
        &self.decoder
    }
}

} // verus!
