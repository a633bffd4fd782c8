//! HTTPS URIs.
use rpki::uri;
use vstd::prelude::*;

verus! {

/// Why a text is not an HTTPS URI.
#[derive(Clone, Copy, Debug, PartialEq, Eq, Structural)]
pub enum UriError {
    NotAscii,
    BadUri,
    BadScheme,
    DotSegments,
    EmptySegments,
}

/// A character that may stand in a URI: printable ASCII, without the space
/// and without `" # < > ? [ \ ] ^ { | }` and the backquote.
pub open spec fn is_uri_char(c: char) -> bool {
    &&& ' ' < c < '\x7f'
    &&& c != '"' && c != '#' && c != '<' && c != '>' && c != '?'
    &&& c != '[' && c != '\\' && c != ']' && c != '^' && c != '`'
    &&& c != '{' && c != '|' && c != '}'
}

/// All characters of the text may stand in a URI.
pub open spec fn is_uri_text(text: Seq<char>) -> bool {
    forall|i: int| 0 <= i < text.len() ==> is_uri_char(#[trigger] text[i])
}

/// The text starts with `https://`, with the letters in either case.
pub open spec fn has_https_scheme(text: Seq<char>) -> bool {
    &&& text.len() >= 8
    &&& text[0] == 'h' || text[0] == 'H'
    &&& text[1] == 't' || text[1] == 'T'
    &&& text[2] == 't' || text[2] == 'T'
    &&& text[3] == 'p' || text[3] == 'P'
    &&& text[4] == 's' || text[4] == 'S'
    &&& text[5] == ':' && text[6] == '/' && text[7] == '/'
}

/// The text is an HTTPS URI.
pub open spec fn is_https_uri(text: Seq<char>) -> bool {
    is_uri_text(text) && has_https_scheme(text)
}

/// `rpki::uri::Https::from_string`, and the text of the URI that it gives.
/// The text comes back as it was. It is refused as `NotAscii` if some
/// character may not stand in a URI, and otherwise as `BadScheme` if it does
/// not start with `https://`; there is no other refusal.
#[verifier::external_body]
fn parse_https(text: String) -> (res: Result<String, UriError>)
    ensures
        match res {
            Ok(uri) => is_https_uri(text@) && uri@ == text@,
            Err(UriError::NotAscii) => !is_uri_text(text@),
            Err(UriError::BadScheme) => is_uri_text(text@) && !has_https_scheme(text@),
            Err(_) => false,
        },
{
    match uri::Https::from_string(text) {
        Ok(uri) => Ok(uri.to_string()),
        Err(uri::Error::NotAscii) => Err(UriError::NotAscii),
        Err(uri::Error::BadUri) => Err(UriError::BadUri),
        Err(uri::Error::BadScheme) => Err(UriError::BadScheme),
        Err(uri::Error::DotSegments) => Err(UriError::DotSegments),
        Err(uri::Error::EmptySegments) => Err(UriError::EmptySegments),
    }
}

/// An HTTPS URI, as text.
#[derive(Debug, PartialEq, Eq)]
pub struct HttpsUri {
    text: String,
}

impl View for HttpsUri {
    type V = Seq<char>;

    closed spec fn view(&self) -> Seq<char> {
        self.text@
    }
}

impl Clone for HttpsUri {
    fn clone(&self) -> (copy: Self)
        ensures
            copy == *self,
    {
        proof {
            use_type_invariant(self);
        }
        HttpsUri { text: self.text.clone() }
    }
}

impl HttpsUri {
    /// Every value of this type is an HTTPS URI.
    #[verifier::type_invariant]
    pub open spec fn valid(self) -> bool {
        is_https_uri(self@)
    }

    /// Takes the text as an HTTPS URI if it is one.
    pub fn from_string(text: String) -> (res: Result<HttpsUri, UriError>)
        ensures
            match res {
                Ok(uri) => is_https_uri(text@) && uri@ == text@,
                Err(UriError::NotAscii) => !is_uri_text(text@),
                Err(UriError::BadScheme) => is_uri_text(text@) && !has_https_scheme(text@),
                Err(_) => false,
            },
    {
        match parse_https(text) {
            Ok(text) => Ok(HttpsUri { text }),
            Err(error) => Err(error),
        }
    }

    /// The text of the URI.
    pub fn as_str(&self) -> (text: &str)
        ensures
            text@ == self@,
    {
        self.text.as_str()
    }
}

} // verus!
