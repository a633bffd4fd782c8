//! HTTPS URIs.
use ca_server::trust_anchor::provisioning_uri_of;
use ca_server::types::{ta_handle, Handle};
use ca_server::uri::{HttpsUri, UriError};

fn parse(text: &str) -> Result<HttpsUri, UriError> {
    HttpsUri::from_string(text.to_string())
}

#[test]
fn uris_keep_their_text() {
    assert_eq!("https://localhost/", parse("https://localhost/").unwrap().as_str());
    assert_eq!("HTTPS://Localhost/A/b", parse("HTTPS://Localhost/A/b").unwrap().as_str());
    assert_eq!("https://", parse("https://").unwrap().as_str());
    let odd = "https://a/../~!$&'()*+,;=%@:";
    assert_eq!(odd, parse(odd).unwrap().as_str());
    let uri = parse("https://localhost/").unwrap();
    assert_eq!(uri, uri.clone());
}

#[test]
fn bad_uris_are_refused() {
    assert_eq!(Err(UriError::BadScheme), parse("http://localhost/"));
    assert_eq!(Err(UriError::BadScheme), parse("https:/"));
    assert_eq!(Err(UriError::BadScheme), parse(""));
    assert_eq!(Err(UriError::NotAscii), parse("https://local host/"));
    assert_eq!(Err(UriError::NotAscii), parse("https://localhost/\u{e4}"));
    assert_eq!(Err(UriError::NotAscii), parse("http://localhost/a b"));
    for c in "\"#<>?[\\]^`{|}\u{7f}\n".chars() {
        assert_eq!(Err(UriError::NotAscii), parse(&format!("https://localhost/{}", c)));
    }
}

#[test]
fn provisioning_uri_is_built() {
    let base = parse("https://localhost:3000/").unwrap();
    let uri = provisioning_uri_of(&base, &ta_handle()).unwrap();
    assert_eq!("https://localhost:3000/rfc6492/ta", uri.as_str());
    let odd = Handle { name: "a b".to_string() };
    assert_eq!(Err(UriError::NotAscii), provisioning_uri_of(&base, &odd));
}
