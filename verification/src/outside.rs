//! The outside crates whose values and functions the server uses: octet
//! strings from `bytes`, durations from `chrono`, rsync URIs from `rpki` and
//! the Base64 encoder from `base64`.
use bytes::Bytes;
use chrono::Duration;
use rpki::uri::Rsync;
use vstd::prelude::*;

verus! {

/// `bytes::Bytes`, an immutable string of octets.
#[verifier::external_type_specification]
#[verifier::external_body]
pub struct ExBytes(Bytes);

/// `chrono::Duration`, a signed span of time. The server only passes it on.
#[verifier::external_type_specification]
#[verifier::external_body]
pub struct ExDuration(Duration);

/// `rpki::uri::Rsync`, an rsync URI. The server only passes it on.
#[verifier::external_type_specification]
#[verifier::external_body]
pub struct ExRsync(Rsync);

/// The octets that a `Bytes` value holds, first to last.
pub uninterp spec fn octets(bytes: Bytes) -> Seq<u8>;

/// The digits of Base64, by their values.
pub open spec fn base64_digit(value: int) -> char {
    "ABCDEFGHIJKLMNOPQRSTUVWXYZabcdefghijklmnopqrstuvwxyz0123456789+/"@[value]
}

/// The number that three octets make, the first of them the most significant.
/// Octets that are not there count as zero.
pub open spec fn base64_group(data: Seq<u8>, first: int) -> int {
    let octet = |i: int| if i < data.len() { data[i] as int } else { 0 };
    octet(first) * 65536 + octet(first + 1) * 256 + octet(first + 2)
}

/// The Base64 text of some octets (RFC 4648): every three octets that were
/// begun give four characters of six bits each; a character that holds no bit
/// of the octets is `=`.
pub open spec fn base64_text(data: Seq<u8>) -> Seq<char> {
    Seq::new(
        ((data.len() + 2) / 3 * 4) as nat,
        |i: int|
            {
                let group = base64_group(data, i / 4 * 3);
                if i * 6 >= data.len() * 8 {
                    '='
                } else if i % 4 == 0 {
                    base64_digit(group / 262144)
                } else if i % 4 == 1 {
                    base64_digit(group / 4096 % 64)
                } else if i % 4 == 2 {
                    base64_digit(group / 64 % 64)
                } else {
                    base64_digit(group % 64)
                }
            },
    )
}

/// The length of a duration in nanoseconds, negative if it goes back in time.
pub uninterp spec fn duration_nanos(duration: Duration) -> int;

/// Whether so many octets can be rendered as Base64 text: every three octets
/// that were begun give four characters, and one allocation has to hold them.
pub open spec fn encodable_len(len: nat) -> bool {
    (len + 2) / 3 * 4 <= isize::MAX
}

/// Whether the octets can be rendered as Base64 text.
pub(crate) fn is_encodable(bytes: &Bytes) -> (b: bool)
    ensures
        b == encodable_len(octets(*bytes).len()),
{
    octet_slice(bytes).len() <= isize::MAX as usize / 4 * 3
}

/// `<Bytes as AsRef<[u8]>>::as_ref`: hands out the octets of the value, as
/// they are.
#[verifier::external_body]
pub(crate) fn octet_slice(bytes: &Bytes) -> (slice: &[u8])
    ensures
        slice@ == octets(*bytes),
{
    bytes.as_ref()
}

/// `base64::encode`: gives the Base64 text of the octets, with the standard
/// digits and with padding. It panics if the buffer for the text would be too
/// large, which the length bound rules out.
#[verifier::external_body]
pub(crate) fn encode_base64(data: &[u8]) -> (text: String)
    requires
        encodable_len(data@.len()),
    ensures
        text@ == base64_text(data@),
{
    base64::encode(data)
}

/// `chrono::Duration::seconds`: the duration lasts the given number of
/// seconds, to the nanosecond. It panics where the number of milliseconds
/// would leave the range of `i64`, which the bounds rule out.
#[verifier::external_body]
pub(crate) fn whole_seconds(seconds: i64) -> (duration: Duration)
    requires
        -9_223_372_036_854_775 <= seconds <= 9_223_372_036_854_775,
    ensures
        duration_nanos(duration) == seconds * 1_000_000_000,
{
    Duration::seconds(seconds)
}

} // verus!
