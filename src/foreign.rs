//! The calls this library makes into std and outside crates, with what it
//! relies on of each.
use crate::record::NetAddr;
use sqlx::types::ipnetwork::IpNetwork;
use vstd::prelude::*;
use vstd::utf8::{decode_utf8, valid_utf8};

verus! {

#[verifier::external_type_specification]
#[verifier::external_body]
pub struct ExEscapeError(quick_xml::escape::EscapeError);

#[verifier::external_type_specification]
#[verifier::external_body]
pub struct ExParseError(chrono::ParseError);

/// What XML unescaping makes of a text; `None` where it is refused.
pub uninterp spec fn xml_unescaped(s: Seq<char>) -> Option<Seq<char>>;

/// The seconds since the Unix epoch, read as UTC, of a date and time parsed
/// with a chrono format string; `None` where parsing fails.
pub uninterp spec fn datetime_seconds(s: Seq<char>, fmt: Seq<char>) -> Option<i64>;

/// The address or network that a text denotes; `None` where it is refused.
pub uninterp spec fn network_of(s: Seq<char>) -> Option<NetAddr>;

/// Relies on `String::from_utf8`: it accepts exactly the valid UTF-8 byte
/// strings, and the string holds the characters they encode.
#[verifier::external_body]
pub(crate) fn utf8_string(b: Vec<u8>) -> (r: Option<String>)
    ensures
        r is Some <==> valid_utf8(b@),
        r is Some ==> r->Some_0@ == decode_utf8(b@),
{
    match String::from_utf8(b) {
        Ok(s) => Some(s),
        Err(_) => None,
    }
}

/// Relies on `quick_xml::escape::unescape`: replaces the predefined and
/// numeric character references; a text without `&` comes back unchanged.
#[verifier::external_body]
pub(crate) fn unescape_xml(s: &str) -> (r: Result<String, quick_xml::escape::EscapeError>)
    ensures
        r is Ok <==> xml_unescaped(s@) is Some,
        r is Ok ==> r->Ok_0@ == xml_unescaped(s@)->Some_0,
        !s@.contains('&') ==> r is Ok && r->Ok_0@ == s@,
{
    match quick_xml::escape::unescape(s) {
        Ok(text) => Ok(text.into_owned()),
        Err(e) => Err(e),
    }
}

/// Relies on `chrono::NaiveDateTime::parse_from_str`, then `and_utc` and
/// `timestamp`: the parsed date and time as seconds since the Unix epoch,
/// taken as UTC.
#[verifier::external_body]
pub(crate) fn parse_utc_seconds(s: &str, fmt: &str) -> (r: Result<i64, chrono::ParseError>)
    ensures
        r is Ok <==> datetime_seconds(s@, fmt@) is Some,
        r is Ok ==> r->Ok_0 == datetime_seconds(s@, fmt@)->Some_0,
{
    match chrono::NaiveDateTime::parse_from_str(s, fmt) {
        Ok(t) => Ok(t.and_utc().timestamp()),
        Err(e) => Err(e),
    }
}

/// Relies on `IpNetwork`'s `FromStr` (an IPv4 network tried first, then
/// IPv6); the network's address and prefix length are carried over. Its
/// error type is not reachable through sqlx's re-export, so a refusal is
/// `None`.
#[verifier::external_body]
pub(crate) fn parse_network(s: &str) -> (r: Option<NetAddr>)
    ensures
        r == network_of(s@),
{
    match <IpNetwork as std::str::FromStr>::from_str(s) {
        Ok(IpNetwork::V4(n)) => Some(NetAddr::V4 { addr: u32::from(n.ip()), prefix: n.prefix() }),
        Ok(IpNetwork::V6(n)) => Some(NetAddr::V6 { addr: u128::from(n.ip()), prefix: n.prefix() }),
        Err(_) => None,
    }
}

} // verus!
