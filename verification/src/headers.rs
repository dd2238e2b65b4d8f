//! HTTP headers.
use crate::pattern::opt_view;
use crate::session::lowered;
use crate::text::cat;
use reqwest::header::{HeaderMap, HeaderName, HeaderValue};
use vstd::prelude::*;
use vstd::string::*;

verus! {

/// Whether `c` may stand in a header's name.
pub open spec fn is_token_char(c: char) -> bool {
    ||| 'a' <= c <= 'z' || 'A' <= c <= 'Z' || '0' <= c <= '9'
    ||| c == '!' || c == '#' || c == '$' || c == '%' || c == '&' || c == '\'' || c == '*'
    ||| c == '+' || c == '-' || c == '.' || c == '^' || c == '_' || c == '`' || c == '|' || c == '~'
}

/// What is wrong with a header's name, if anything.
pub open spec fn header_name_failure(name: Seq<char>) -> Option<Seq<char>> {
    if 0 < name.len() <= 0xFFFF && (forall|i: int|
        0 <= i < name.len() ==> is_token_char(#[trigger] name[i])) {
        None
    } else {
        Some("invalid HTTP header name"@)
    }
}

/// Whether `c` may stand in a header's value.
pub open spec fn is_value_char(c: char) -> bool {
    (c as u32 >= 32 && c as u32 != 127) || c == '\t'
}

/// What is wrong with a header's value, if anything.
pub open spec fn header_value_failure(value: Seq<char>) -> Option<Seq<char>> {
    if forall|i: int| 0 <= i < value.len() ==> is_value_char(#[trigger] value[i]) {
        None
    } else {
        Some("failed to parse header value"@)
    }
}

/// `reqwest::header::HeaderName::from_bytes`: `None` where the name holds between
/// one and 65535 characters that HTTP calls token characters, otherwise the
/// display form of the error.
#[verifier::external_body]
fn header_name_error(name: &str) -> (res: Option<String>)
    ensures
        opt_view(res) == header_name_failure(name@),
{
    HeaderName::from_bytes(name.as_bytes()).err().map(|err| err.to_string())
}

/// `reqwest::header::HeaderValue::from_str`: `None` where the value holds no
/// ASCII control character but tabs, otherwise the display form of the error.
#[verifier::external_body]
fn header_value_error(value: &str) -> (res: Option<String>)
    ensures
        opt_view(res) == header_value_failure(value@),
{
    HeaderValue::from_str(value).err().map(|err| err.to_string())
}

/// What is wrong with a header, if anything.
pub open spec fn header_failure(name: Seq<char>, value: Seq<char>) -> Option<Seq<char>> {
    match header_name_failure(name) {
        Some(e) => Some("invalid header name: "@ + e),
        None => match header_value_failure(value) {
            Some(e) => Some("invalid header value: "@ + e),
            None => None,
        },
    }
}

/// Headers by their characters.
pub open spec fn header_views(headers: Seq<(String, String)>) -> Seq<(Seq<char>, Seq<char>)> {
    Seq::new(headers.len(), |i: int| (headers[i].0@, headers[i].1@))
}

/// The value of a header.
#[verifier::external_type_specification]
#[verifier::external_body]
pub struct ExHeaderValue(reqwest::header::HeaderValue);

/// Headers by name.
#[verifier::external_type_specification]
#[verifier::external_body]
#[verifier::reject_recursive_types(T)]
pub struct ExHeaderMap<T>(reqwest::header::HeaderMap<T>);

/// What a `reqwest::header::HeaderMap` holds: the value of each name, the names
/// in lower case.
pub uninterp spec fn header_contents(headers: HeaderMap) -> Map<Seq<char>, Seq<char>>;

/// How many headers a map takes in whatever their names are. One that has more
/// may have to grow past its largest size, which ends the program.
pub const MAX_HEADERS: usize = 6554;

/// Headers of which there are none.
pub open spec fn no_headers() -> Map<Seq<char>, Seq<char>> {
    Map::empty()
}

/// `reqwest::header::HeaderMap::new`: a map that holds nothing.
#[verifier::external_body]
pub(crate) fn new_headers() -> (res: HeaderMap)
    ensures
        header_contents(res) == no_headers(),
{
    HeaderMap::new()
}

/// `reqwest::header::HeaderMap::insert`: gives the name that value, in place of
/// any that it had. Names are told apart in lower case. Below `MAX_HEADERS` names
/// the map never outgrows its largest size.
#[verifier::external_body]
pub(crate) fn put_header(headers: &mut HeaderMap, name: &str, value: &str)
    requires
        header_failure(name@, value@) is None,
        header_contents(*old(headers)).dom().finite(),
        header_contents(*old(headers)).dom().len() < MAX_HEADERS,
    ensures
        header_contents(*final(headers)) == header_contents(*old(headers)).insert(
            lowered(name@),
            value@,
        ),
{
    let name = HeaderName::from_bytes(name.as_bytes()).expect("a header's name");
    let value = HeaderValue::from_str(value).expect("a header's value");
    headers.insert(name, value);
}

/// What a map holds that held `held` before `headers` were put into it, one after
/// the other, where they are ones.
pub open spec fn with_headers(
    held: Map<Seq<char>, Seq<char>>,
    headers: Seq<(Seq<char>, Seq<char>)>,
) -> Map<Seq<char>, Seq<char>>
    decreases headers.len(),
{
    if headers.len() == 0 {
        held
    } else {
        let before = with_headers(held, headers.drop_last());
        let (name, value) = headers.last();
        if header_failure(name, value) is None {
            before.insert(lowered(name), value)
        } else {
            before
        }
    }
}

/// Adds a header, or says what is wrong with it.
pub(crate) fn insert_header(headers: &mut HeaderMap, name: &str, value: &str) -> (res: Result<(), String>)
    requires
        header_contents(*old(headers)).dom().finite(),
        header_contents(*old(headers)).dom().len() < MAX_HEADERS,
    ensures
        match header_failure(name@, value@) {
            Some(why) => (res matches Err(e) && e@ == why) && *final(headers) == *old(headers),
            None => res is Ok && header_contents(*final(headers)) == header_contents(
                *old(headers),
            ).insert(lowered(name@), value@),
        },
        header_contents(*final(headers)).dom().finite(),
        header_contents(*final(headers)).dom().len() <= header_contents(*old(headers)).dom().len()
            + 1,
{
    if let Some(err) = header_name_error(name) {
        return Err(cat("invalid header name: ", &err));
    }
    if let Some(err) = header_value_error(value) {
        return Err(cat("invalid header value: ", &err));
    }
    put_header(headers, name, value);
    Ok(())
}

/// Puts `headers` into a map, one after the other, and leaves out what is none.
pub(crate) fn insert_headers(held: &mut HeaderMap, headers: &[(String, String)])
    requires
        header_contents(*old(held)).dom().finite(),
        header_contents(*old(held)).dom().len() + headers@.len() <= MAX_HEADERS,
    ensures
        header_contents(*final(held)) == with_headers(
            header_contents(*old(held)),
            header_views(headers@),
        ),
{
    let ghost before = header_contents(*held);
    let ghost views = header_views(headers@);
    let mut i: usize = 0;
    proof {
        assert(views.take(0) =~= seq![]);
    }
    while i < headers.len()
        invariant
            i <= headers@.len(),
            views == header_views(headers@),
            before.dom().len() + headers@.len() <= MAX_HEADERS,
            header_contents(*held) == with_headers(before, views.take(i as int)),
            header_contents(*held).dom().finite(),
            header_contents(*held).dom().len() <= before.dom().len() + i,
        decreases headers@.len() - i,
    {
        proof {
            assert(views.take(i + 1).drop_last() =~= views.take(i as int));
            assert(views.take(i + 1).last() == views[i as int]);
        }
        let _unused: Result<(), String> = insert_header(held, &headers[i].0, &headers[i].1);
        i += 1;
    }
    proof {
        assert(views.take(i as int) =~= views);
    }
}

} // verus!
