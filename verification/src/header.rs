//! Header names, and the append-only headers of a response.
//!
//! The headers are kept twice: as pairs in the order in which they were
//! appended, and in a header map of `actix-http`, which is what the transport
//! takes. Verus cannot look inside that map, so what it holds is given a
//! name, [`header_map_entries`], and the few functions at the end of this file
//! state, without proof, what the calls into `actix-http` do to it.

use crate::multimap::{appended, collected, lemma_collected_push};
use vstd::prelude::*;
use vstd::slice::slice_to_vec;

verus! {

/// A character that a header name may hold: a letter, a digit, or one of
/// ``!"#$%&'*+-.^_`|~``.
pub open spec fn is_name_char(c: char) -> bool {
    ||| 'a' <= c <= 'z'
    ||| 'A' <= c <= 'Z'
    ||| '0' <= c <= '9'
    ||| c == '!' || c == '"' || c == '#' || c == '$' || c == '%' || c == '&' || c == '\''
    ||| c == '*' || c == '+' || c == '-' || c == '.'
    ||| c == '^' || c == '_' || c == '`' || c == '|' || c == '~'
}

/// The lower-case form of an ASCII capital; any other character as it is.
pub open spec fn lowered(c: char) -> char {
    if 'A' <= c <= 'Z' {
        ((c as u32) + 32) as char
    } else {
        c
    }
}

/// Text that is accepted as a header name: between 1 and 65535 characters,
/// each of them a name character.
pub open spec fn is_header_name(text: Seq<char>) -> bool {
    &&& 1 <= text.len() <= 65535
    &&& forall|i: int| 0 <= i < text.len() ==> is_name_char(#[trigger] text[i])
}

/// The spelling under which a header name is kept: all in lower case.
pub open spec fn canonical_name(text: Seq<char>) -> Seq<char> {
    Seq::new(text.len(), |i: int| lowered(text[i]))
}

/// A header name in the spelling under which it is kept.
pub open spec fn is_canonical_name(text: Seq<char>) -> bool {
    is_header_name(text) && canonical_name(text) == text
}

/// A byte that a header value may hold: anything from 32 up but 127, or a
/// tab.
pub open spec fn is_value_byte(byte: u8) -> bool {
    (byte >= 32 && byte != 127) || byte == 9
}

/// Bytes that are accepted as a header value.
pub open spec fn is_header_value(bytes: Seq<u8>) -> bool {
    forall|i: int| 0 <= i < bytes.len() ==> is_value_byte(#[trigger] bytes[i])
}

/// The name of the header that tells the media type of the body.
pub open spec fn content_type() -> Seq<char> {
    "content-type"@
}

/// The canonical spelling of an accepted name is itself an accepted name,
/// and is its own canonical spelling.
pub proof fn lemma_canonical_name(text: Seq<char>)
    requires
        is_header_name(text),
    ensures
        is_canonical_name(canonical_name(text)),
{
    let lower = canonical_name(text);
    assert(forall|i: int|
        0 <= i < lower.len() ==> is_name_char(#[trigger] lower[i]) && lowered(lower[i])
            == lower[i]);
    assert(canonical_name(lower) =~= lower);
}

/// The text was not accepted as a header name.
#[derive(Debug, Clone, Copy, PartialEq, Eq)]
pub struct HeaderNameError;

/// The bytes were not accepted as a header value.
#[derive(Debug, Clone, Copy, PartialEq, Eq)]
pub struct HeaderValueError;

/// The name of a header, in its canonical lower-case spelling.
#[derive(Debug)]
pub struct HeaderName {
    text: String,
}

impl View for HeaderName {
    type V = Seq<char>;

    closed spec fn view(&self) -> Seq<char> {
        self.text@
    }
}

impl HeaderName {
    /// What holds of every header name: its spelling is the canonical one.
    #[verifier::type_invariant]
    pub open spec fn is_canonical(self) -> bool {
        is_canonical_name(self@)
    }

    /// Make a header name of `text`. Capitals are lowered; text that is
    /// empty, too long or holds another character than those of header
    /// names is refused.
    pub fn new(text: &str) -> (made: Result<HeaderName, HeaderNameError>)
        ensures
            made is Ok <==> is_header_name(text@),
            made matches Ok(name) ==> name@ == canonical_name(text@),
    {
        match parse_header_name(text) {
            Ok(lower) => {
                proof {
                    lemma_canonical_name(text@);
                }
                Ok(HeaderName { text: lower })
            },
            Err(_) => Err(HeaderNameError),
        }
    }

    /// The name of the header that tells the media type of the body.
    pub fn content_type() -> (name: HeaderName)
        ensures
            name@ == content_type(),
    {
        proof {
            reveal_strlit("content-type");
            assert(canonical_name("content-type"@) =~= "content-type"@);
        }
        HeaderName { text: "content-type".to_owned() }
    }

    /// The name's text.
    pub fn as_str(&self) -> (text: &str)
        ensures
            text@ == self@,
            is_canonical_name(self@),
    {
        proof {
            use_type_invariant(self);
        }
        self.text.as_str()
    }
}

impl Clone for HeaderName {
    fn clone(&self) -> (copy: HeaderName)
        ensures
            copy@ == self@,
    {
        proof {
            use_type_invariant(self);
        }
        HeaderName { text: self.text.clone() }
    }
}

/// The headers of a response: names with values, in the order in which they
/// were appended. A name can have several values. Headers can be appended,
/// never replaced or removed.
#[derive(Debug)]
pub struct Headers {
    map: actix_http::header::HeaderMap,
    pairs: Vec<(HeaderName, Vec<u8>)>,
}

/// The views of header name and value pairs, one for one.
pub open spec fn header_views(pairs: Seq<(HeaderName, Vec<u8>)>) -> Seq<(Seq<char>, Seq<u8>)> {
    Seq::new(pairs.len(), |i: int| (pairs[i].0@, pairs[i].1@))
}

/// Every name is canonical, and every value is made of value bytes.
pub open spec fn well_formed_headers(pairs: Seq<(Seq<char>, Seq<u8>)>) -> bool {
    forall|i: int|
        0 <= i < pairs.len() ==> is_canonical_name((#[trigger] pairs[i]).0) && is_header_value(
            pairs[i].1,
        )
}

impl View for Headers {
    type V = Seq<(Seq<char>, Seq<u8>)>;

    closed spec fn view(&self) -> Seq<(Seq<char>, Seq<u8>)> {
        header_views(self.pairs@)
    }
}

impl Headers {
    /// What the header map of these headers holds.
    pub closed spec fn entries(&self) -> Map<Seq<char>, Seq<Seq<u8>>> {
        header_map_entries(self.map)
    }

    /// What holds of all headers: they are well formed, and the header map
    /// holds under each name the values appended under it, in their order.
    #[verifier::type_invariant]
    pub open spec fn well_formed(self) -> bool {
        well_formed_headers(self@) && self.entries() == collected(self@)
    }

    /// Headers without an entry.
    pub fn new() -> (headers: Headers)
        ensures
            (headers@ == Seq::<(Seq<char>, Seq<u8>)>::empty()),
    {
        let map = header_map_new();
        let pairs: Vec<(HeaderName, Vec<u8>)> = Vec::new();
        proof {
            assert(header_views(pairs@) =~= Seq::<(Seq<char>, Seq<u8>)>::empty());
            assert(collected(header_views(pairs@)) =~= Map::<Seq<char>, Seq<Seq<u8>>>::empty());
        }
        Headers { map, pairs }
    }

    /// Append `value` under `name`, behind all that was appended before.
    /// Bytes that are no header value are refused, and the headers stay as
    /// they were.
    pub fn with_header_value(&mut self, name: &HeaderName, value: &[u8]) -> (outcome: Result<
        &mut Self,
        HeaderValueError,
    >)
        ensures
            outcome is Ok <==> is_header_value(value@),
            outcome matches Ok(these) ==> these@ == old(self)@.push((name@, value@)) && *final(self)
                == *final(these),
            outcome is Err ==> final(self)@ == old(self)@,
    {
        let mut taken = Headers::new();
        std::mem::swap(self, &mut taken);
        proof {
            use_type_invariant(&taken);
        }
        let Headers { mut map, mut pairs } = taken;
        let ghost before = header_views(pairs@);
        let appended = header_map_append(&mut map, name.as_str(), value);
        if appended.is_ok() {
            pairs.push((name.clone(), slice_to_vec(value)));
            proof {
                assert(header_views(pairs@) =~= before.push((name@, value@)));
                lemma_collected_push(before, name@, value@);
            }
        }
        *self = Headers { map, pairs };
        match appended {
            Ok(()) => Ok(self),
            Err(_) => Err(HeaderValueError),
        }
    }

    /// Append a header that is given as one pair of name and value; as
    /// `with_header_value` otherwise.
    pub fn with_header(&mut self, header: &(HeaderName, Vec<u8>)) -> (outcome: Result<
        &mut Self,
        HeaderValueError,
    >)
        ensures
            outcome is Ok <==> is_header_value(header.1@),
            outcome matches Ok(these) ==> these@ == old(self)@.push((header.0@, header.1@))
                && *final(self) == *final(these),
            outcome is Err ==> final(self)@ == old(self)@,
    {
        self.with_header_value(&header.0, header.1.as_slice())
    }

    /// The headers as pairs of name and value, in the order in which they
    /// were appended.
    pub fn pairs(&self) -> (pairs: &Vec<(HeaderName, Vec<u8>)>)
        ensures
            header_views(pairs@) == self@,
            well_formed_headers(self@),
    {
        proof {
            use_type_invariant(self);
        }
        &self.pairs
    }
}

impl std::ops::Deref for Headers {
    type Target = actix_http::header::HeaderMap;

    /// The header map of the headers, to read from. It holds under each
    /// name the values appended under it, in their order.
    fn deref(&self) -> (map: &actix_http::header::HeaderMap)
        ensures
            header_map_entries(*map) == collected(self@),
    {
        proof {
            use_type_invariant(self);
        }
        &self.map
    }
}

impl Default for Headers {
    fn default() -> (headers: Headers)
        ensures
            (headers@ == Seq::<(Seq<char>, Seq<u8>)>::empty()),
    {
        Headers::new()
    }
}

/// The header map of `actix-http`, opaque to the verifier.
#[verifier::external_type_specification]
#[verifier::external_body]
pub struct ExHeaderMap(actix_http::header::HeaderMap);

/// The error with which `HeaderName::from_bytes` refuses a text.
#[verifier::external_type_specification]
#[verifier::external_body]
pub struct ExInvalidHeaderName(actix_http::header::InvalidHeaderName);

/// The error with which `HeaderValue::from_bytes` refuses bytes.
#[verifier::external_type_specification]
#[verifier::external_body]
pub struct ExInvalidHeaderValue(actix_http::header::InvalidHeaderValue);

/// What a header map holds: under each header name, in its canonical
/// spelling, the bytes of the values appended under it, oldest first.
pub uninterp spec fn header_map_entries(map: actix_http::header::HeaderMap) -> Map<
    Seq<char>,
    Seq<Seq<u8>>,
>;

/// `HeaderName::from_bytes` on the bytes of `text`, then `HeaderName::as_str`.
/// Trusted: the call succeeds on exactly the texts of 1 to 65535 name
/// characters, and the name it makes is the text with its capitals lowered.
#[verifier::external_body]
fn parse_header_name(text: &str) -> (parsed: Result<String, actix_http::header::InvalidHeaderName>)
    ensures
        parsed is Ok <==> is_header_name(text@),
        parsed matches Ok(lower) ==> lower@ == canonical_name(text@),
{
    let name = actix_http::header::HeaderName::from_bytes(text.as_bytes())?;
    Ok(name.as_str().to_owned())
}

/// `Clone::clone` of a header map. Trusted: the copy holds what the map
/// holds.
#[verifier::external_body]
pub(crate) fn header_map_clone(map: &actix_http::header::HeaderMap) -> (copy:
    actix_http::header::HeaderMap)
    ensures
        header_map_entries(copy) == header_map_entries(*map),
{
    map.clone()
}

/// `HeaderMap::new`. Trusted: the new map holds nothing.
#[verifier::external_body]
fn header_map_new() -> (fresh: actix_http::header::HeaderMap)
    ensures
        (header_map_entries(fresh) == Map::<Seq<char>, Seq<Seq<u8>>>::empty()),
{
    actix_http::header::HeaderMap::new()
}

/// `HeaderValue::from_bytes`, then `HeaderMap::append` under the name that
/// `HeaderName::from_lowercase` makes of `name`. Trusted: a canonical name
/// is taken as it is spelled; bytes are accepted as a value exactly when each
/// is 32 or more and not 127, or is a tab; an accepted value is put behind
/// the values that the name already has, and nothing else changes; on
/// refusal the map is not touched.
#[verifier::external_body]
fn header_map_append(map: &mut actix_http::header::HeaderMap, name: &str, value: &[u8]) -> (outcome:
    Result<(), actix_http::header::InvalidHeaderValue>)
    requires
        is_canonical_name(name@),
    ensures
        outcome is Ok <==> is_header_value(value@),
        outcome is Ok ==> header_map_entries(*final(map)) == appended(
            header_map_entries(*old(map)),
            name@,
            value@,
        ),
        outcome is Err ==> header_map_entries(*final(map)) == header_map_entries(*old(map)),
{
    let value = actix_http::header::HeaderValue::from_bytes(value)?;
    let name = actix_http::header::HeaderName::from_lowercase(name.as_bytes()).unwrap();
    map.append(name, value);
    Ok(())
}

} // verus!
