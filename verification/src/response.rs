//! The response builder of a HAL resource, the document it is finished
//! into, and the protocol by which a resource declares what goes into it.

use crate::header::{
    content_type, header_map_clone, header_map_entries, header_views, is_header_value,
    well_formed_headers, HeaderName, HeaderValueError, Headers,
};
use crate::links::{Link, LinksView};
use crate::multimap::collected;
use crate::relations::{
    declaration_views, declared, lemma_relations_of_push, relations_of, relations_well_shaped,
    RelationMap,
};
use crate::status::StatusCode;
use std::ops::Deref;
use vstd::prelude::*;
use vstd::string::StringSliceAdditionalSpecFns;

verus! {

broadcast use vstd::string::group_string_axioms;

/// The media type of a HAL document, as the bytes of a header value.
pub open spec fn hal_json() -> Seq<u8> {
    "application/hal+json".spec_bytes()
}

/// The headers that every response starts with: the content type alone,
/// with the HAL media type as its value.
pub open spec fn default_headers() -> Seq<(Seq<char>, Seq<u8>)> {
    seq![(content_type(), hal_json())]
}

/// What a response builder holds, as mathematical values.
pub struct HalView<T> {
    pub payload: T,
    pub status_code: int,
    pub headers: Seq<(Seq<char>, Seq<u8>)>,
    pub links: Map<Seq<char>, LinksView>,
}

/// The response of a HAL resource while it is being declared.
#[derive(Debug)]
pub struct HalRespondable<T> {
    payload: T,
    status_code: StatusCode,
    headers: Headers,
    links: RelationMap,
}

/// The document of a HAL resource: the payload, with the relation map
/// beside it under `_links`.
#[derive(Debug)]
pub struct HalPayload<T> {
    pub links: RelationMap,
    pub payload: T,
}

impl<T> View for HalRespondable<T> {
    type V = HalView<T>;

    closed spec fn view(&self) -> HalView<T> {
        HalView {
            payload: self.payload,
            status_code: self.status_code@,
            headers: self.headers@,
            links: self.links@,
        }
    }
}

/// The first header is the content type, with the HAL media type as its
/// value.
pub open spec fn starts_with_hal_json(headers: Seq<(Seq<char>, Seq<u8>)>) -> bool {
    headers.len() > 0 && headers[0] == (content_type(), hal_json())
}

impl<T> HalRespondable<T> {
    /// What holds of every response: its headers are well formed, the
    /// content type is declared with the HAL media type as its first value,
    /// and the links of every relation are well shaped.
    #[verifier::type_invariant]
    pub open spec fn well_formed(self) -> bool {
        &&& well_formed_headers(self@.headers)
        &&& starts_with_hal_json(self@.headers)
        &&& relations_well_shaped(self@.links)
    }

    /// A response for `payload`: status 200, the HAL content type as the one
    /// header, no links.
    pub fn new(payload: T) -> (response: Self)
        ensures
            response@ == (HalView {
                payload,
                status_code: 200,
                headers: default_headers(),
                links: Map::empty(),
            }),
    {
        let media_type = "application/hal+json";
        proof {
            reveal_strlit("application/hal+json");
            assert(vstd::string::is_ascii(media_type));
        }
        let mut headers = Headers::new();
        headers.with_header_value(&HeaderName::content_type(), media_type.as_bytes()).unwrap();
        proof {
            use_type_invariant(&headers);
            assert(headers@ =~= default_headers());
        }
        let status_code = StatusCode::ok();
        HalRespondable { payload, status_code, headers, links: RelationMap::new() }
    }

    /// Declare the status code. The last one declared counts.
    pub fn with_status_code(self, status_code: StatusCode) -> (response: Self)
        ensures
            response@ == (HalView { status_code: status_code@, ..self@ }),
    {
        proof {
            use_type_invariant(&self);
        }
        let HalRespondable { payload, status_code: _, headers, links } = self;
        HalRespondable { payload, status_code, headers, links }
    }

    /// Append a header value under `name`, behind all headers declared
    /// before, which stay, the content type among them. Bytes that are no
    /// header value are refused.
    pub fn with_header_value(self, name: &HeaderName, value: &[u8]) -> (outcome: Result<
        Self,
        HeaderValueError,
    >)
        ensures
            outcome is Ok <==> is_header_value(value@),
            outcome matches Ok(response) ==> response@ == (HalView {
                headers: self@.headers.push((name@, value@)),
                ..self@
            }),
    {
        proof {
            use_type_invariant(&self);
        }
        let HalRespondable { payload, status_code, mut headers, links } = self;
        match headers.with_header_value(name, value) {
            Ok(_) => {
                proof {
                    use_type_invariant(&headers);
                }
                Ok(HalRespondable { payload, status_code, headers, links })
            },
            Err(refused) => Err(refused),
        }
    }

    /// Append a header that is given as one pair of name and value; as
    /// `with_header_value` otherwise.
    pub fn with_header(self, header: &(HeaderName, Vec<u8>)) -> (outcome: Result<
        Self,
        HeaderValueError,
    >)
        ensures
            outcome is Ok <==> is_header_value(header.1@),
            outcome matches Ok(response) ==> response@ == (HalView {
                headers: self@.headers.push((header.0@, header.1@)),
                ..self@
            }),
    {
        self.with_header_value(&header.0, header.1.as_slice())
    }

    /// Declare a link under the relation `name`. The first link of a
    /// relation stands alone; each further one is appended to those that the
    /// relation has.
    pub fn with_link(self, name: &str, link: Link) -> (response: Self)
        ensures
            response@ == (HalView { links: declared(self@.links, name@, link@), ..self@ }),
    {
        proof {
            use_type_invariant(&self);
        }
        let HalRespondable { payload, status_code, headers, mut links } = self;
        links.add(name, link);
        HalRespondable { payload, status_code, headers, links }
    }

    /// Finish the response into its document: the payload as it was given,
    /// and the relation map as it was declared.
    pub fn body(self) -> (document: HalPayload<T>)
        ensures
            document.payload == self@.payload,
            document.links@ == self@.links,
    {
        HalPayload { payload: self.payload, links: self.links }
    }

    /// The status code.
    pub fn status_code(&self) -> (status_code: StatusCode)
        ensures
            status_code@ == self@.status_code,
    {
        self.status_code
    }

    /// The headers, in a header map of their own: under each name the
    /// values declared under it, in their order. The content type is among
    /// them, with the HAL media type as its first value.
    pub fn headers(&self) -> (headers: actix_http::header::HeaderMap)
        ensures
            header_map_entries(headers) == collected(self@.headers),
            starts_with_hal_json(self@.headers),
            well_formed_headers(self@.headers),
    {
        proof {
            use_type_invariant(self);
        }
        header_map_clone(self.headers.deref())
    }

    /// Assemble the response of a resource from what it declares: its
    /// payload, its status code, its headers and its links. The declared
    /// headers follow the content type, in their order; the links are
    /// declared one after the other.
    pub fn from_parts(
        payload: T,
        status_code: StatusCode,
        headers: &Headers,
        links: Vec<(String, Link)>,
    ) -> (response: Self)
        ensures
            response@ == (HalView {
                payload,
                status_code: status_code@,
                headers: default_headers() + headers@,
                links: relations_of(declaration_views(links@)),
            }),
    {
        let mut response = HalRespondable::new(payload).with_status_code(status_code);
        let pairs = headers.pairs();
        let mut next: usize = 0;
        while next < pairs.len()
            invariant
                next <= pairs.len(),
                header_views(pairs@) == headers@,
                well_formed_headers(headers@),
                response@.payload == payload,
                response@.status_code == status_code@,
                (response@.links == Map::<Seq<char>, LinksView>::empty()),
                response@.headers == default_headers() + headers@.take(next as int),
            decreases pairs.len() - next,
        {
            assert(headers@[next as int] == (pairs[next as int].0@, pairs[next as int].1@));
            let appended = response.with_header_value(&pairs[next].0, pairs[next].1.as_slice());
            response = appended.unwrap();
            assert(headers@.take(next + 1) =~= headers@.take(next as int).push(
                headers@[next as int],
            ));
            next += 1;
        }
        assert(headers@.take(pairs.len() as int) =~= headers@);
        let ghost declarations = declaration_views(links@);
        for declaration in it: links
            invariant
                declarations == declaration_views(it.seq()),
                response@.payload == payload,
                response@.status_code == status_code@,
                response@.headers == default_headers() + headers@,
                response@.links == relations_of(declarations.take(it.index() as int)),
        {
            let ghost at = it.index() as int;
            let (name, link) = declaration;
            proof {
                assert(declarations.take(at + 1) =~= declarations.take(at).push((name@, link@)));
                lemma_relations_of_push(declarations.take(at), name@, link@);
            }
            response = response.with_link(name.as_str(), link);
        }
        assert(declarations.take(declarations.len() as int) =~= declarations);
        response
    }
}

/// What a resource implements to be turned into a HAL response. It says what
/// the response holds; how headers are merged and links gathered is not its
/// concern.
pub trait IntoHal<T>: Sized {
    /// Turn the resource into its response. The headers, the status code
    /// and the links are asked for first, the payload last, since handing out
    /// the payload uses the resource up.
    ///
    /// The response holds what the resource declares: the status code that
    /// `status_code` gives, the payload that `payload` gives, the links that
    /// `links` gives, declared one after the other, and the content type
    /// followed by what `headers` leaves in headers that were empty when they
    /// were handed to it.
    fn into_hal(self) -> (response: HalRespondable<T>)
        ensures
            (exists|status: StatusCode|
                {
                    &&& #[trigger] call_ensures(Self::status_code, (&self,), status)
                    &&& response@.status_code == status@
                }),
            (exists|links: Vec<(String, Link)>|
                {
                    &&& #[trigger] call_ensures(Self::links, (&self,), links)
                    &&& response@.links == relations_of(declaration_views(links@))
                }),
            (exists|payload: T|
                {
                    &&& #[trigger] call_ensures(Self::payload, (self,), payload)
                    &&& response@.payload == payload
                }),
            (exists|sink: &mut Headers|
                {
                    &&& #[trigger] call_ensures(Self::headers, (&self, sink), ())
                    &&& (*sink)@ == Seq::<(Seq<char>, Seq<u8>)>::empty()
                    &&& response@.headers == default_headers() + (*final(sink))@
                }),
            starts_with_hal_json(response@.headers),
            well_formed_headers(response@.headers),
            relations_well_shaped(response@.links),
    {
        let mut headers = Headers::new();
        self.headers(&mut headers);
        let status_code = self.status_code();
        let links = self.links();
        let payload = self.payload();
        let response = HalRespondable::from_parts(payload, status_code, &headers, links);
        proof {
            use_type_invariant(&response);
        }
        response
    }

    /// The status code of the response. A resource that does not say
    /// otherwise declares 200.
    fn status_code(&self) -> (status_code: StatusCode)
        default_ensures
            status_code@ == 200,
    {
        StatusCode::ok()
    }

    /// The headers of the response beside the content type, appended to the
    /// headers handed in. A resource that does not say otherwise declares
    /// none.
    fn headers(&self, _headers: &mut Headers)
        default_ensures
            final(_headers)@ == old(_headers)@,
    {
    }

    /// The links of the response, each with its relation name, in the order
    /// of declaration. A resource that does not say otherwise declares none.
    fn links(&self) -> (links: Vec<(String, Link)>)
        default_ensures
            (links@ == Seq::<(String, Link)>::empty()),
    {
        Vec::new()
    }

    /// The payload of the response.
    fn payload(self) -> T;
}

} // verus!
