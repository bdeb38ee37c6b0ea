use actix_http::header::HeaderMap;
use hal::{
    HalPayload, HalRespondable, HeaderName, HeaderValueError, Headers, IntoHal, Link, Links,
    StatusCode,
};
use serde_json::Value;

#[derive(Debug, Clone, PartialEq)]
struct Item {
    id: u32,
    name: String,
}

fn widget() -> Item {
    Item { id: 1, name: "widget".to_string() }
}

fn name(text: &str) -> HeaderName {
    HeaderName::new(text).unwrap()
}

fn status(code: u16) -> StatusCode {
    StatusCode::from_u16(code).unwrap()
}

fn values(map: &HeaderMap, name: &str) -> Vec<Vec<u8>> {
    map.get_all(name).map(|value| value.as_bytes().to_vec()).collect()
}

fn hrefs(links: &Links) -> Vec<String> {
    match links {
        Links::Single(link) => vec![link.href.clone()],
        Links::Multiple(links) => links.iter().map(|link| link.href.clone()).collect(),
    }
}

fn link_json(link: &Link) -> String {
    let href = Value::String(link.href.clone());
    match &link.name {
        Some(name) => format!("{{\"href\":{},\"name\":{}}}", href, Value::String(name.clone())),
        None => format!("{{\"href\":{}}}", href),
    }
}

/// The document as it goes over the wire: `_links` first, the relations in
/// the order in which the relation map keeps them, a single link as an
/// object and several as an array, then the payload's fields.
fn json(document: &HalPayload<Item>) -> String {
    let mut relations = Vec::new();
    for (name, links) in document.links.entries() {
        let shape = match links {
            Links::Single(link) => link_json(link),
            Links::Multiple(links) => {
                format!("[{}]", links.iter().map(link_json).collect::<Vec<_>>().join(","))
            }
        };
        relations.push(format!("{}:{}", Value::String(name.clone()), shape));
    }
    format!(
        "{{\"_links\":{{{}}},\"id\":{},\"name\":{}}}",
        relations.join(","),
        document.payload.id,
        Value::String(document.payload.name.clone())
    )
}

struct Created;

impl IntoHal<Item> for Created {
    fn status_code(&self) -> StatusCode {
        status(201)
    }

    fn headers(&self, headers: &mut Headers) {
        headers.with_header_value(&name("X-Trace"), b"abc").unwrap();
    }

    fn links(&self) -> Vec<(String, Link)> {
        vec![("self".to_string(), "/items/1".into()), ("collection".to_string(), "/items".into())]
    }

    fn payload(self) -> Item {
        widget()
    }
}

struct Listing;

impl IntoHal<Item> for Listing {
    fn links(&self) -> Vec<(String, Link)> {
        vec![("items".to_string(), "/a".into()), ("items".to_string(), "/b".into())]
    }

    fn payload(self) -> Item {
        widget()
    }
}

struct Plain(Item);

impl IntoHal<Item> for Plain {
    fn payload(self) -> Item {
        self.0
    }
}

struct Cookies;

impl IntoHal<Item> for Cookies {
    fn headers(&self, headers: &mut Headers) {
        headers.with_header_value(&name("Set-Cookie"), b"one=1").unwrap();
        headers.with_header_value(&name("Content-Type"), b"text/plain").unwrap();
        headers.with_header_value(&name("Set-Cookie"), b"two=2").unwrap();
    }

    fn payload(self) -> Item {
        widget()
    }
}

#[test]
fn new_response_has_status_200_and_the_hal_content_type_alone() {
    let response = HalRespondable::new(widget());
    assert_eq!(response.status_code().as_u16(), 200);
    let headers = response.headers();
    assert_eq!(headers.len(), 1);
    assert_eq!(values(&headers, "content-type"), vec![b"application/hal+json".to_vec()]);
    let document = response.body();
    assert_eq!(document.links.len(), 0);
    assert_eq!(document.payload, widget());
}

#[test]
fn last_status_code_counts() {
    let response =
        HalRespondable::new(widget()).with_status_code(status(404)).with_status_code(status(201));
    assert_eq!(response.status_code(), status(201));
    assert_eq!(response.headers().len(), 1);
}

#[test]
fn header_values_are_appended() {
    let response = HalRespondable::new(widget())
        .with_header_value(&name("X-Trace"), b"abc")
        .unwrap()
        .with_header_value(&name("X-Trace"), b"def")
        .unwrap();
    let headers = response.headers();
    assert_eq!(headers.len(), 3);
    assert_eq!(values(&headers, "x-trace"), vec![b"abc".to_vec(), b"def".to_vec()]);
    assert_eq!(values(&headers, "content-type"), vec![b"application/hal+json".to_vec()]);
}

#[test]
fn content_type_set_again_is_added_not_replaced() {
    let response =
        HalRespondable::new(widget()).with_header_value(&name("Content-Type"), b"text/plain");
    let response = response.unwrap();
    let headers = response.headers();
    assert_eq!(
        values(&headers, "content-type"),
        vec![b"application/hal+json".to_vec(), b"text/plain".to_vec()]
    );
}

#[test]
fn bad_header_value_is_a_typed_error() {
    let outcome = HalRespondable::new(widget()).with_header_value(&name("X-Trace"), b"a\r\nb");
    assert_eq!(outcome.err(), Some(HeaderValueError));
}

#[test]
fn links_gather_under_their_relation() {
    let document = HalRespondable::new(widget())
        .with_link("item", Link::from("/l1"))
        .with_link("self", Link::from("/me"))
        .with_link("item", Link::from("/l2"))
        .with_link("item", Link::from("/l3"))
        .body();
    assert_eq!(document.links.len(), 2);
    let item = document.links.get("item").unwrap();
    assert!(matches!(item, Links::Multiple(_)));
    assert_eq!(hrefs(item), vec!["/l1", "/l2", "/l3"]);
    assert!(matches!(document.links.get("self"), Some(Links::Single(link)) if link.href == "/me"));
}

#[test]
fn body_holds_the_payload_and_the_relations_in_order() {
    let document = HalRespondable::new(widget())
        .with_status_code(status(202))
        .with_link("zeta", Link::from("/z"))
        .with_link("alpha", Link::from("/a"))
        .body();
    assert_eq!(document.payload, widget());
    let names: Vec<&str> = document.links.entries().iter().map(|(name, _)| name.as_str()).collect();
    assert_eq!(names, vec!["alpha", "zeta"]);
    assert_eq!(
        json(&document),
        "{\"_links\":{\"alpha\":{\"href\":\"/a\"},\"zeta\":{\"href\":\"/z\"}},\"id\":1,\"name\":\"widget\"}"
    );
}

#[test]
fn link_name_is_written_only_where_there_is_one() {
    let named = Link { href: "/a".to_string(), name: Some("first".to_string()) };
    let document =
        HalRespondable::new(widget()).with_link("item", named).with_link("item", "/b".into()).body();
    assert_eq!(
        json(&document),
        "{\"_links\":{\"item\":[{\"href\":\"/a\",\"name\":\"first\"},{\"href\":\"/b\"}]},\"id\":1,\"name\":\"widget\"}"
    );
}

#[test]
fn from_parts_merges_headers_and_links() {
    let mut declared = Headers::new();
    declared.with_header_value(&name("Set-Cookie"), b"one=1").unwrap();
    declared.with_header_value(&name("X-Trace"), b"abc").unwrap();
    declared.with_header_value(&name("Set-Cookie"), b"two=2").unwrap();
    let links = vec![
        ("next".to_string(), Link::from("/2")),
        ("item".to_string(), Link::from("/a")),
        ("item".to_string(), Link::from("/b")),
    ];
    let response = HalRespondable::from_parts(widget(), status(203), &declared, links);
    assert_eq!(response.status_code().as_u16(), 203);
    let headers = response.headers();
    assert_eq!(headers.len(), 4);
    assert_eq!(values(&headers, "content-type"), vec![b"application/hal+json".to_vec()]);
    assert_eq!(values(&headers, "set-cookie"), vec![b"one=1".to_vec(), b"two=2".to_vec()]);
    assert_eq!(values(&headers, "x-trace"), vec![b"abc".to_vec()]);
    assert_eq!(declared.len(), 3);
    let document = response.body();
    assert_eq!(hrefs(document.links.get("item").unwrap()), vec!["/a", "/b"]);
    assert!(matches!(document.links.get("next"), Some(Links::Single(_))));
    assert_eq!(document.payload, widget());
}

#[test]
fn from_parts_of_nothing_is_a_new_response() {
    let response = HalRespondable::from_parts(widget(), StatusCode::ok(), &Headers::new(), vec![]);
    assert_eq!(response.status_code().as_u16(), 200);
    assert_eq!(response.headers().len(), 1);
    assert_eq!(response.body().links.len(), 0);
}

#[test]
fn created_resource_end_to_end() {
    let response = Created.into_hal();
    assert_eq!(response.status_code().as_u16(), 201);
    let headers = response.headers();
    assert_eq!(values(&headers, "content-type"), vec![b"application/hal+json".to_vec()]);
    assert_eq!(values(&headers, "x-trace"), vec![b"abc".to_vec()]);
    assert_eq!(headers.len(), 2);
    let document = response.body();
    assert_eq!(document.payload, widget());
    let text = json(&document);
    assert_eq!(
        text,
        "{\"_links\":{\"collection\":{\"href\":\"/items\"},\"self\":{\"href\":\"/items/1\"}},\"id\":1,\"name\":\"widget\"}"
    );
    let expected: Value = serde_json::from_str(
        "{\"_links\": {\"collection\": {\"href\": \"/items\"}, \"self\": {\"href\": \"/items/1\"}}, \"id\": 1, \"name\": \"widget\"}",
    )
    .unwrap();
    assert_eq!(serde_json::from_str::<Value>(&text).unwrap(), expected);
}

#[test]
fn two_links_under_one_relation_end_to_end() {
    let document = Listing.into_hal().body();
    assert_eq!(document.links.len(), 1);
    assert!(matches!(document.links.get("items"), Some(Links::Multiple(_))));
    let text = json(&document);
    let whole: Value = serde_json::from_str(&text).unwrap();
    let expected: Value =
        serde_json::from_str("{\"items\": [{\"href\": \"/a\"}, {\"href\": \"/b\"}]}").unwrap();
    assert_eq!(whole["_links"], expected);
}

#[test]
fn resource_that_declares_only_its_payload() {
    let response = Plain(widget()).into_hal();
    assert_eq!(response.status_code().as_u16(), 200);
    let headers = response.headers();
    assert_eq!(headers.len(), 1);
    assert_eq!(values(&headers, "content-type"), vec![b"application/hal+json".to_vec()]);
    let document = response.body();
    assert_eq!(document.links.len(), 0);
    assert_eq!(json(&document), "{\"_links\":{},\"id\":1,\"name\":\"widget\"}");
}

#[test]
fn declared_headers_follow_the_content_type() {
    let headers = Cookies.into_hal().headers();
    assert_eq!(values(&headers, "set-cookie"), vec![b"one=1".to_vec(), b"two=2".to_vec()]);
    assert_eq!(
        values(&headers, "content-type"),
        vec![b"application/hal+json".to_vec(), b"text/plain".to_vec()]
    );
    assert_eq!(headers.len(), 4);
}

#[test]
fn header_given_as_a_pair_is_appended_to_the_response() {
    let etag = (name("ETag"), b"abc".to_vec());
    let response = HalRespondable::new(widget()).with_header(&etag).unwrap();
    let headers = response.headers();
    assert_eq!(headers.len(), 2);
    assert_eq!(values(&headers, "etag"), vec![b"abc".to_vec()]);
    let refused = response.with_header(&(name("ETag"), b"a\nb".to_vec()));
    assert_eq!(refused.err(), Some(HeaderValueError));
}
