use ephpm_middleware_modules::http::{
    find_header, remove_header, set_header, Action, Reply, Request, Response, ResponseView,
};

fn hdr(name: &str, value: &str) -> (String, String) {
    (name.to_owned(), value.to_owned())
}

#[test]
fn the_first_header_of_a_name_is_read_in_any_case() {
    let headers = vec![hdr("A", "1"), hdr("b", "2"), hdr("a", "3")];
    assert_eq!(find_header(&headers, "a"), Some("1"));
    assert_eq!(find_header(&headers, "B"), Some("2"));
    assert_eq!(find_header(&headers, "c"), None);
}

#[test]
fn a_set_header_stands_once_and_a_removed_one_is_gone() {
    let headers = vec![hdr("A", "1"), hdr("b", "2"), hdr("a", "3")];
    let set = set_header(&headers, "a", "9");
    assert_eq!(set, vec![hdr("b", "2"), hdr("a", "9")]);
    let removed = remove_header(&headers, "A");
    assert_eq!(removed, vec![hdr("b", "2")]);
}

#[test]
fn edits_are_made_removals_first() {
    let mut view = ResponseView::new(Reply {
        status: 200,
        headers: vec![hdr("Server", "x"), hdr("Keep", "1")],
        body: b"old".to_vec(),
    });
    view.set_header("Server", "y");
    view.remove_header("server");
    // Reads see the reply as it came.
    assert_eq!(view.header("SERVER"), Some("x"));
    view.set_body(b"new".to_vec());
    let reply = view.apply();
    assert_eq!(reply.status, 200);
    assert_eq!(reply.headers, vec![hdr("Keep", "1"), hdr("Server", "y")]);
    assert_eq!(reply.body, b"new".to_vec());
}

#[test]
fn a_request_without_a_site_has_no_tenant() {
    let mut req = Request {
        method: "GET".to_owned(),
        path: "/".to_owned(),
        query: String::new(),
        remote_ip: String::new(),
        site: String::new(),
        headers: vec![hdr("Host", "example.com")],
    };
    assert_eq!(req.vhost_id(), None);
    req.site = "blog".to_owned();
    assert_eq!(req.vhost_id(), Some("blog"));
}

#[test]
fn verdicts_hold_what_they_are_built_from() {
    let r = Response::respond(418, "té").header("A", "1").response_header("B", "2");
    assert_eq!(r.action, Action::Respond);
    assert_eq!(r.status, 418);
    assert_eq!(r.body, "té".as_bytes());
    assert_eq!(r.headers, vec![hdr("A", "1")]);
    assert_eq!(r.response_headers, vec![hdr("B", "2")]);
    assert_eq!(Response::cont().action, Action::Continue);
    assert_eq!(Response::rewrite().action, Action::Rewrite);
}
