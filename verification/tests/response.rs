use sersve::listing::Page;
use sersve::response::{Body, Outcome, Response};

#[test]
fn not_found_names_the_path() {
    let response = Response::not_found("/srv/www/a b");
    assert_eq!(response.outcome, Outcome::NotFound);
    assert_eq!(response.status, 200);
    assert_eq!(response.content_type, Some(String::from("text/html")));
    assert_eq!(response.body, Body::Text(String::from("Error, `/srv/www/a b` does not exist.")));
}

#[test]
fn io_error_carries_the_description() {
    let response = Response::io_error("not a directory");
    assert_eq!(response.outcome, Outcome::IoError);
    assert_eq!(response.status, 200);
    assert_eq!(response.body, Body::Text(String::from("Error: not a directory")));
}

#[test]
fn refusals_have_fixed_bodies() {
    assert_eq!(
        Response::forbidden().body,
        Body::Text(String::from("I don't think you're allowed to do this."))
    );
    assert_eq!(
        Response::too_large().body,
        Body::Text(String::from(
            "I'm afraid, I'm too lazy to serve the requested file. It's pretty big..."
        ))
    );
    assert_eq!(Response::forbidden().outcome, Outcome::Forbidden);
    assert_eq!(Response::too_large().outcome, Outcome::TooLarge);
}

#[test]
fn file_response_carries_path_and_type() {
    let typed = Response::file(String::from("/p/a.css"), Some(String::from("text/css")));
    assert_eq!(typed.outcome, Outcome::ServeFile);
    assert_eq!(typed.status, 200);
    assert_eq!(typed.content_type, Some(String::from("text/css")));
    assert_eq!(typed.body, Body::File(String::from("/p/a.css")));
    let untyped = Response::file(String::from("/p/a"), None);
    assert_eq!(untyped.content_type, None);
}

#[test]
fn listing_response_is_html() {
    let page = Page { title: String::from("t"), content: vec![] };
    let response = Response::listing(page.clone());
    assert_eq!(response.outcome, Outcome::RenderDirectory);
    assert_eq!(response.status, 200);
    assert_eq!(response.content_type, Some(String::from("text/html")));
    assert_eq!(response.body, Body::Listing(page));
}
