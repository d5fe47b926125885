use sersve::config::Config;
use sersve::constants::{FORBIDDEN, TOO_LARGE};
use sersve::dispatch::{dispatch, Context, Event, Step};
use sersve::filter::NameFilter;
use sersve::listing::{Page, RawEntry, Row};
use sersve::paths::PathFacts;
use sersve::response::{Body, Outcome, Response};

fn strings(items: &[&str]) -> Vec<String> {
    items.iter().map(|s| s.to_string()).collect()
}

fn context(filter: Option<&str>, limit: Option<u64>) -> Context {
    Context {
        config: Config {
            bind_host: String::from("0.0.0.0"),
            bind_port: 8080,
            root_dir: String::from("/srv/www"),
            name_filter: filter.and_then(|p| NameFilter::new(String::from(p))),
            max_file_size: limit,
            template_source: String::new(),
            thread_count: 1,
            fork_flag: false,
        },
        canonical_root: strings(&["srv", "www"]),
    }
}

fn file(name: &str, length: u64) -> RawEntry {
    RawEntry { name: String::from(name), is_directory: false, length }
}

fn facts(segments: &[&str], canonical: &[&str], is_file: bool, length: u64) -> Event {
    Event::Facts {
        segments: strings(segments),
        facts: PathFacts { canonical: Some(strings(canonical)), is_file, length },
    }
}

fn entries(segments: &[&str], canonical: &[&str], read: Result<Vec<RawEntry>, String>) -> Event {
    Event::Entries { segments: strings(segments), canonical: strings(canonical), entries: read }
}

fn streamed(path: &str, content_type: Option<&str>) -> Step {
    Step::Respond(Response {
        outcome: Outcome::ServeFile,
        status: 200,
        content_type: content_type.map(String::from),
        body: Body::File(String::from(path)),
    })
}

fn listed(title: &str, content: Vec<Row>) -> Step {
    Step::Respond(Response {
        outcome: Outcome::RenderDirectory,
        status: 200,
        content_type: Some(String::from("text/html")),
        body: Body::Listing(Page { title: String::from(title), content }),
    })
}

fn message(outcome: Outcome, text: &str) -> Step {
    Step::Respond(Response {
        outcome,
        status: 200,
        content_type: Some(String::from("text/html")),
        body: Body::Text(String::from(text)),
    })
}

fn row(url: &str, size: &str, name: &str) -> Row {
    Row { url: String::from(url), size: String::from(size), name: String::from(name) }
}

#[test]
fn request_asks_whether_the_joined_path_exists() {
    let step = dispatch(&context(None, None), Event::Request { segments: strings(&["a", "b.txt"]) });
    assert_eq!(
        step,
        Step::ProbeExistence { path: String::from("/srv/www/a/b.txt"), segments: strings(&["a", "b.txt"]) }
    );
}

#[test]
fn request_for_the_root_probes_the_root() {
    let step = dispatch(&context(None, None), Event::Request { segments: strings(&[]) });
    assert_eq!(step, Step::ProbeExistence { path: String::from("/srv/www"), segments: strings(&[]) });
    let slash = dispatch(&context(None, None), Event::Request { segments: strings(&[""]) });
    assert_eq!(slash, Step::ProbeExistence { path: String::from("/srv/www/"), segments: strings(&[""]) });
}

#[test]
fn missing_path_is_answered_at_once() {
    let step = dispatch(
        &context(None, None),
        Event::Existence { segments: strings(&["nope"]), exists: false },
    );
    assert_eq!(step, message(Outcome::NotFound, "Error, `/srv/www/nope` does not exist."));
}

#[test]
fn existing_path_is_inspected_next() {
    let step = dispatch(&context(None, None), Event::Existence { segments: strings(&["a"]), exists: true });
    assert_eq!(step, Step::ReadFacts { path: String::from("/srv/www/a"), segments: strings(&["a"]) });
}

#[test]
fn file_within_root_is_streamed() {
    let step = dispatch(
        &context(None, None),
        facts(&["index.html"], &["srv", "www", "index.html"], true, 1234),
    );
    assert_eq!(step, streamed("/srv/www/index.html", Some("text/html")));
}

#[test]
fn file_reached_through_dots_or_links_outside_root_is_refused() {
    let ctx = context(None, None);
    let dots = dispatch(&ctx, facts(&["..", "..", "etc", "passwd"], &["etc", "passwd"], true, 10));
    assert_eq!(dots, message(Outcome::Forbidden, FORBIDDEN));
    let link = dispatch(&ctx, facts(&["link"], &["home", "me", "secret"], true, 10));
    assert_eq!(link, message(Outcome::Forbidden, FORBIDDEN));
    let sibling = dispatch(&ctx, facts(&["..", "www2", "x"], &["srv", "www2", "x"], true, 10));
    assert_eq!(sibling, message(Outcome::Forbidden, FORBIDDEN));
}

#[test]
fn directory_outside_root_is_refused() {
    let ctx = context(None, None);
    let up = dispatch(&ctx, facts(&[".."], &["srv"], false, 0));
    assert_eq!(up, message(Outcome::Forbidden, FORBIDDEN));
    let read = dispatch(&ctx, entries(&[".."], &["srv"], Ok(vec![file("www", 1)])));
    assert_eq!(read, message(Outcome::Forbidden, FORBIDDEN));
}

#[test]
fn path_without_canonical_form_is_refused() {
    let step = dispatch(
        &context(None, None),
        Event::Facts {
            segments: strings(&["x"]),
            facts: PathFacts { canonical: None, is_file: true, length: 1 },
        },
    );
    assert_eq!(step, message(Outcome::Forbidden, FORBIDDEN));
}

#[test]
fn oversized_file_gets_the_fixed_message() {
    let step = dispatch(&context(None, Some(100)), facts(&["big.iso"], &["srv", "www", "big.iso"], true, 101));
    assert_eq!(step, message(Outcome::TooLarge, TOO_LARGE));
}

#[test]
fn file_that_fits_the_limit_is_streamed() {
    let step = dispatch(&context(None, Some(100)), facts(&["ok.txt"], &["srv", "www", "ok.txt"], true, 100));
    assert_eq!(step, streamed("/srv/www/ok.txt", Some("text/plain")));
}

#[test]
fn file_that_the_filter_rejects_is_refused() {
    let step = dispatch(&context(Some(r"\.txt$"), None), facts(&["a.png"], &["srv", "www", "a.png"], true, 1));
    assert_eq!(step, message(Outcome::Forbidden, FORBIDDEN));
}

#[test]
fn link_is_judged_by_its_own_name_not_by_the_name_it_leads_to() {
    let ctx = context(Some("txt$"), None);
    let to_text = dispatch(&ctx, facts(&["a.dat"], &["srv", "www", "b.txt"], true, 1));
    assert_eq!(to_text, message(Outcome::Forbidden, FORBIDDEN));
    let from_text = dispatch(&ctx, facts(&["b.txt"], &["srv", "www", "a.dat"], true, 1));
    assert_eq!(from_text, streamed("/srv/www/b.txt", Some("text/plain")));
}

#[test]
fn content_type_goes_by_the_requested_name() {
    let ctx = context(None, None);
    let page = dispatch(&ctx, facts(&["index.html"], &["srv", "www", "store", "0001.bin"], true, 1));
    assert_eq!(page, streamed("/srv/www/index.html", Some("text/html")));
    let blob = dispatch(&ctx, facts(&["download"], &["srv", "www", "index.html"], true, 1));
    assert_eq!(blob, streamed("/srv/www/download", None));
}

#[test]
fn file_without_registered_extension_is_streamed_without_content_type() {
    let ctx = context(None, None);
    let unknown = dispatch(&ctx, facts(&["data.nosuchextension"], &["srv", "www", "data.nosuchextension"], true, 1));
    assert_eq!(unknown, streamed("/srv/www/data.nosuchextension", None));
    let bare = dispatch(&ctx, facts(&["README"], &["srv", "www", "README"], true, 1));
    assert_eq!(bare, streamed("/srv/www/README", None));
}

#[test]
fn request_is_judged_by_size_before_name() {
    let step = dispatch(&context(Some("txt$"), Some(5)), facts(&["a.png"], &["srv", "www", "a.png"], true, 6));
    assert_eq!(step, message(Outcome::TooLarge, TOO_LARGE));
}

#[test]
fn directory_within_root_is_read_next() {
    let step = dispatch(&context(None, None), facts(&["docs"], &["srv", "www", "docs"], false, 4096));
    assert_eq!(
        step,
        Step::ReadDirectory {
            path: String::from("/srv/www/docs"),
            segments: strings(&["docs"]),
            canonical: strings(&["srv", "www", "docs"]),
        }
    );
}

#[test]
fn root_listing_is_sorted_and_has_no_parent_entry() {
    let step = dispatch(
        &context(None, None),
        entries(
            &[],
            &["srv", "www"],
            Ok(vec![
                file("index.html", 1500),
                RawEntry { name: String::from("assets"), is_directory: true, length: 4096 },
                file("README", 12),
            ]),
        ),
    );
    assert_eq!(
        step,
        listed(
            "/srv/www",
            vec![
                row("README", "12.0 B", "README"),
                row("assets", "0.0 B", "assets"),
                row("index.html", "1.500 kB", "index.html"),
            ]
        )
    );
}

#[test]
fn root_asked_for_with_a_trailing_slash_has_no_parent_entry() {
    let step = dispatch(&context(None, None), entries(&[""], &["srv", "www"], Ok(vec![file("a", 1)])));
    assert_eq!(step, listed("/srv/www/", vec![row("a", "1.0 B", "a")]));
}

#[test]
fn listing_below_root_has_the_parent_entry_first() {
    let step = dispatch(
        &context(Some("^[a-z]+$"), None),
        entries(
            &["a", "b"],
            &["srv", "www", "a", "b"],
            Ok(vec![file("zz", 1), file("hidden.txt", 2), file("aa", 3)]),
        ),
    );
    assert_eq!(
        step,
        listed(
            "/srv/www/a/b",
            vec![row("a", "0.0 B", ".."), row("a/b/aa", "3.0 B", "aa"), row("a/b/zz", "1.0 B", "zz")]
        )
    );
}

#[test]
fn links_of_a_listing_follow_the_requested_path() {
    let step = dispatch(
        &context(None, None),
        entries(&["link", ""], &["srv", "www", "real", "dir"], Ok(vec![file("x y", 1)])),
    );
    assert_eq!(
        step,
        listed("/srv/www/link/", vec![row("", "0.0 B", ".."), row("link/x%20y", "1.0 B", "x y")])
    );
}

#[test]
fn listing_is_the_same_however_the_entries_were_read() {
    let ctx = context(None, None);
    let read = |found: Vec<RawEntry>| dispatch(&ctx, entries(&["d"], &["srv", "www", "d"], Ok(found)));
    let one = read(vec![file("b", 2), file("a", 1), file("c", 3)]);
    let two = read(vec![file("c", 3), file("b", 2), file("a", 1)]);
    assert_eq!(one, two);
}

#[test]
fn unreadable_directory_is_reported() {
    let step = dispatch(
        &context(None, None),
        entries(&["locked"], &["srv", "www", "locked"], Err(String::from("permission denied"))),
    );
    assert_eq!(step, message(Outcome::IoError, "Error: permission denied"));
}

#[test]
fn every_response_has_the_same_status() {
    let ctx = context(Some("x"), Some(1));
    let steps = vec![
        dispatch(&ctx, Event::Existence { segments: strings(&["p"]), exists: false }),
        dispatch(&ctx, facts(&["p"], &["etc"], true, 0)),
        dispatch(&ctx, facts(&["x"], &["srv", "www", "x"], true, 5)),
        dispatch(&ctx, facts(&["y"], &["srv", "www", "y"], true, 0)),
        dispatch(&ctx, facts(&["x"], &["srv", "www", "x"], true, 1)),
        dispatch(&ctx, entries(&[], &["srv", "www"], Ok(vec![]))),
        dispatch(&ctx, entries(&[], &["srv", "www"], Err(String::from("e")))),
    ];
    let mut seen = Vec::new();
    for step in steps {
        match step {
            Step::Respond(response) => {
                assert_eq!(response.status, 200);
                seen.push(response.outcome);
            }
            other => panic!("no response: {:?}", other),
        }
    }
    assert_eq!(
        seen,
        vec![
            Outcome::NotFound,
            Outcome::Forbidden,
            Outcome::TooLarge,
            Outcome::Forbidden,
            Outcome::ServeFile,
            Outcome::RenderDirectory,
            Outcome::IoError,
        ]
    );
}

#[test]
fn a_whole_request_for_a_file() {
    let ctx = context(None, None);
    let probe = dispatch(&ctx, Event::Request { segments: strings(&["index.html"]) });
    let segments = match probe {
        Step::ProbeExistence { path, segments } => {
            assert_eq!(path, "/srv/www/index.html");
            segments
        }
        other => panic!("unexpected step: {:?}", other),
    };
    let inspect = dispatch(&ctx, Event::Existence { segments, exists: true });
    let segments = match inspect {
        Step::ReadFacts { path, segments } => {
            assert_eq!(path, "/srv/www/index.html");
            segments
        }
        other => panic!("unexpected step: {:?}", other),
    };
    let done = dispatch(
        &ctx,
        Event::Facts {
            segments,
            facts: PathFacts {
                canonical: Some(strings(&["srv", "www", "index.html"])),
                is_file: true,
                length: 42,
            },
        },
    );
    assert_eq!(done, streamed("/srv/www/index.html", Some("text/html")));
}

#[test]
fn root_that_ends_in_a_separator_gets_no_second_one() {
    let mut ctx = context(None, None);
    ctx.config.root_dir = String::from("/srv/www/");
    let probe = dispatch(&ctx, Event::Request { segments: strings(&["a"]) });
    assert_eq!(probe, Step::ProbeExistence { path: String::from("/srv/www/a"), segments: strings(&["a"]) });
    let missing = dispatch(&ctx, Event::Existence { segments: strings(&["a"]), exists: false });
    assert_eq!(missing, message(Outcome::NotFound, "Error, `/srv/www/a` does not exist."));
    let root = dispatch(&ctx, entries(&[], &["srv", "www"], Ok(vec![])));
    assert_eq!(root, listed("/srv/www/", vec![]));
}
