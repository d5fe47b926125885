use sersve::config::{decode, merge, Config, ConfigError, Document, Field, FileFields, Options};
use sersve::constants::{HOST, KEY_CONTENT, KEY_NAME, KEY_SIZE, KEY_TITLE, KEY_URL, PORT, TEMPLATE};
use sersve::filter::NameFilter;

fn nothing() -> Options {
    Options {
        address: None,
        port: None,
        root: None,
        filter: None,
        size: None,
        template: None,
        threads: None,
        fork: false,
    }
}

fn everything(tag: &str, port: u16, size: u64, threads: usize, fork: bool) -> Options {
    Options {
        address: Some(format!("{}-host", tag)),
        port: Some(port),
        root: Some(format!("/{}", tag)),
        filter: Some(format!("^{}$", tag)),
        size: Some(size),
        template: Some(format!("<{}>", tag)),
        threads: Some(threads),
        fork,
    }
}

fn absent() -> FileFields {
    FileFields {
        address: Field::Absent,
        port: Field::Absent,
        root: Field::Absent,
        filter: Field::Absent,
        size: Field::Absent,
        template: Field::Absent,
        fork: Field::Absent,
        threads: Field::Absent,
    }
}

fn text(value: &str) -> Field {
    Field::Text(String::from(value))
}

#[test]
fn defaults_apply_where_nothing_is_given() {
    assert_eq!(
        merge(nothing(), nothing(), "/cwd", 4),
        Config {
            bind_host: String::from("0.0.0.0"),
            bind_port: 8080,
            root_dir: String::from("/cwd"),
            name_filter: None,
            max_file_size: None,
            template_source: String::from(TEMPLATE),
            thread_count: 4,
            fork_flag: false,
        }
    );
    assert_eq!(HOST, "0.0.0.0");
    assert_eq!(PORT, 8080);
}

#[test]
fn file_goes_before_defaults() {
    assert_eq!(
        merge(nothing(), everything("file", 81, 10, 2, true), "/cwd", 4),
        Config {
            bind_host: String::from("file-host"),
            bind_port: 81,
            root_dir: String::from("/file"),
            name_filter: NameFilter::new(String::from("^file$")),
            max_file_size: Some(10),
            template_source: String::from("<file>"),
            thread_count: 2,
            fork_flag: true,
        }
    );
}

#[test]
fn command_line_goes_before_file() {
    assert_eq!(
        merge(everything("cli", 82, 20, 3, false), everything("file", 81, 10, 2, false), "/cwd", 4),
        Config {
            bind_host: String::from("cli-host"),
            bind_port: 82,
            root_dir: String::from("/cli"),
            name_filter: NameFilter::new(String::from("^cli$")),
            max_file_size: Some(20),
            template_source: String::from("<cli>"),
            thread_count: 3,
            fork_flag: false,
        }
    );
}

#[test]
fn settings_are_merged_one_by_one() {
    let mut cli = nothing();
    cli.port = Some(9000);
    cli.filter = Some(String::from("cli"));
    let mut file = nothing();
    file.port = Some(1);
    file.address = Some(String::from("127.0.0.1"));
    file.size = Some(5);
    let config = merge(cli, file, "/cwd", 8);
    assert_eq!(config.bind_port, 9000);
    assert_eq!(config.bind_host, "127.0.0.1");
    assert_eq!(config.name_filter, Some(NameFilter { pattern: String::from("cli") }));
    assert_eq!(config.max_file_size, Some(5));
    assert_eq!(config.root_dir, "/cwd");
    assert_eq!(config.thread_count, 8);
}

#[test]
fn pattern_that_is_no_regular_expression_gives_no_filter() {
    let mut cli = nothing();
    cli.filter = Some(String::from("(unclosed"));
    let mut file = nothing();
    file.filter = Some(String::from("valid"));
    assert_eq!(merge(cli, file, "/cwd", 1).name_filter, None);
    let mut only_file = nothing();
    only_file.filter = Some(String::from("["));
    assert_eq!(merge(nothing(), only_file, "/cwd", 1).name_filter, None);
}

#[test]
fn fork_is_asked_for_by_either_source() {
    let mut asks = nothing();
    asks.fork = true;
    assert!(merge(asks.clone(), nothing(), "/", 1).fork_flag);
    assert!(merge(nothing(), asks.clone(), "/", 1).fork_flag);
    assert!(merge(asks.clone(), asks, "/", 1).fork_flag);
    assert!(!merge(nothing(), nothing(), "/", 1).fork_flag);
}

#[test]
fn default_template_iterates_over_the_content() {
    assert!(TEMPLATE.starts_with("<!DOCTYPE html>"));
    assert!(TEMPLATE.contains("{{title}}"));
    assert!(TEMPLATE.contains("{{#content}}"));
    assert!(TEMPLATE.contains("<a href=\"/{{url}}\">{{name}}</a>"));
    assert!(TEMPLATE.contains("{{size}}"));
    assert!(TEMPLATE.contains("{{/content}}"));
    assert!(TEMPLATE.ends_with("</html>"));
}

#[test]
fn default_template_uses_the_keys_of_a_page() {
    assert_eq!((KEY_TITLE, KEY_CONTENT, KEY_URL, KEY_SIZE, KEY_NAME), ("title", "content", "url", "size", "name"));
    for key in [KEY_TITLE, KEY_URL, KEY_SIZE, KEY_NAME].iter() {
        assert!(TEMPLATE.contains(&format!("{{{{{}}}}}", key)));
    }
    assert!(TEMPLATE.contains(&format!("{{{{#{}}}}}", KEY_CONTENT)));
    assert!(TEMPLATE.contains(&format!("{{{{/{}}}}}", KEY_CONTENT)));
}

#[test]
fn empty_object_gives_no_settings() {
    assert_eq!(decode(Document::Object(absent())), Ok(nothing()));
}

#[test]
fn full_object_gives_every_setting() {
    let fields = FileFields {
        address: text("localhost"),
        port: Field::Number(8081),
        root: text("/srv"),
        filter: text("txt"),
        size: Field::Number(1_000_000),
        template: text("{{title}}"),
        fork: Field::Flag(true),
        threads: Field::Number(16),
    };
    assert_eq!(
        decode(Document::Object(fields)),
        Ok(Options {
            address: Some(String::from("localhost")),
            port: Some(8081),
            root: Some(String::from("/srv")),
            filter: Some(String::from("txt")),
            size: Some(1_000_000),
            template: Some(String::from("{{title}}")),
            threads: Some(16),
            fork: true,
        })
    );
}

#[test]
fn fork_false_is_no_fork() {
    let mut fields = absent();
    fields.fork = Field::Flag(false);
    assert_eq!(decode(Document::Object(fields)), Ok(nothing()));
}

#[test]
fn port_too_large_keeps_its_low_bits() {
    let mut fields = absent();
    fields.port = Field::Number(65536 + 8080);
    let options = decode(Document::Object(fields)).unwrap();
    assert_eq!(options.port, Some(8080));
}

#[test]
fn document_that_is_no_object_is_refused() {
    assert_eq!(decode(Document::Other), Err(ConfigError::Document));
}

#[test]
fn field_of_the_wrong_kind_is_refused() {
    let cases: Vec<(fn(&mut FileFields), ConfigError)> = vec![
        (|f| f.address = Field::Number(1), ConfigError::Address),
        (|f| f.port = Field::Text(String::from("80")), ConfigError::Port),
        (|f| f.root = Field::Flag(true), ConfigError::Root),
        (|f| f.filter = Field::Other, ConfigError::Filter),
        (|f| f.size = Field::Other, ConfigError::Size),
        (|f| f.template = Field::Number(0), ConfigError::Template),
        (|f| f.fork = Field::Text(String::from("yes")), ConfigError::Fork),
        (|f| f.threads = Field::Flag(false), ConfigError::Threads),
    ];
    for (spoil, expected) in cases {
        let mut fields = absent();
        spoil(&mut fields);
        assert_eq!(decode(Document::Object(fields)), Err(expected));
    }
}

#[test]
fn first_wrong_field_decides_the_error() {
    let mut fields = absent();
    fields.threads = Field::Other;
    fields.size = Field::Other;
    fields.root = Field::Other;
    assert_eq!(decode(Document::Object(fields.clone())), Err(ConfigError::Root));
    fields.root = Field::Absent;
    assert_eq!(decode(Document::Object(fields.clone())), Err(ConfigError::Size));
    fields.size = Field::Number(3);
    assert_eq!(decode(Document::Object(fields)), Err(ConfigError::Threads));
}

#[test]
fn errors_are_reported_in_fixed_words() {
    assert_eq!(
        ConfigError::Document.message(),
        "Invalid configuration file. Doesn't contain valid top-level object."
    );
    assert_eq!(
        ConfigError::Address.message(),
        "Invalid configuration file. `address` field must be a string."
    );
    assert_eq!(
        ConfigError::Port.message(),
        "Invalid configuration file. `port` field must be an unsigned integer."
    );
    assert_eq!(ConfigError::Root.message(), "Invalid configuration file. `root` field must be a string.");
    assert_eq!(
        ConfigError::Filter.message(),
        "Invalid configuration file. `filter` field must be a string."
    );
    assert_eq!(
        ConfigError::Size.message(),
        "Invalid configuration file. `size` field must be an unsigned integer."
    );
    assert_eq!(
        ConfigError::Template.message(),
        "Invalid configuration file. `template` field must be a string."
    );
    assert_eq!(ConfigError::Fork.message(), "Invalid configuration file. `fork` field must be a boolean");
    assert_eq!(
        ConfigError::Threads.message(),
        "Invalid configuration file. `threads` field must be a string."
    );
}
