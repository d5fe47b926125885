//! Configuration: what the command line and a configuration file give,
//! merged into the settings that the server runs with.

use vstd::prelude::*;
use crate::constants::{HOST, PORT, TEMPLATE};
use crate::filter::{configured, NameFilter};

verus! {

/// The settings that one source gives; every one of them may be missing.
#[derive(Clone, Debug, PartialEq, Eq)]
pub struct Options {
    pub address: Option<String>,
    pub port: Option<u16>,
    pub root: Option<String>,
    pub filter: Option<String>,
    pub size: Option<u64>,
    pub template: Option<String>,
    pub threads: Option<usize>,
    pub fork: bool,
}

/// The model of [`Options`] that contracts speak of: texts are sequences of
/// characters, vectors are sequences.
pub struct OptionsModel {
    pub address: Option<Seq<char>>,
    pub port: Option<u16>,
    pub root: Option<Seq<char>>,
    pub filter: Option<Seq<char>>,
    pub size: Option<u64>,
    pub template: Option<Seq<char>>,
    pub threads: Option<usize>,
    pub fork: bool,
}

impl DeepView for Options {
    type V = OptionsModel;

    open spec fn deep_view(&self) -> OptionsModel {
        OptionsModel {
            address: self.address.deep_view(),
            port: self.port,
            root: self.root.deep_view(),
            filter: self.filter.deep_view(),
            size: self.size,
            template: self.template.deep_view(),
            threads: self.threads,
            fork: self.fork,
        }
    }
}

/// The settings of a running server.
#[derive(Clone, Debug, PartialEq, Eq)]
pub struct Config {
    pub bind_host: String,
    pub bind_port: u16,
    pub root_dir: String,
    pub name_filter: Option<NameFilter>,
    pub max_file_size: Option<u64>,
    pub template_source: String,
    pub thread_count: usize,
    pub fork_flag: bool,
}

/// The model of [`Config`] that contracts speak of: texts are sequences of
/// characters, vectors are sequences.
pub struct ConfigModel {
    pub bind_host: Seq<char>,
    pub bind_port: u16,
    pub root_dir: Seq<char>,
    pub name_filter: Option<Seq<char>>,
    pub max_file_size: Option<u64>,
    pub template_source: Seq<char>,
    pub thread_count: usize,
    pub fork_flag: bool,
}

impl DeepView for Config {
    type V = ConfigModel;

    open spec fn deep_view(&self) -> ConfigModel {
        ConfigModel {
            bind_host: self.bind_host@,
            bind_port: self.bind_port,
            root_dir: self.root_dir@,
            name_filter: self.name_filter.deep_view(),
            max_file_size: self.max_file_size,
            template_source: self.template_source@,
            thread_count: self.thread_count,
            fork_flag: self.fork_flag,
        }
    }
}

/// The first of two optional values that is there.
pub open spec fn first_of<T>(preferred: Option<T>, other: Option<T>) -> Option<T> {
    if preferred is Some {
        preferred
    } else {
        other
    }
}

/// A value where there is one, and a fallback where there is none.
pub open spec fn value_or<T>(value: Option<T>, fallback: T) -> T {
    match value {
        Some(v) => v,
        None => fallback,
    }
}

/// The merged settings: the command line goes before the file, and the
/// file before the defaults. The root and the thread count have no fixed
/// default; `working_dir` and `cores` stand in for them. A filter pattern
/// that is no regular expression gives no filter. The server forks where
/// either source asks for it.
pub open spec fn merged(cli: OptionsModel, file: OptionsModel, working_dir: Seq<char>, cores: usize)
    -> ConfigModel {
    ConfigModel {
        bind_host: value_or(first_of(cli.address, file.address), HOST@),
        bind_port: value_or(first_of(cli.port, file.port), PORT),
        root_dir: value_or(first_of(cli.root, file.root), working_dir),
        name_filter: configured(first_of(cli.filter, file.filter)),
        max_file_size: first_of(cli.size, file.size),
        template_source: value_or(first_of(cli.template, file.template), TEMPLATE@),
        thread_count: value_or(first_of(cli.threads, file.threads), cores),
        fork_flag: cli.fork || file.fork,
    }
}

fn pick_text(preferred: Option<String>, other: Option<String>) -> (picked: Option<String>)
    ensures
        picked.deep_view() == first_of(preferred.deep_view(), other.deep_view()),
{
    match preferred {
        Some(text) => Some(text),
        None => other,
    }
}

fn text_or(value: Option<String>, fallback: &str) -> (text: String)
    ensures
        text@ == value_or(value.deep_view(), fallback@),
{
    match value {
        Some(text) => text,
        None => String::from_str(fallback),
    }
}

/// Merges the settings of the command line and of the configuration file.
pub fn merge(cli: Options, file: Options, working_dir: &str, cores: usize) -> (config: Config)
    ensures
        config.deep_view() == merged(cli.deep_view(), file.deep_view(), working_dir@, cores),
{
    let name_filter = match pick_text(cli.filter, file.filter) {
        Some(pattern) => NameFilter::new(pattern),
        None => None,
    };
    Config {
        bind_host: text_or(pick_text(cli.address, file.address), HOST),
        bind_port: match cli.port {
            Some(port) => port,
            None => match file.port {
                Some(port) => port,
                None => PORT,
            },
        },
        root_dir: text_or(pick_text(cli.root, file.root), working_dir),
        name_filter,
        max_file_size: match cli.size {
            Some(size) => Some(size),
            None => file.size,
        },
        template_source: text_or(pick_text(cli.template, file.template), TEMPLATE),
        thread_count: match cli.threads {
            Some(threads) => threads,
            None => match file.threads {
                Some(threads) => threads,
                None => cores,
            },
        },
        fork_flag: cli.fork || file.fork,
    }
}

/// What a configuration file holds under one key, as far as the settings
/// read it.
#[derive(Clone, Debug, PartialEq, Eq)]
pub enum Field {
    /// The key is not there.
    Absent,
    /// A string.
    Text(String),
    /// An unsigned integer.
    Number(u64),
    /// A boolean.
    Flag(bool),
    /// Anything else.
    Other,
}

/// The model of [`Field`] that contracts speak of: texts are sequences of
/// characters, vectors are sequences.
pub enum FieldModel {
    Absent,
    Text(Seq<char>),
    Number(u64),
    Flag(bool),
    Other,
}

impl DeepView for Field {
    type V = FieldModel;

    open spec fn deep_view(&self) -> FieldModel {
        match self {
            Field::Absent => FieldModel::Absent,
            Field::Text(text) => FieldModel::Text(text@),
            Field::Number(number) => FieldModel::Number(*number),
            Field::Flag(flag) => FieldModel::Flag(*flag),
            Field::Other => FieldModel::Other,
        }
    }
}

/// The keys of a configuration file that the settings read.
#[derive(Clone, Debug, PartialEq, Eq)]
pub struct FileFields {
    pub address: Field,
    pub port: Field,
    pub root: Field,
    pub filter: Field,
    pub size: Field,
    pub template: Field,
    pub fork: Field,
    pub threads: Field,
}

/// The model of [`FileFields`] that contracts speak of: texts are sequences of
/// characters, vectors are sequences.
pub struct FileFieldsModel {
    pub address: FieldModel,
    pub port: FieldModel,
    pub root: FieldModel,
    pub filter: FieldModel,
    pub size: FieldModel,
    pub template: FieldModel,
    pub fork: FieldModel,
    pub threads: FieldModel,
}

impl DeepView for FileFields {
    type V = FileFieldsModel;

    open spec fn deep_view(&self) -> FileFieldsModel {
        FileFieldsModel {
            address: self.address.deep_view(),
            port: self.port.deep_view(),
            root: self.root.deep_view(),
            filter: self.filter.deep_view(),
            size: self.size.deep_view(),
            template: self.template.deep_view(),
            fork: self.fork.deep_view(),
            threads: self.threads.deep_view(),
        }
    }
}

/// What a configuration file holds at its top level.
#[derive(Clone, Debug, PartialEq, Eq)]
pub enum Document {
    /// An object, with these values under the keys that are read.
    Object(FileFields),
    /// Anything else.
    Other,
}

/// The model of [`Document`] that contracts speak of: texts are sequences of
/// characters, vectors are sequences.
pub enum DocumentModel {
    Object(FileFieldsModel),
    Other,
}

impl DeepView for Document {
    type V = DocumentModel;

    open spec fn deep_view(&self) -> DocumentModel {
        match self {
            Document::Object(fields) => DocumentModel::Object(fields.deep_view()),
            Document::Other => DocumentModel::Other,
        }
    }
}

/// Why a configuration file is refused: its top level, or the first key
/// whose value is of the wrong kind.
#[derive(Clone, Copy, Debug, PartialEq, Eq)]
pub enum ConfigError {
    Document,
    Address,
    Port,
    Root,
    Filter,
    Size,
    Template,
    Fork,
    Threads,
}

/// Whether a field may stand where a string is read.
pub open spec fn is_text(field: FieldModel) -> bool {
    field is Absent || field is Text
}

/// Whether a field may stand where an unsigned integer is read.
pub open spec fn is_number(field: FieldModel) -> bool {
    field is Absent || field is Number
}

/// Whether a field may stand where a boolean is read.
pub open spec fn is_flag(field: FieldModel) -> bool {
    field is Absent || field is Flag
}

/// The string that a field gives.
pub open spec fn text_of(field: FieldModel) -> Option<Seq<char>> {
    match field {
        FieldModel::Text(text) => Some(text),
        _ => None,
    }
}

/// The unsigned integer that a field gives.
pub open spec fn number_of(field: FieldModel) -> Option<u64> {
    match field {
        FieldModel::Number(number) => Some(number),
        _ => None,
    }
}

/// The settings that a configuration file gives. The keys are judged in a
/// fixed order and the first of the wrong kind decides the error. A port
/// or a thread count too large for its type keeps its low bits.
pub open spec fn decoded(document: DocumentModel) -> Result<OptionsModel, ConfigError> {
    match document {
        DocumentModel::Other => Err(ConfigError::Document),
        DocumentModel::Object(fields) => if !is_text(fields.address) {
            Err(ConfigError::Address)
        } else if !is_number(fields.port) {
            Err(ConfigError::Port)
        } else if !is_text(fields.root) {
            Err(ConfigError::Root)
        } else if !is_text(fields.filter) {
            Err(ConfigError::Filter)
        } else if !is_number(fields.size) {
            Err(ConfigError::Size)
        } else if !is_text(fields.template) {
            Err(ConfigError::Template)
        } else if !is_flag(fields.fork) {
            Err(ConfigError::Fork)
        } else if !is_number(fields.threads) {
            Err(ConfigError::Threads)
        } else {
            Ok(
                OptionsModel {
                    address: text_of(fields.address),
                    port: match number_of(fields.port) {
                        Some(number) => Some(number as u16),
                        None => None,
                    },
                    root: text_of(fields.root),
                    filter: text_of(fields.filter),
                    size: number_of(fields.size),
                    template: text_of(fields.template),
                    threads: match number_of(fields.threads) {
                        Some(number) => Some(number as usize),
                        None => None,
                    },
                    fork: fields.fork == FieldModel::Flag(true),
                },
            )
        },
    }
}

fn read_text(field: Field) -> (read: Option<Option<String>>)
    ensures
        read is Some <==> is_text(field.deep_view()),
        read matches Some(text) ==> text.deep_view() == text_of(field.deep_view()),
{
    match field {
        Field::Absent => Some(None),
        Field::Text(text) => Some(Some(text)),
        _ => None,
    }
}

fn read_number(field: &Field) -> (read: Option<Option<u64>>)
    ensures
        read is Some <==> is_number(field.deep_view()),
        read matches Some(number) ==> number == number_of(field.deep_view()),
{
    match field {
        Field::Absent => Some(None),
        Field::Number(number) => Some(Some(*number)),
        _ => None,
    }
}

/// Reads the settings out of a configuration file.
pub fn decode(document: Document) -> (outcome: Result<Options, ConfigError>)
    ensures
        match outcome {
            Ok(options) => decoded(document.deep_view()) == Ok::<OptionsModel, ConfigError>(
                options.deep_view(),
            ),
            Err(error) => decoded(document.deep_view()) == Err::<OptionsModel, ConfigError>(error),
        },
{
    let fields = match document {
        Document::Object(fields) => fields,
        Document::Other => {
            return Err(ConfigError::Document);
        },
    };
    let address = match read_text(fields.address) {
        Some(address) => address,
        None => {
            return Err(ConfigError::Address);
        },
    };
    let port = match read_number(&fields.port) {
        Some(Some(number)) => Some(#[verifier::truncate] (number as u16)),
        Some(None) => None,
        None => {
            return Err(ConfigError::Port);
        },
    };
    let root = match read_text(fields.root) {
        Some(root) => root,
        None => {
            return Err(ConfigError::Root);
        },
    };
    let filter = match read_text(fields.filter) {
        Some(filter) => filter,
        None => {
            return Err(ConfigError::Filter);
        },
    };
    let size = match read_number(&fields.size) {
        Some(size) => size,
        None => {
            return Err(ConfigError::Size);
        },
    };
    let template = match read_text(fields.template) {
        Some(template) => template,
        None => {
            return Err(ConfigError::Template);
        },
    };
    let fork = match fields.fork {
        Field::Absent => false,
        Field::Flag(flag) => flag,
        _ => {
            return Err(ConfigError::Fork);
        },
    };
    let threads = match read_number(&fields.threads) {
        Some(Some(number)) => Some(#[verifier::truncate] (number as usize)),
        Some(None) => None,
        None => {
            return Err(ConfigError::Threads);
        },
    };
    Ok(Options { address, port, root, filter, size, template, threads, fork })
}

impl ConfigError {
    /// The words in which the error is reported.
    pub fn message(&self) -> (text: &'static str)
        ensures
            text@ == match *self {
                ConfigError::Document =>
                    "Invalid configuration file. Doesn't contain valid top-level object."@,
                ConfigError::Address =>
                    "Invalid configuration file. `address` field must be a string."@,
                ConfigError::Port =>
                    "Invalid configuration file. `port` field must be an unsigned integer."@,
                ConfigError::Root => "Invalid configuration file. `root` field must be a string."@,
                ConfigError::Filter =>
                    "Invalid configuration file. `filter` field must be a string."@,
                ConfigError::Size =>
                    "Invalid configuration file. `size` field must be an unsigned integer."@,
                ConfigError::Template =>
                    "Invalid configuration file. `template` field must be a string."@,
                ConfigError::Fork => "Invalid configuration file. `fork` field must be a boolean"@,
                ConfigError::Threads =>
                    "Invalid configuration file. `threads` field must be a string."@,
            },
    {
        match self {
            ConfigError::Document =>
                "Invalid configuration file. Doesn't contain valid top-level object.",
            ConfigError::Address => "Invalid configuration file. `address` field must be a string.",
            ConfigError::Port =>
                "Invalid configuration file. `port` field must be an unsigned integer.",
            ConfigError::Root => "Invalid configuration file. `root` field must be a string.",
            ConfigError::Filter => "Invalid configuration file. `filter` field must be a string.",
            ConfigError::Size =>
                "Invalid configuration file. `size` field must be an unsigned integer.",
            ConfigError::Template =>
                "Invalid configuration file. `template` field must be a string.",
            ConfigError::Fork => "Invalid configuration file. `fork` field must be a boolean",
            ConfigError::Threads => "Invalid configuration file. `threads` field must be a string.",
        }
    }
}

} // verus!
