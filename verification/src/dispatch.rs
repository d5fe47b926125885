//! Dispatch: one request, from its path segments to its response.
//!
//! The handler never touches the filesystem. It says what it needs to
//! know next, is told, and goes on until it has a response: first whether
//! the path exists, then what it is, then, for a directory, what it holds.
//! Nothing is kept between requests: each step hands out the segments of
//! the request, and each event brings them back.

use vstd::prelude::*;
use crate::config::{Config, ConfigModel};
use crate::constants::STATUS;
use crate::files::{exceeds, file_response, serve_file};
use crate::filter::allowed;
use crate::listing::{
    above, directory_listing, lemma_parent_marker_placement, page_of, render_directory, RawEntry,
    RawEntryModel,
};
use crate::mime::content_type_of;
use crate::paths::{
    contained, is_within, join_request_path, joined_path, lemma_parent_stays_within_root,
    named_segments, requested_below, requested_name, resolution_of, resolve, PathFacts,
    PathFactsModel, Resolution, ResolutionModel,
};
use crate::response::{
    file, forbidden, io_error, listing, not_found, too_large, Outcome, Response, ResponseModel,
};
use crate::url::url_path;

verus! {

/// What every request is handled with: the settings, and the canonical
/// form of the root.
#[derive(Clone, Debug, PartialEq, Eq)]
pub struct Context {
    pub config: Config,
    pub canonical_root: Vec<String>,
}

/// The model of [`Context`] that contracts speak of: texts are sequences of
/// characters, vectors are sequences.
pub struct ContextModel {
    pub config: ConfigModel,
    pub canonical_root: Seq<Seq<char>>,
}

impl DeepView for Context {
    type V = ContextModel;

    open spec fn deep_view(&self) -> ContextModel {
        ContextModel {
            config: self.config.deep_view(),
            canonical_root: self.canonical_root.deep_view(),
        }
    }
}

/// What the handler is told.
#[derive(Debug, PartialEq, Eq)]
pub enum Event {
    /// A request came in for these path segments.
    Request { segments: Vec<String> },
    /// Whether anything exists at the path of the request.
    Existence { segments: Vec<String>, exists: bool },
    /// What the filesystem reports of the path of the request, which exists.
    Facts { segments: Vec<String>, facts: PathFacts },
    /// What the requested directory, of canonical form `canonical`, holds;
    /// or why it could not be read.
    Entries {
        segments: Vec<String>,
        canonical: Vec<String>,
        entries: Result<Vec<RawEntry>, String>,
    },
}

/// The model of [`Event`] that contracts speak of: texts are sequences of
/// characters, vectors are sequences.
pub enum EventModel {
    Request { segments: Seq<Seq<char>> },
    Existence { segments: Seq<Seq<char>>, exists: bool },
    Facts { segments: Seq<Seq<char>>, facts: PathFactsModel },
    Entries {
        segments: Seq<Seq<char>>,
        canonical: Seq<Seq<char>>,
        entries: Result<Seq<RawEntryModel>, Seq<char>>,
    },
}

impl DeepView for Event {
    type V = EventModel;

    open spec fn deep_view(&self) -> EventModel {
        match self {
            Event::Request { segments } => EventModel::Request { segments: segments.deep_view() },
            Event::Existence { segments, exists } => EventModel::Existence {
                segments: segments.deep_view(),
                exists: *exists,
            },
            Event::Facts { segments, facts } => EventModel::Facts {
                segments: segments.deep_view(),
                facts: facts.deep_view(),
            },
            Event::Entries { segments, canonical, entries } => EventModel::Entries {
                segments: segments.deep_view(),
                canonical: canonical.deep_view(),
                entries: match entries {
                    Ok(raw) => Ok(raw.deep_view()),
                    Err(description) => Err(description@),
                },
            },
        }
    }
}

/// What the handler does next. `path` is where to look; `segments` are to
/// be brought back with what was found.
#[derive(Clone, Debug, PartialEq, Eq)]
pub enum Step {
    /// Find out whether anything exists at `path`.
    ProbeExistence { path: String, segments: Vec<String> },
    /// Find out what `path` is: its canonical form, its kind, its length.
    ReadFacts { path: String, segments: Vec<String> },
    /// Read the entries of the directory at `path`.
    ReadDirectory { path: String, segments: Vec<String>, canonical: Vec<String> },
    /// Send the response; the request is done.
    Respond(Response),
}

/// The model of [`Step`] that contracts speak of: texts are sequences of
/// characters, vectors are sequences.
pub enum StepModel {
    ProbeExistence { path: Seq<char>, segments: Seq<Seq<char>> },
    ReadFacts { path: Seq<char>, segments: Seq<Seq<char>> },
    ReadDirectory { path: Seq<char>, segments: Seq<Seq<char>>, canonical: Seq<Seq<char>> },
    Respond(ResponseModel),
}

impl DeepView for Step {
    type V = StepModel;

    open spec fn deep_view(&self) -> StepModel {
        match self {
            Step::ProbeExistence { path, segments } => StepModel::ProbeExistence {
                path: path@,
                segments: segments.deep_view(),
            },
            Step::ReadFacts { path, segments } => StepModel::ReadFacts {
                path: path@,
                segments: segments.deep_view(),
            },
            Step::ReadDirectory { path, segments, canonical } => StepModel::ReadDirectory {
                path: path@,
                segments: segments.deep_view(),
                canonical: canonical.deep_view(),
            },
            Step::Respond(response) => StepModel::Respond(response.deep_view()),
        }
    }
}

/// The path that a request asks for: the configured root with the
/// segments joined onto it.
pub open spec fn requested_path(ctx: ContextModel, segments: Seq<Seq<char>>) -> Seq<char> {
    joined_path(ctx.config.root_dir, segments)
}

/// The step that follows what the filesystem reports of an existing path.
/// The canonical form decides containment and nothing else. A file within
/// the root is answered at once, judged by the name that was asked for.
/// Anything else within the root is read as a directory. A path that
/// leaves the root is refused.
pub open spec fn after_facts(ctx: ContextModel, segments: Seq<Seq<char>>, facts: PathFactsModel)
    -> StepModel {
    let path = requested_path(ctx, segments);
    match resolution_of(ctx.canonical_root, Some(facts)) {
        ResolutionModel::File(found) => StepModel::Respond(
            file_response(
                path,
                requested_name(path),
                found.size,
                ctx.config.max_file_size,
                ctx.config.name_filter,
            ),
        ),
        ResolutionModel::Directory(found) => StepModel::ReadDirectory {
            path,
            segments,
            canonical: found.absolute_path,
        },
        _ => StepModel::Respond(forbidden()),
    }
}

/// The response to a request for a directory. Its containment is judged
/// again, on the canonical form that came back with the entries, and so is
/// whether it is the root. The links follow the path that was asked for.
pub open spec fn after_entries(
    ctx: ContextModel,
    segments: Seq<Seq<char>>,
    canonical: Seq<Seq<char>>,
    entries: Result<Seq<RawEntryModel>, Seq<char>>,
) -> ResponseModel {
    if !is_within(ctx.canonical_root, canonical) {
        forbidden()
    } else {
        match entries {
            Err(description) => io_error(description),
            Ok(raw) => listing(
                page_of(
                    requested_path(ctx, segments),
                    directory_listing(
                        named_segments(segments),
                        canonical != ctx.canonical_root,
                        raw,
                        ctx.config.name_filter,
                    ),
                ),
            ),
        }
    }
}

/// The step that follows an event.
pub open spec fn next_step(ctx: ContextModel, event: EventModel) -> StepModel {
    match event {
        EventModel::Request { segments } => StepModel::ProbeExistence {
            path: requested_path(ctx, segments),
            segments,
        },
        EventModel::Existence { segments, exists } => if exists {
            StepModel::ReadFacts { path: requested_path(ctx, segments), segments }
        } else {
            StepModel::Respond(not_found(requested_path(ctx, segments)))
        },
        EventModel::Facts { segments, facts } => after_facts(ctx, segments, facts),
        EventModel::Entries { segments, canonical, entries } => StepModel::Respond(
            after_entries(ctx, segments, canonical, entries),
        ),
    }
}

/// Takes a request one step further.
pub fn dispatch(ctx: &Context, event: Event) -> (step: Step)
    ensures
        step.deep_view() == next_step(ctx.deep_view(), event.deep_view()),
{
    match event {
        Event::Request { segments } => {
            let path = join_request_path(ctx.config.root_dir.as_str(), &segments);
            Step::ProbeExistence { path, segments }
        },
        Event::Existence { segments, exists } => {
            let path = join_request_path(ctx.config.root_dir.as_str(), &segments);
            if exists {
                Step::ReadFacts { path, segments }
            } else {
                Step::Respond(Response::not_found(path.as_str()))
            }
        },
        Event::Facts { segments, facts } => {
            let path = join_request_path(ctx.config.root_dir.as_str(), &segments);
            match resolve(&ctx.canonical_root, Some(facts)) {
                Resolution::File(found) => Step::Respond(
                    serve_file(path, &found, ctx.config.max_file_size, &ctx.config.name_filter),
                ),
                Resolution::Directory(found) => Step::ReadDirectory {
                    path,
                    segments,
                    canonical: found.absolute_path,
                },
                _ => Step::Respond(Response::forbidden()),
            }
        },
        Event::Entries { segments, canonical, entries } => {
            if !contained(&ctx.canonical_root, &canonical) {
                Step::Respond(Response::forbidden())
            } else {
                match entries {
                    Err(description) => Step::Respond(Response::io_error(description.as_str())),
                    Ok(raw) => {
                        let path = join_request_path(ctx.config.root_dir.as_str(), &segments);
                        let relative = requested_below(&segments);
                        let below_root = canonical.len() > ctx.canonical_root.len();
                        assert(below_root == (canonical.deep_view()
                            != ctx.canonical_root.deep_view())) by {
                            let all = canonical.deep_view();
                            assert(all.take(all.len() as int) =~= all);
                        }
                        let page = render_directory(
                            path.as_str(),
                            &relative,
                            below_root,
                            raw,
                            &ctx.config.name_filter,
                        );
                        Step::Respond(Response::listing(page))
                    },
                }
            }
        },
    }
}

/// Whether a step sends the bytes of a file or the listing of a directory.
pub open spec fn serves_content(step: StepModel) -> bool {
    step matches StepModel::Respond(response) && (response.outcome == Outcome::ServeFile
        || response.outcome == Outcome::RenderDirectory)
}

/// Every response has the one status, whatever its outcome: what went
/// wrong is told in the body alone.
pub proof fn lemma_status_never_varies(ctx: ContextModel, event: EventModel)
    ensures
        next_step(ctx, event) matches StepModel::Respond(response) ==> response.status == STATUS,
{
}

/// A path that does not exist is answered at once, with no further look
/// at the filesystem.
pub proof fn lemma_missing_path_is_not_found(ctx: ContextModel, segments: Seq<Seq<char>>)
    ensures
        next_step(ctx, EventModel::Existence { segments, exists: false }) == StepModel::Respond(
            not_found(requested_path(ctx, segments)),
        ),
{
}

/// Containment: where the canonical form of the requested path is unknown,
/// or is neither the root nor below it, the request is refused. No file is
/// streamed, and no directory is read or listed, whatever the segments
/// were and whatever links lie on the way.
pub proof fn lemma_outside_root_is_refused(
    ctx: ContextModel,
    segments: Seq<Seq<char>>,
    facts: PathFactsModel,
    entries: Result<Seq<RawEntryModel>, Seq<char>>,
)
    requires
        facts.canonical is None || !is_within(ctx.canonical_root, facts.canonical->0),
    ensures
        next_step(ctx, EventModel::Facts { segments, facts }) == StepModel::Respond(forbidden()),
        facts.canonical matches Some(canonical) ==> next_step(
            ctx,
            EventModel::Entries { segments, canonical, entries },
        ) == StepModel::Respond(forbidden()),
{
}

/// Containment, the other way round: a step that streams a file, reads a
/// directory or shows a listing is taken only for a canonical path that is
/// the root or lies below it.
pub proof fn lemma_served_is_within_root(ctx: ContextModel, event: EventModel)
    ensures
        match event {
            EventModel::Facts { segments, facts } => {
                let step = next_step(ctx, event);
                serves_content(step) || step is ReadDirectory ==> facts.canonical is Some
                    && is_within(ctx.canonical_root, facts.canonical->0)
            },
            EventModel::Entries { segments, canonical, entries } => serves_content(
                next_step(ctx, event),
            ) ==> is_within(ctx.canonical_root, canonical),
            _ => !serves_content(next_step(ctx, event)),
        },
{
}

/// The rule for files, whole: a regular file within the root is answered
/// with the fixed message for its size where that is over the limit; else
/// with the refusal where the filter does not let through the name that
/// was asked for; else its bytes are streamed from the requested path,
/// with the content type that this name gives, or none where none is
/// registered for it. The name of the canonical form plays no part.
pub proof fn lemma_file_goes_by_requested_name(
    ctx: ContextModel,
    segments: Seq<Seq<char>>,
    canonical: Seq<Seq<char>>,
    length: u64,
)
    requires
        is_within(ctx.canonical_root, canonical),
    ensures
        ({
            let path = requested_path(ctx, segments);
            let name = requested_name(path);
            let facts = PathFactsModel { canonical: Some(canonical), is_file: true, length };
            let step = next_step(ctx, EventModel::Facts { segments, facts });
            if exceeds(length, ctx.config.max_file_size) {
                step == StepModel::Respond(too_large())
            } else if !allowed(ctx.config.name_filter, name) {
                step == StepModel::Respond(forbidden())
            } else {
                step == StepModel::Respond(file(path, content_type_of(name)))
            }
        }),
{
}

/// The size guard: a file whose length is over the configured limit is
/// never streamed; within the root it is answered with the fixed message.
pub proof fn lemma_oversized_file_is_withheld(
    ctx: ContextModel,
    segments: Seq<Seq<char>>,
    facts: PathFactsModel,
)
    requires
        facts.is_file,
        exceeds(facts.length, ctx.config.max_file_size),
    ensures
        !serves_content(next_step(ctx, EventModel::Facts { segments, facts })),
        facts.canonical is Some && is_within(ctx.canonical_root, facts.canonical->0) ==> next_step(
            ctx,
            EventModel::Facts { segments, facts },
        ) == StepModel::Respond(too_large()),
{
}

/// The name filter on direct requests: a file is never streamed where the
/// filter does not let through the name that was asked for, the last one
/// of the requested path. Within the root, and within the size limit, the
/// answer is the refusal.
pub proof fn lemma_filtered_file_is_refused(
    ctx: ContextModel,
    segments: Seq<Seq<char>>,
    facts: PathFactsModel,
)
    requires
        facts.is_file,
        !allowed(ctx.config.name_filter, requested_name(requested_path(ctx, segments))),
    ensures
        !serves_content(next_step(ctx, EventModel::Facts { segments, facts })),
        facts.canonical is Some && is_within(ctx.canonical_root, facts.canonical->0) && !exceeds(
            facts.length,
            ctx.config.max_file_size,
        ) ==> next_step(ctx, EventModel::Facts { segments, facts }) == StepModel::Respond(
            forbidden(),
        ),
{
}

/// The parent marker: the listing of a directory within the root starts
/// with it exactly where the directory is not the root itself. The
/// directory above it is then the root or lies below it, and the marker's
/// link leads to the path above the requested one.
pub proof fn lemma_parent_marker_stays_within_root(
    ctx: ContextModel,
    segments: Seq<Seq<char>>,
    canonical: Seq<Seq<char>>,
    raw: Seq<RawEntryModel>,
)
    requires
        is_within(ctx.canonical_root, canonical),
    ensures
        ({
            let root = ctx.canonical_root;
            let listing = directory_listing(
                named_segments(segments),
                canonical != root,
                raw,
                ctx.config.name_filter,
            );
            &&& after_entries(ctx, segments, canonical, Ok(raw)).body
                == crate::response::BodyModel::Listing(
                page_of(requested_path(ctx, segments), listing),
            )
            &&& (listing.len() > 0 && listing[0].is_parent_marker) <==> canonical != root
            &&& canonical != root ==> {
                &&& is_within(root, canonical.drop_last())
                &&& listing[0].relative_url == url_path(above(named_segments(segments)))
            }
        }),
{
    lemma_parent_stays_within_root(ctx.canonical_root, canonical);
    lemma_parent_marker_placement(
        named_segments(segments),
        canonical != ctx.canonical_root,
        raw,
        ctx.config.name_filter,
    );
}

} // verus!
