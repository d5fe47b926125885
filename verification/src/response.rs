//! Responses: what a request is answered with.

use vstd::prelude::*;
use crate::constants::{FORBIDDEN, HTML, STATUS, TOO_LARGE};
use crate::listing::{Page, PageModel};

verus! {

/// How a request ended.
#[derive(Clone, Copy, Debug, PartialEq, Eq)]
pub enum Outcome {
    NotFound,
    Forbidden,
    TooLarge,
    IoError,
    ServeFile,
    RenderDirectory,
}

/// The body of a response.
#[derive(Clone, Debug, PartialEq, Eq)]
pub enum Body {
    /// A message, sent as it stands.
    Text(String),
    /// The bytes of the file at this path, to be streamed.
    File(String),
    /// A listing, to be rendered with the template.
    Listing(Page),
}

/// The model of [`Body`] that contracts speak of: texts are sequences of
/// characters, vectors are sequences.
pub enum BodyModel {
    Text(Seq<char>),
    File(Seq<char>),
    Listing(PageModel),
}

impl DeepView for Body {
    type V = BodyModel;

    open spec fn deep_view(&self) -> BodyModel {
        match self {
            Body::Text(text) => BodyModel::Text(text@),
            Body::File(path) => BodyModel::File(path@),
            Body::Listing(page) => BodyModel::Listing(page.deep_view()),
        }
    }
}

/// A response. Its status is the same for every outcome; what went wrong
/// is told in the body.
#[derive(Clone, Debug, PartialEq, Eq)]
pub struct Response {
    pub outcome: Outcome,
    pub status: u16,
    pub content_type: Option<String>,
    pub body: Body,
}

/// The model of [`Response`] that contracts speak of: texts are sequences of
/// characters, vectors are sequences.
pub struct ResponseModel {
    pub outcome: Outcome,
    pub status: u16,
    pub content_type: Option<Seq<char>>,
    pub body: BodyModel,
}

impl DeepView for Response {
    type V = ResponseModel;

    open spec fn deep_view(&self) -> ResponseModel {
        ResponseModel {
            outcome: self.outcome,
            status: self.status,
            content_type: self.content_type.deep_view(),
            body: self.body.deep_view(),
        }
    }
}

/// A message in HTML.
pub open spec fn message(outcome: Outcome, text: Seq<char>) -> ResponseModel {
    ResponseModel { outcome, status: STATUS, content_type: Some(HTML@), body: BodyModel::Text(text) }
}

/// The answer to a request for a path at which nothing exists.
pub open spec fn not_found(path: Seq<char>) -> ResponseModel {
    message(Outcome::NotFound, "Error, `"@ + path + "` does not exist."@)
}

/// The answer to a request that is refused.
pub open spec fn forbidden() -> ResponseModel {
    message(Outcome::Forbidden, FORBIDDEN@)
}

/// The answer to a request for a file over the size limit.
pub open spec fn too_large() -> ResponseModel {
    message(Outcome::TooLarge, TOO_LARGE@)
}

/// The answer to a request that failed on the filesystem.
pub open spec fn io_error(description: Seq<char>) -> ResponseModel {
    message(Outcome::IoError, "Error: "@ + description)
}

/// The answer that streams the file at `path`.
pub open spec fn file(path: Seq<char>, content_type: Option<Seq<char>>) -> ResponseModel {
    ResponseModel {
        outcome: Outcome::ServeFile,
        status: STATUS,
        content_type,
        body: BodyModel::File(path),
    }
}

/// The answer that shows a listing.
pub open spec fn listing(page: PageModel) -> ResponseModel {
    ResponseModel {
        outcome: Outcome::RenderDirectory,
        status: STATUS,
        content_type: Some(HTML@),
        body: BodyModel::Listing(page),
    }
}

impl Response {
    fn message(outcome: Outcome, text: String) -> (response: Response)
        ensures
            response.deep_view() == message(outcome, text@),
    {
        Response {
            outcome,
            status: STATUS,
            content_type: Some(String::from_str(HTML)),
            body: Body::Text(text),
        }
    }

    /// The answer to a request for a path at which nothing exists.
    pub fn not_found(path: &str) -> (response: Response)
        ensures
            response.deep_view() == not_found(path@),
    {
        let mut text = String::from_str("Error, `");
        text.append(path);
        text.append("` does not exist.");
        Response::message(Outcome::NotFound, text)
    }

    /// The answer to a request that is refused.
    pub fn forbidden() -> (response: Response)
        ensures
            response.deep_view() == forbidden(),
    {
        Response::message(Outcome::Forbidden, String::from_str(FORBIDDEN))
    }

    /// The answer to a request for a file over the size limit.
    pub fn too_large() -> (response: Response)
        ensures
            response.deep_view() == too_large(),
    {
        Response::message(Outcome::TooLarge, String::from_str(TOO_LARGE))
    }

    /// The answer to a request that failed on the filesystem.
    pub fn io_error(description: &str) -> (response: Response)
        ensures
            response.deep_view() == io_error(description@),
    {
        let mut text = String::from_str("Error: ");
        text.append(description);
        Response::message(Outcome::IoError, text)
    }

    /// The answer that streams the file at `path`.
    pub fn file(path: String, content_type: Option<String>) -> (response: Response)
        ensures
            response.deep_view() == file(path@, content_type.deep_view()),
    {
        Response { outcome: Outcome::ServeFile, status: STATUS, content_type, body: Body::File(path) }
    }

    /// The answer that shows a listing.
    pub fn listing(page: Page) -> (response: Response)
        ensures
            response.deep_view() == listing(page.deep_view()),
    {
        Response {
            outcome: Outcome::RenderDirectory,
            status: STATUS,
            content_type: Some(String::from_str(HTML)),
            body: Body::Listing(page),
        }
    }
}

} // verus!
