//! The static exporter: a linear state machine that turns the answers of its
//! driver (file system, console, handler stack) into the next thing to do.
//!
//! The driver performs each [`ExportAction`] and reports what happened as an
//! [`ExportEvent`]; [`export_step`] decides what follows. The machine never
//! touches the outside world itself, so every decision of an export run is
//! covered by [`export_transition`].

use vstd::prelude::*;
use vstd::string::StringExecFns;
use crate::page::{page_at, page_of_index, Page, PAGE_COUNT};
use crate::text::{chars_of, contains, contains_text, push_chars, trim_end, trim_end_len};

verus! {

/// Number of logical paths that an export crawls: one for each page.
pub const ROUTE_COUNT: usize = PAGE_COUNT;

/// The logical path crawled at position `i`: that of the page at that
/// position, the page for unmatched paths last.
pub open spec fn route_at(i: int) -> Seq<char> {
    page_at(i).path_of()
}

/// The logical path crawled at position `i`.
pub fn export_route(i: usize) -> (r: &'static str)
    requires
        i < ROUTE_COUNT,
    ensures
        r@ == route_at(i as int),
{
    page_of_index(i).path()
}

/// A logical path starts at the root.
pub open spec fn is_logical_path(path: Seq<char>) -> bool {
    path.len() > 0 && path[0] == '/'
}

/// Tests whether `path` is a logical path.
pub fn is_logical(path: &str) -> (r: bool)
    ensures
        r == is_logical_path(path@),
{
    let chars = chars_of(path);
    chars.len() > 0 && chars[0] == '/'
}

/// Every crawled route is a logical path.
pub proof fn lemma_routes_are_logical(i: int)
    ensures
        is_logical_path(route_at(i)),
{
    reveal_strlit("/");
    reveal_strlit("/messages");
    reveal_strlit("/timeline");
    reveal_strlit("/credits");
    reveal_strlit("/404");
}

/// The file, relative to the output directory, that holds the page served
/// at `path`: `index.html` for the root, and for `/<p>` the file `<p>.html`.
pub open spec fn output_file(path: Seq<char>) -> Seq<char> {
    if path == "/"@ {
        "index.html"@
    } else {
        path.skip(1) + ".html"@
    }
}

/// Maps a logical path to the file that holds its page.
pub fn output_file_for(path: &str) -> (file: String)
    requires
        is_logical_path(path@),
    ensures
        file@ == output_file(path@),
{
    if path.eq("/") {
        "index.html".to_owned()
    } else {
        let chars = chars_of(path);
        let mut file = String::new();
        push_chars(&mut file, &chars, 1);
        file.append(".html");
        proof {
            assert(Seq::<char>::empty() + path@.skip(1) =~= path@.skip(1));
        }
        file
    }
}

/// What a line typed at the overwrite prompt means, once its trailing white
/// space is removed: `Y` or `y` agree to delete the directory, `N` or `n`
/// decline, anything else is no answer.
pub open spec fn overwrite_answer(line: Seq<char>) -> Option<bool> {
    let t = trim_end(line);
    if t == seq!['Y'] || t == seq!['y'] {
        Some(true)
    } else if t == seq!['N'] || t == seq!['n'] {
        Some(false)
    } else {
        None
    }
}

/// Reads the operator's answer to the overwrite prompt.
pub fn parse_overwrite_answer(line: &str) -> (r: Option<bool>)
    ensures
        r == overwrite_answer(line@),
{
    let chars = chars_of(line);
    let k = trim_end_len(&chars);
    proof {
        assert(seq!['Y'].len() == 1 && seq!['Y'][0] == 'Y');
        assert(seq!['y'].len() == 1 && seq!['y'][0] == 'y');
        assert(seq!['N'].len() == 1 && seq!['N'][0] == 'N');
        assert(seq!['n'].len() == 1 && seq!['n'][0] == 'n');
    }
    if k != 1 {
        return None;
    }
    let c = chars[0];
    proof {
        assert(chars@.take(1) =~= seq![c]);
    }
    if c == 'Y' || c == 'y' {
        Some(true)
    } else if c == 'N' || c == 'n' {
        Some(false)
    } else {
        None
    }
}

/// A content type names an HTML media type when it mentions `text/html`.
pub open spec fn is_html(content_type: Seq<char>) -> bool {
    contains_text(content_type, "text/html"@)
}

/// Tests whether a content type names an HTML media type.
pub fn is_html_content_type(content_type: &str) -> (r: bool)
    ensures
        r == is_html(content_type@),
{
    let hay = chars_of(content_type);
    let needle = chars_of("text/html");
    contains(&hay, &needle)
}

/// The `Content-Type` header of a response, as far as the exporter reads it.
#[derive(Clone, Debug, PartialEq, Eq)]
pub enum ContentType {
    /// The response has no such header.
    Missing,
    /// The header is there but is not visible text.
    Opaque,
    /// The header's text.
    Text(String),
}

/// Why an export stopped.
#[derive(Clone, Debug, PartialEq, Eq)]
pub enum ExportError {
    /// Could not find out whether the output directory exists.
    CheckTarget,
    /// Could not read the operator's answer.
    ReadAnswer,
    /// Could not delete the output directory.
    CleanTarget,
    /// Could not create the output directory.
    CreateTarget,
    /// Could not copy the static assets.
    CopyAssets,
    /// The handler stack gave no response, or its body could not be read.
    Fetch { route: usize },
    /// The response carries no content type.
    MissingContentType { route: usize },
    /// The response's content type is not text.
    OpaqueContentType { route: usize },
    /// The response is not an HTML page.
    UnexpectedContentType { route: usize, content_type: String },
    /// The page's file, or the directory for it, could not be written.
    WriteFile { route: usize },
    /// The driver reported something that the machine was not waiting for.
    Protocol,
}

impl ExportError {
    /// What the error says: what could not be done, and for which path or
    /// file.
    pub open spec fn description(self) -> Seq<char> {
        match self {
            ExportError::CheckTarget => "Could not verify if output dir exists"@,
            ExportError::ReadAnswer => "Could not read input for overwrite confirmation"@,
            ExportError::CleanTarget => "Could not clean output directory"@,
            ExportError::CreateTarget => "Could not create output directory"@,
            ExportError::CopyAssets => "Could not copy static assets directory"@,
            ExportError::Fetch { route } => "Could not get response for "@ + route_at(route as int),
            ExportError::MissingContentType { route } => "No Content-Type for response "@
                + route_at(route as int),
            ExportError::OpaqueContentType { route } => "Content-Type for "@ + route_at(
                route as int,
            ) + " is not valid text"@,
            ExportError::UnexpectedContentType { route, content_type } => "Unexpected Content-Type "@
                + content_type@ + " for response "@ + route_at(route as int),
            ExportError::WriteFile { route } => "Could not write output file "@ + output_file(
                route_at(route as int),
            ),
            ExportError::Protocol => "Export steps out of order"@,
        }
    }

    /// Writes what the error says.
    pub fn describe(&self) -> (r: String)
        ensures
            r@ == self.description(),
    {
        match self {
            ExportError::CheckTarget => "Could not verify if output dir exists".to_owned(),
            ExportError::ReadAnswer => "Could not read input for overwrite confirmation".to_owned(),
            ExportError::CleanTarget => "Could not clean output directory".to_owned(),
            ExportError::CreateTarget => "Could not create output directory".to_owned(),
            ExportError::CopyAssets => "Could not copy static assets directory".to_owned(),
            ExportError::Fetch { route } => {
                let mut text = "Could not get response for ".to_owned();
                text.append(route_label(*route));
                text
            },
            ExportError::MissingContentType { route } => {
                let mut text = "No Content-Type for response ".to_owned();
                text.append(route_label(*route));
                text
            },
            ExportError::OpaqueContentType { route } => {
                let mut text = "Content-Type for ".to_owned();
                text.append(route_label(*route));
                text.append(" is not valid text");
                text
            },
            ExportError::UnexpectedContentType { route, content_type } => {
                let mut text = "Unexpected Content-Type ".to_owned();
                text.append(content_type.as_str());
                text.append(" for response ");
                text.append(route_label(*route));
                text
            },
            ExportError::WriteFile { route } => {
                let mut text = "Could not write output file ".to_owned();
                proof {
                    lemma_routes_are_logical(*route as int);
                }
                let file = output_file_for(route_label(*route));
                text.append(file.as_str());
                text
            },
            ExportError::Protocol => "Export steps out of order".to_owned(),
        }
    }
}

/// The path at position `route`, or the last path for a position past the
/// end.
fn route_label(route: usize) -> (r: &'static str)
    ensures
        r@ == route_at(route as int),
{
    if route < ROUTE_COUNT {
        export_route(route)
    } else {
        Page::NotFound.path()
    }
}

/// Where an export stands.
#[derive(Clone, Copy, Debug, PartialEq, Eq, Structural)]
pub enum ExportState {
    /// Nothing has happened yet.
    Start,
    /// Waiting to learn whether the output directory exists.
    CheckingTarget,
    /// Waiting for the operator's answer to the overwrite prompt.
    Confirming,
    /// Waiting for the output directory to be deleted.
    Cleaning,
    /// Waiting for the output directory to be created.
    Creating,
    /// Waiting for the static assets to be copied.
    Copying,
    /// Waiting for the response to the route at this position.
    Fetching { route: usize },
    /// Waiting for the page of the route at this position to be written.
    Writing { route: usize },
    /// Every page has been written.
    Done,
    /// The export was aborted.
    Failed,
}

/// What the driver reports back.
#[derive(Clone, Debug, PartialEq, Eq)]
pub enum ExportEvent {
    /// The export is asked to start.
    Begin,
    /// Whether the output directory exists.
    TargetExists(bool),
    /// A line read from the operator.
    Answer(String),
    /// The last action succeeded.
    Completed,
    /// The handler stack's response to the last fetch.
    Response { content_type: ContentType, body: Vec<u8> },
    /// The last action failed.
    Failure,
}

/// What the driver has to do next.
#[derive(Clone, Debug, PartialEq, Eq)]
pub enum ExportAction {
    /// Find out whether the output directory exists.
    CheckTarget,
    /// Ask the operator whether to overwrite, and read one line.
    AskOverwrite,
    /// Delete the output directory and everything in it.
    CleanTarget,
    /// Create the output directory; it may exist already.
    CreateTarget,
    /// Copy the static assets into the output directory.
    CopyAssets,
    /// Dispatch a request for the route at this position.
    Fetch { route: usize },
    /// Write `body` to `file` below the output directory, creating the
    /// directories on the way.
    Write { route: usize, file: String, body: Vec<u8> },
    /// Nothing is left to do.
    Finish,
    /// Stop and report the error.
    Abort(ExportError),
}

/// The error for a failure reported while the machine is in `state`.
pub open spec fn failure_in(state: ExportState) -> ExportError {
    match state {
        ExportState::CheckingTarget => ExportError::CheckTarget,
        ExportState::Confirming => ExportError::ReadAnswer,
        ExportState::Cleaning => ExportError::CleanTarget,
        ExportState::Creating => ExportError::CreateTarget,
        ExportState::Copying => ExportError::CopyAssets,
        ExportState::Fetching { route } => ExportError::Fetch { route },
        ExportState::Writing { route } => ExportError::WriteFile { route },
        _ => ExportError::Protocol,
    }
}

/// The verdict on a response to the route at position `route`: `None` when
/// its content type is an HTML media type, else the error that names the
/// route.
pub open spec fn response_fault(route: usize, content_type: ContentType) -> Option<ExportError> {
    match content_type {
        ContentType::Missing => Some(ExportError::MissingContentType { route }),
        ContentType::Opaque => Some(ExportError::OpaqueContentType { route }),
        ContentType::Text(text) => if is_html(text@) {
            None
        } else {
            Some(ExportError::UnexpectedContentType { route, content_type: text })
        },
    }
}

/// The crawl goes on at position `route`: the machine fetches the route at
/// that position, or is done where no route is left.
pub open spec fn crawl_from(route: int, next: ExportState, action: ExportAction) -> bool {
    if route < ROUTE_COUNT {
        &&& next == (ExportState::Fetching { route: route as usize })
        &&& action == (ExportAction::Fetch { route: route as usize })
    } else {
        &&& next == ExportState::Done
        &&& action == ExportAction::Finish
    }
}

/// The export's transition relation: in `state`, on `event`, the machine
/// moves to `next` and asks for `action`.
///
/// The run is linear: check the output directory; if it exists, ask until
/// the operator answers, and delete it only on a yes; create it; copy the
/// assets; then for each route in turn fetch the page, accept it only as
/// HTML, and write its body unchanged to the file that the path maps to.
/// A failure, a response that is not HTML or an event out of turn aborts
/// the run, and a finished or aborted run stays as it is.
pub open spec fn export_transition(
    state: ExportState,
    event: ExportEvent,
    next: ExportState,
    action: ExportAction,
) -> bool {
    match (state, event) {
        (ExportState::Done, _) => next == ExportState::Done && action == ExportAction::Finish,
        (ExportState::Failed, _) => next == ExportState::Failed && action == ExportAction::Abort(
            ExportError::Protocol,
        ),
        (ExportState::Start, ExportEvent::Begin) => next == ExportState::CheckingTarget && action
            == ExportAction::CheckTarget,
        (ExportState::CheckingTarget, ExportEvent::TargetExists(exists)) => if exists {
            next == ExportState::Confirming && action == ExportAction::AskOverwrite
        } else {
            next == ExportState::Creating && action == ExportAction::CreateTarget
        },
        (ExportState::Confirming, ExportEvent::Answer(line)) => match overwrite_answer(line@) {
            Some(true) => next == ExportState::Cleaning && action == ExportAction::CleanTarget,
            Some(false) => next == ExportState::Creating && action == ExportAction::CreateTarget,
            None => next == ExportState::Confirming && action == ExportAction::AskOverwrite,
        },
        (ExportState::Cleaning, ExportEvent::Completed) => next == ExportState::Creating && action
            == ExportAction::CreateTarget,
        (ExportState::Creating, ExportEvent::Completed) => next == ExportState::Copying && action
            == ExportAction::CopyAssets,
        (ExportState::Copying, ExportEvent::Completed) => crawl_from(0, next, action),
        (ExportState::Fetching { route }, ExportEvent::Response { content_type, body }) => if route
            >= ROUTE_COUNT {
            next == ExportState::Failed && action == ExportAction::Abort(ExportError::Protocol)
        } else {
            match response_fault(route, content_type) {
                Some(fault) => next == ExportState::Failed && action == ExportAction::Abort(fault),
                None => {
                    &&& next == (ExportState::Writing { route })
                    &&& action matches ExportAction::Write { route: r, file, body: b }
                    &&& r == route
                    &&& file@ == output_file(route_at(route as int))
                    &&& b == body
                },
            }
        },
        (ExportState::Writing { route }, ExportEvent::Completed) => if route >= ROUTE_COUNT {
            next == ExportState::Failed && action == ExportAction::Abort(ExportError::Protocol)
        } else {
            crawl_from(route + 1, next, action)
        },
        (_, ExportEvent::Failure) => next == ExportState::Failed && action == ExportAction::Abort(
            failure_in(state),
        ),
        _ => next == ExportState::Failed && action == ExportAction::Abort(ExportError::Protocol),
    }
}

/// Judges a response: `Ok` when its content type is an HTML media type,
/// else the error that names the route.
pub fn check_content_type(route: usize, content_type: ContentType) -> (r: Result<(), ExportError>)
    ensures
        match response_fault(route, content_type) {
            Some(fault) => r == Err::<(), ExportError>(fault),
            None => r is Ok,
        },
{
    match content_type {
        ContentType::Missing => Err(ExportError::MissingContentType { route }),
        ContentType::Opaque => Err(ExportError::OpaqueContentType { route }),
        ContentType::Text(text) => {
            if is_html_content_type(text.as_str()) {
                Ok(())
            } else {
                Err(ExportError::UnexpectedContentType { route, content_type: text })
            }
        },
    }
}

fn abort(error: ExportError) -> (r: (ExportState, ExportAction))
    ensures
        r.0 == ExportState::Failed,
        r.1 == ExportAction::Abort(error),
{
    (ExportState::Failed, ExportAction::Abort(error))
}

fn crawl(route: usize) -> (r: (ExportState, ExportAction))
    ensures
        crawl_from(route as int, r.0, r.1),
{
    if route < ROUTE_COUNT {
        (ExportState::Fetching { route }, ExportAction::Fetch { route })
    } else {
        (ExportState::Done, ExportAction::Finish)
    }
}

fn failure(state: ExportState) -> (r: ExportError)
    ensures
        r == failure_in(state),
{
    match state {
        ExportState::CheckingTarget => ExportError::CheckTarget,
        ExportState::Confirming => ExportError::ReadAnswer,
        ExportState::Cleaning => ExportError::CleanTarget,
        ExportState::Creating => ExportError::CreateTarget,
        ExportState::Copying => ExportError::CopyAssets,
        ExportState::Fetching { route } => ExportError::Fetch { route },
        ExportState::Writing { route } => ExportError::WriteFile { route },
        _ => ExportError::Protocol,
    }
}

/// One step of the export: what to do next, given where the export stands
/// and what the driver reports.
pub fn export_step(state: ExportState, event: ExportEvent) -> (r: (ExportState, ExportAction))
    ensures
        export_transition(state, event, r.0, r.1),
{
    match state {
        ExportState::Done => (ExportState::Done, ExportAction::Finish),
        ExportState::Failed => abort(ExportError::Protocol),
        _ => match event {
            ExportEvent::Failure => abort(failure(state)),
            ExportEvent::Begin => match state {
                ExportState::Start => (ExportState::CheckingTarget, ExportAction::CheckTarget),
                _ => abort(ExportError::Protocol),
            },
            ExportEvent::TargetExists(exists) => match state {
                ExportState::CheckingTarget => if exists {
                    (ExportState::Confirming, ExportAction::AskOverwrite)
                } else {
                    (ExportState::Creating, ExportAction::CreateTarget)
                },
                _ => abort(ExportError::Protocol),
            },
            ExportEvent::Answer(line) => match state {
                ExportState::Confirming => match parse_overwrite_answer(line.as_str()) {
                    Some(true) => (ExportState::Cleaning, ExportAction::CleanTarget),
                    Some(false) => (ExportState::Creating, ExportAction::CreateTarget),
                    None => (ExportState::Confirming, ExportAction::AskOverwrite),
                },
                _ => abort(ExportError::Protocol),
            },
            ExportEvent::Completed => match state {
                ExportState::Cleaning => (ExportState::Creating, ExportAction::CreateTarget),
                ExportState::Creating => (ExportState::Copying, ExportAction::CopyAssets),
                ExportState::Copying => crawl(0),
                ExportState::Writing { route } => if route >= ROUTE_COUNT {
                    abort(ExportError::Protocol)
                } else {
                    crawl(route + 1)
                },
                _ => abort(ExportError::Protocol),
            },
            ExportEvent::Response { content_type, body } => match state {
                ExportState::Fetching { route } => if route >= ROUTE_COUNT {
                    abort(ExportError::Protocol)
                } else {
                    match check_content_type(route, content_type) {
                        Err(fault) => abort(fault),
                        Ok(()) => {
                            proof {
                                lemma_routes_are_logical(route as int);
                            }
                            let file = output_file_for(export_route(route));
                            (ExportState::Writing { route }, ExportAction::Write { route, file, body })
                        },
                    }
                },
                _ => abort(ExportError::Protocol),
            },
        },
    }
}

/// The output directory is deleted only after the operator has agreed to it:
/// whenever a step asks to clean the target, the machine was waiting for an
/// answer and the line it got reads as a yes.
pub proof fn lemma_clean_needs_consent(
    state: ExportState,
    event: ExportEvent,
    next: ExportState,
    action: ExportAction,
)
    requires
        export_transition(state, event, next, action),
        action is CleanTarget,
    ensures
        state == ExportState::Confirming,
        event matches ExportEvent::Answer(line) && overwrite_answer(line@) == Some(true),
{
}

/// A line that reads as a no leaves the directory alone: the machine goes
/// straight on to creating the target.
pub proof fn lemma_decline_keeps_target(line: String, next: ExportState, action: ExportAction)
    requires
        overwrite_answer(line@) == Some(false),
        export_transition(ExportState::Confirming, ExportEvent::Answer(line), next, action),
    ensures
        next == ExportState::Creating,
        action == ExportAction::CreateTarget,
{
}

/// Nothing but an HTML page is ever written, and it is written as it came:
/// whenever a step asks to write a file, the machine was waiting for the
/// response to a route, the response's content type names an HTML media
/// type, the file is the one that the route's path maps to, and the bytes
/// are the response's body.
pub proof fn lemma_write_is_faithful(
    state: ExportState,
    event: ExportEvent,
    next: ExportState,
    action: ExportAction,
)
    requires
        export_transition(state, event, next, action),
        action is Write,
    ensures
        state matches ExportState::Fetching { route } && route < ROUTE_COUNT && ({
            &&& event matches ExportEvent::Response { content_type, body }
            &&& content_type matches ContentType::Text(text)
            &&& is_html(text@)
            &&& action matches ExportAction::Write { route: r, file, body: b }
            &&& r == route
            &&& file@ == output_file(route_at(route as int))
            &&& b == body
            &&& next == (ExportState::Writing { route })
        }),
{
}

/// A finished or aborted export stays finished or aborted, whatever the
/// driver reports.
pub proof fn lemma_terminal_states_absorb(
    state: ExportState,
    event: ExportEvent,
    next: ExportState,
    action: ExportAction,
)
    requires
        export_transition(state, event, next, action),
        state == ExportState::Done || state == ExportState::Failed,
    ensures
        next == state,
{
}

/// Routes are crawled in order and none is skipped: a fetch is asked for
/// route 0 once the assets are copied, and for the route after the one
/// whose page was just written.
pub proof fn lemma_fetch_in_order(
    state: ExportState,
    event: ExportEvent,
    next: ExportState,
    action: ExportAction,
)
    requires
        export_transition(state, event, next, action),
        action is Fetch,
    ensures
        event == ExportEvent::Completed,
        action matches ExportAction::Fetch { route } && route < ROUTE_COUNT && next == (
        ExportState::Fetching { route }) && (if route == 0 {
            state == ExportState::Copying
        } else {
            state == (ExportState::Writing { route: (route - 1) as usize })
        }),
{
}

} // verus!
