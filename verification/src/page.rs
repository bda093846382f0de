//! The pages of the site and what the boundary says when a page fails.

use vstd::prelude::*;
use vstd::string::StringExecFns;

verus! {

/// How the site runs.
#[derive(Clone, Copy, Debug, PartialEq, Eq, Structural)]
pub enum Mode {
    /// Development: templates are reloaded when they change, and errors are
    /// shown in detail.
    Live,
    /// Production: templates are loaded once, and errors are shown without
    /// detail.
    Frozen,
}

/// A page of the site.
#[derive(Clone, Copy, Debug, PartialEq, Eq, Structural)]
pub enum Page {
    Home,
    Messages,
    Timeline,
    Credits,
    /// The page for paths that match no other.
    NotFound,
}

/// The status of a page that rendered.
pub const STATUS_OK: u16 = 200;

/// The status of the page for unmatched paths.
pub const STATUS_NOT_FOUND: u16 = 404;

/// The status of the response to a request that failed.
pub const STATUS_INTERNAL_ERROR: u16 = 500;

/// Number of pages.
pub const PAGE_COUNT: usize = 5;

impl Page {
    /// The logical path at which the page is served.
    pub open spec fn path_of(self) -> Seq<char> {
        match self {
            Page::Home => "/"@,
            Page::Messages => "/messages"@,
            Page::Timeline => "/timeline"@,
            Page::Credits => "/credits"@,
            Page::NotFound => "/404"@,
        }
    }

    /// The logical path at which the page is served.
    pub fn path(self) -> (r: &'static str)
        ensures
            r@ == self.path_of(),
    {
        match self {
            Page::Home => "/",
            Page::Messages => "/messages",
            Page::Timeline => "/timeline",
            Page::Credits => "/credits",
            Page::NotFound => "/404",
        }
    }

    /// The name of the template that renders the page.
    pub open spec fn template_of(self) -> Seq<char> {
        match self {
            Page::Home => "home.html"@,
            Page::Messages => "messages.html"@,
            Page::Timeline => "timeline.html"@,
            Page::Credits => "credits.html"@,
            Page::NotFound => "404.html"@,
        }
    }

    /// The status that the page is served with.
    pub open spec fn status_of(self) -> u16 {
        match self {
            Page::NotFound => STATUS_NOT_FOUND,
            _ => STATUS_OK,
        }
    }

    /// The name of the template that renders the page.
    pub fn template_name(self) -> (r: &'static str)
        ensures
            r@ == self.template_of(),
    {
        match self {
            Page::Home => "home.html",
            Page::Messages => "messages.html",
            Page::Timeline => "timeline.html",
            Page::Credits => "credits.html",
            Page::NotFound => "404.html",
        }
    }

    /// The status that the page is served with.
    pub fn status(self) -> (r: u16)
        ensures
            r == self.status_of(),
    {
        match self {
            Page::NotFound => STATUS_NOT_FOUND,
            _ => STATUS_OK,
        }
    }
}

/// The page at position `index` in the order of the pages; the page for
/// unmatched paths is the last and stands for every position past the end.
pub open spec fn page_at(index: int) -> Page {
    if index == 0 {
        Page::Home
    } else if index == 1 {
        Page::Messages
    } else if index == 2 {
        Page::Timeline
    } else if index == 3 {
        Page::Credits
    } else {
        Page::NotFound
    }
}

/// The page at position `index` in the order of the pages.
pub fn page_of_index(index: usize) -> (r: Page)
    requires
        index < PAGE_COUNT,
    ensures
        r == page_at(index as int),
{
    if index == 0 {
        Page::Home
    } else if index == 1 {
        Page::Messages
    } else if index == 2 {
        Page::Timeline
    } else if index == 3 {
        Page::Credits
    } else {
        Page::NotFound
    }
}

/// What the response to a failed request says: in live mode the detail of
/// the failure after a fixed opening, in frozen mode the opening alone.
pub open spec fn error_text(mode: Mode, detail: Seq<char>) -> Seq<char> {
    match mode {
        Mode::Live => "Something went wrong: "@ + detail,
        Mode::Frozen => "Something went wrong"@,
    }
}

/// Writes the body of the response to a failed request.
pub fn error_body(mode: Mode, detail: &str) -> (r: String)
    ensures
        r@ == error_text(mode, detail@),
{
    match mode {
        Mode::Live => {
            let mut body = "Something went wrong: ".to_owned();
            body.append(detail);
            body
        },
        Mode::Frozen => "Something went wrong".to_owned(),
    }
}

/// The mode that two settings ask for. The first, if it is `dev` or `prod`,
/// decides. Otherwise the second does, if it is set: `0`, `false` and
/// `none` ask for frozen mode, anything else for live mode. With neither,
/// there is no mode.
pub open spec fn mode_for(deploy: Option<Seq<char>>, debug: Option<Seq<char>>) -> Option<Mode> {
    if deploy == Some("dev"@) {
        Some(Mode::Live)
    } else if deploy == Some("prod"@) {
        Some(Mode::Frozen)
    } else {
        match debug {
            Some(v) => if v == "0"@ || v == "false"@ || v == "none"@ {
                Some(Mode::Frozen)
            } else {
                Some(Mode::Live)
            },
            None => None,
        }
    }
}

/// The view of an optional string slice.
pub open spec fn text_of(value: Option<&str>) -> Option<Seq<char>> {
    match value {
        Some(v) => Some(v@),
        None => None,
    }
}

/// Chooses the mode from the deployment setting and the debug setting.
pub fn mode_from_settings(deploy: Option<&str>, debug: Option<&str>) -> (r: Option<Mode>)
    ensures
        r == mode_for(text_of(deploy), text_of(debug)),
{
    match deploy {
        Some(v) => {
            if v.eq("dev") {
                return Some(Mode::Live);
            }
            if v.eq("prod") {
                return Some(Mode::Frozen);
            }
        },
        None => {},
    }
    match debug {
        Some(v) => if v.eq("0") || v.eq("false") || v.eq("none") {
            Some(Mode::Frozen)
        } else {
            Some(Mode::Live)
        },
        None => None,
    }
}

} // verus!
