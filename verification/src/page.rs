//! The named views of the collection and their notebook positions. The
//! mapping is an explicit table in both directions, proved to be a bijection,
//! rather than a numeric reinterpretation of the enum.

use vstd::prelude::*;

verus! {

#[derive(Clone, Copy, Debug, PartialEq, Eq, Structural)]
pub enum Page {
    Inbox,
    Projects,
    Contexts,
    Tags,
    Agenda,
    Flag,
    Done,
    Search,
}

pub open spec fn spec_page_index(p: Page) -> u32 {
    match p {
        Page::Inbox => 0,
        Page::Projects => 1,
        Page::Contexts => 2,
        Page::Tags => 3,
        Page::Agenda => 4,
        Page::Flag => 5,
        Page::Done => 6,
        Page::Search => 7,
    }
}

pub open spec fn spec_page_of_index(n: u32) -> Page {
    if n == 0 {
        Page::Inbox
    } else if n == 1 {
        Page::Projects
    } else if n == 2 {
        Page::Contexts
    } else if n == 3 {
        Page::Tags
    } else if n == 4 {
        Page::Agenda
    } else if n == 5 {
        Page::Flag
    } else if n == 6 {
        Page::Done
    } else {
        Page::Search
    }
}

impl Page {
    /// The page's notebook position.
    pub fn index(self) -> (n: u32)
        ensures
            n == spec_page_index(self),
            n < 8,
    {
        match self {
            Page::Inbox => 0,
            Page::Projects => 1,
            Page::Contexts => 2,
            Page::Tags => 3,
            Page::Agenda => 4,
            Page::Flag => 5,
            Page::Done => 6,
            Page::Search => 7,
        }
    }

    /// The page at a notebook position. Positions past the last page do not
    /// name a page.
    pub fn of_index(n: u32) -> (p: Page)
        requires
            n < 8,
        ensures
            p == spec_page_of_index(n),
    {
        if n == 0 {
            Page::Inbox
        } else if n == 1 {
            Page::Projects
        } else if n == 2 {
            Page::Contexts
        } else if n == 3 {
            Page::Tags
        } else if n == 4 {
            Page::Agenda
        } else if n == 5 {
            Page::Flag
        } else if n == 6 {
            Page::Done
        } else {
            Page::Search
        }
    }

    /// The page's icon and label name.
    pub fn title(self) -> (r: &'static str)
        ensures
            r@ == spec_page_title(self),
    {
        let r = match self {
            Page::Inbox => "inbox",
            Page::Projects => "projects",
            Page::Contexts => "contexts",
            Page::Tags => "tags",
            Page::Agenda => "agenda",
            Page::Flag => "flag",
            Page::Done => "done",
            Page::Search => "search",
        };
        proof {
            reveal_strlit("inbox");
            reveal_strlit("projects");
            reveal_strlit("contexts");
            reveal_strlit("tags");
            reveal_strlit("agenda");
            reveal_strlit("flag");
            reveal_strlit("done");
            reveal_strlit("search");
        }
        r
    }
}

pub open spec fn spec_page_title(p: Page) -> Seq<char> {
    match p {
        Page::Inbox => seq!['i', 'n', 'b', 'o', 'x'],
        Page::Projects => seq!['p', 'r', 'o', 'j', 'e', 'c', 't', 's'],
        Page::Contexts => seq!['c', 'o', 'n', 't', 'e', 'x', 't', 's'],
        Page::Tags => seq!['t', 'a', 'g', 's'],
        Page::Agenda => seq!['a', 'g', 'e', 'n', 'd', 'a'],
        Page::Flag => seq!['f', 'l', 'a', 'g'],
        Page::Done => seq!['d', 'o', 'n', 'e'],
        Page::Search => seq!['s', 'e', 'a', 'r', 'c', 'h'],
    }
}

/// The two table directions invert each other.
pub proof fn lemma_page_index_roundtrip(p: Page, n: u32)
    requires
        n < 8,
    ensures
        spec_page_of_index(spec_page_index(p)) == p,
        spec_page_index(spec_page_of_index(n)) == n,
{
}

/// An empty search query leaves the search view and shows the default view;
/// a non-empty one shows the search view.
pub fn search_page(query: &str) -> (r: (bool, Page))
    ensures
        r.0 == (query@.len() != 0),
        r.1 == (if query@.len() == 0 {
            Page::Inbox
        } else {
            Page::Search
        }),
{
    if query.is_empty() {
        (false, Page::Inbox)
    } else {
        (true, Page::Search)
    }
}

} // verus!
