//! Collecting the ids of staked objects page by page.
use crate::ids::ObjectId;
use vstd::prelude::*;

verus! {

/// A page of object ids.
pub struct Page {
    pub data: Vec<ObjectId>,
    pub next_cursor: Option<String>,
    pub has_next_page: bool,
}

/// How the collection goes on after a page.
pub enum NextPage {
    /// Fetch the page after this cursor.
    Fetch { after_cursor: Option<String> },
    /// There are no more pages.
    Done,
}

/// The ids of the pages so far.
pub struct StakeIds {
    ids: Vec<ObjectId>,
}

impl View for StakeIds {
    type V = Seq<ObjectId>;

    closed spec fn view(&self) -> Seq<ObjectId> {
        self.ids@
    }
}

impl StakeIds {
    /// No ids yet; the first page is fetched without a cursor.
    pub fn new() -> (r: Self)
        ensures
            r@ == Seq::<ObjectId>::empty(),
    {
        StakeIds { ids: Vec::new() }
    }

    /// Adds the ids of a page behind those of the pages before.
    pub fn add_page(&mut self, page: Page) -> (r: NextPage)
        ensures
            final(self)@ == old(self)@ + page.data@,
            r == if page.has_next_page {
                NextPage::Fetch { after_cursor: page.next_cursor }
            } else {
                NextPage::Done
            },
    {
        let mut data = page.data;
        self.ids.append(&mut data);
        if !page.has_next_page {
            return NextPage::Done;
        }
        NextPage::Fetch { after_cursor: page.next_cursor }
    }

    /// The ids, in the order of the pages.
    pub fn into_ids(self) -> (r: Vec<ObjectId>)
        ensures
            r@ == self@,
    {
        self.ids
    }
}

} // verus!
