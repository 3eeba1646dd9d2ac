use vstd::prelude::*;

verus! {

/// Milliseconds to wait between two requests to the API, so as not to be
/// rate limited.
pub const REQUEST_PAUSE_MS: u64 = 200;

/// How long to wait before a request: nothing before the first request of a
/// run, the pause between requests before any later one.
pub open spec fn pause_for(earlier_requests: bool) -> u64 {
    if earlier_requests { REQUEST_PAUSE_MS } else { 0 }
}

/// How long to wait before a request, given whether requests were made
/// before it.
pub fn pause_before(earlier_requests: bool) -> (r: u64)
    ensures
        r == pause_for(earlier_requests),
{
    if earlier_requests { REQUEST_PAUSE_MS } else { 0 }
}

/// What a paginated fetch asks for next.
#[derive(Debug, PartialEq, Eq, Structural)]
pub enum PageAction {
    /// Wait `pause_ms` milliseconds, then fetch page `page`.
    Fetch { page: u32, pause_ms: u64 },
    /// The listing is complete.
    Done,
}

/// The pagination block of a listing page.
pub struct Pagination {
    /// The address of the next page, when there is one.
    pub next: Option<String>,
}

/// One page of a paginated listing.
pub struct Paginated<T> {
    pub data: Vec<T>,
    pub pagination: Option<Pagination>,
}

/// The page announces a next page.
pub open spec fn has_next<T>(p: Paginated<T>) -> bool {
    match p.pagination {
        Some(pg) => pg.next is Some,
        None => false,
    }
}

/// Where a paginated fetch stands: the page to ask for next, what the pages
/// so far held, and whether the last page has been seen.
pub struct PaginatorView<T> {
    pub page: nat,
    pub items: Seq<T>,
    pub done: bool,
}

/// The start of a fetch: page 1, nothing collected.
pub open spec fn start_view<T>() -> PaginatorView<T> {
    PaginatorView { page: 1, items: Seq::empty(), done: false }
}

/// What one page does to the fetch: its items are appended, and the fetch
/// moves to the following page if the page announces one, else it ends.
pub open spec fn after_page<T>(s: PaginatorView<T>, p: Paginated<T>) -> PaginatorView<T> {
    PaginatorView {
        page: if has_next(p) { s.page + 1 } else { s.page },
        items: s.items + p.data@,
        done: !has_next(p),
    }
}

/// The fetch after a run of pages, from the start.
pub open spec fn after_pages<T>(pages: Seq<Paginated<T>>) -> PaginatorView<T>
    decreases pages.len(),
{
    if pages.len() == 0 {
        start_view()
    } else {
        after_page(after_pages(pages.drop_last()), pages.last())
    }
}

/// The items of a run of pages, in order.
pub open spec fn page_items<T>(pages: Seq<Paginated<T>>) -> Seq<Seq<T>> {
    pages.map_values(|p: Paginated<T>| p.data@)
}

/// Collects the items of a paginated listing: it names the page to fetch and
/// is told what each page held, until a page announces no next one.
pub struct Paginator<T> {
    page: u32,
    items: Vec<T>,
    done: bool,
}

impl<T> View for Paginator<T> {
    type V = PaginatorView<T>;

    closed spec fn view(&self) -> PaginatorView<T> {
        PaginatorView { page: self.page as nat, items: self.items@, done: self.done }
    }
}

impl<T> Paginator<T> {
    /// A fetch that starts at page 1.
    pub fn new() -> (r: Self)
        ensures
            r@ == start_view::<T>(),
    {
        let r = Paginator { page: 1, items: Vec::new(), done: false };
        assert(r@.items =~= Seq::<T>::empty());
        r
    }

    /// The page to fetch next.
    pub fn page(&self) -> (r: u32)
        ensures
            r == self@.page,
    {
        self.page
    }

    /// What to do next: fetch the next page, after the pause between
    /// requests unless it is the first page and no request came before the
    /// listing; or stop.
    pub fn next_action(&self, earlier_requests: bool) -> (r: PageAction)
        ensures
            self@.done ==> r == PageAction::Done,
            !self@.done ==> r == (PageAction::Fetch {
                page: self@.page as u32,
                pause_ms: pause_for(earlier_requests || self@.page > 1),
            }),
    {
        if self.done {
            PageAction::Done
        } else {
            let pause_ms = pause_before(earlier_requests || self.page > 1);
            PageAction::Fetch { page: self.page, pause_ms }
        }
    }

    /// Whether the last page has been seen.
    pub fn is_done(&self) -> (r: bool)
        ensures
            r == self@.done,
    {
        self.done
    }

    /// Takes in the page just fetched.
    pub fn record(&mut self, p: Paginated<T>)
        requires
            !old(self)@.done,
            has_next(p) ==> old(self)@.page < u32::MAX,
        ensures
            final(self)@ == after_page(old(self)@, p),
    {
        let ghost more = has_next(p);
        let Paginated { data: mut fetched, pagination } = p;
        self.items.append(&mut fetched);
        let next = match pagination {
            Some(pg) => pg.next.is_some(),
            None => false,
        };
        assert(next == more);
        if next {
            self.page = self.page + 1;
        } else {
            self.done = true;
        }
    }

    /// Everything the pages held, in order.
    pub fn into_items(self) -> (r: Vec<T>)
        ensures
            r@ == self@.items,
    {
        self.items
    }
}

/// A paginated fetch collects the items of its pages in the order of the
/// pages, asks for page `k + 1` after `k` pages, and stops exactly at the
/// first page that announces no next one.
pub proof fn lemma_pages_collect<T>(pages: Seq<Paginated<T>>)
    requires
        forall|i: int| 0 <= i < pages.len() - 1 ==> has_next(#[trigger] pages[i]),
    ensures
        after_pages(pages).items == page_items(pages).flatten(),
        after_pages(pages).page == if pages.len() > 0 && !has_next(pages.last()) {
            pages.len() as int
        } else {
            pages.len() + 1int
        },
        after_pages(pages).done == (pages.len() > 0 && !has_next(pages.last())),
    decreases pages.len(),
{
    if pages.len() > 0 {
        let front = pages.drop_last();
        assert forall|i: int| 0 <= i < front.len() - 1 implies has_next(#[trigger] front[i]) by {
            assert(front[i] == pages[i]);
        }
        lemma_pages_collect(front);
        assert(page_items(pages) =~= page_items(front).push(pages.last().data@));
        page_items(front).lemma_flatten_push(pages.last().data@);
        if front.len() > 0 {
            assert(has_next(front.last()));
        }
    } else {
        assert(page_items(pages) =~= Seq::<Seq<T>>::empty());
    }
}

} // verus!
