//! Page slicing over an ordered sequence of items.

use crate::error::Error;
use vstd::prelude::*;

verus! {

/// Number of items on one full page.
pub const PAGE_ITEMS: usize = 13;

/// Which part of a listing a caller asks for.
#[derive(Clone, Copy, Debug, PartialEq, Eq, Structural)]
pub enum PageRequest {
    /// The whole listing, unsliced.
    All,
    /// One page, counted from 1.
    Number(usize),
}

/// A page of items together with the size of the listing it was cut from.
#[derive(Clone, Debug, PartialEq, Eq)]
pub struct Page<T> {
    pub items: Vec<T>,
    pub count: usize,
}

/// Number of full pages in a listing of `count` items.
pub open spec fn full_pages(count: nat) -> nat {
    count / (PAGE_ITEMS as nat)
}

/// The items of page `page` (counted from 1): a full page when there is one
/// at that number, otherwise whatever is left behind the last full page.
pub open spec fn page_slice<T>(items: Seq<T>, page: nat) -> Seq<T>
    recommends
        page >= 1,
{
    let full = full_pages(items.len());
    if page <= full {
        items.subrange((page - 1) * PAGE_ITEMS, page * PAGE_ITEMS)
    } else {
        items.subrange(full * PAGE_ITEMS, items.len() as int)
    }
}

/// What a page request selects from a listing.
pub open spec fn requested_slice<T>(items: Seq<T>, page: PageRequest) -> Seq<T> {
    match page {
        PageRequest::All => items,
        PageRequest::Number(n) => page_slice(items, n as nat),
    }
}

/// Cuts page `page` out of `posts`. `count` is the length of `posts`.
pub fn slice_posts<T: Clone>(posts: Vec<T>, page: usize, count: usize) -> (result: Vec<T>)
    requires
        page >= 1,
        count == posts@.len(),
    ensures
        result@ == page_slice(posts@, page as nat),
        page <= count / PAGE_ITEMS ==> result@.len() == PAGE_ITEMS && result@ == posts@.subrange(
            (page - 1) * PAGE_ITEMS,
            page * PAGE_ITEMS,
        ),
        page > count / PAGE_ITEMS ==> result@ == posts@.subrange(
            (count / PAGE_ITEMS) * PAGE_ITEMS,
            count as int,
        ),
{
    let mut posts = posts;
    let collect_page_num: usize = count / PAGE_ITEMS;
    if page <= collect_page_num {
        let start: usize = (page - 1) * PAGE_ITEMS;
        let end: usize = page * PAGE_ITEMS;
        posts.truncate(end);
        let result = posts.split_off(start);
        result
    } else {
        posts.split_off(PAGE_ITEMS * collect_page_num)
    }
}

/// Cuts what `page` asks for out of `items` and reports it together with
/// the number of all items. The whole listing is returned as it is; page
/// numbers start at 1, so page 0 is refused.
pub fn paginate<T: Clone>(items: Vec<T>, page: PageRequest) -> (result: Result<Page<T>, Error>)
    ensures
        match result {
            Ok(cut) => {
                &&& page != PageRequest::Number(0)
                &&& cut.items@ == requested_slice(items@, page)
                &&& cut.count == items@.len()
            },
            Err(e) => page == PageRequest::Number(0) && e == Error::InvalidPage,
        },
{
    let count = items.len();
    match page {
        PageRequest::All => Ok(Page { items, count }),
        PageRequest::Number(number) => {
            if number == 0 {
                Err(Error::InvalidPage)
            } else {
                Ok(Page { items: slice_posts(items, number, count), count })
            }
        },
    }
}

/// A page at or below the number of full pages holds exactly the items of
/// its own stretch of the listing.
pub proof fn lemma_full_page<T>(items: Seq<T>, page: nat)
    requires
        1 <= page <= full_pages(items.len()),
    ensures
        page_slice(items, page).len() == PAGE_ITEMS,
        page_slice(items, page) == items.subrange((page - 1) * PAGE_ITEMS, page * PAGE_ITEMS),
{
}

/// Every page beyond the last full one holds the same: what is left behind
/// the full pages, however large the page number.
pub proof fn lemma_pages_beyond_agree<T>(items: Seq<T>, page: nat, other: nat)
    requires
        page > full_pages(items.len()),
        other > full_pages(items.len()),
    ensures
        page_slice(items, page) == page_slice(items, other),
        page_slice(items, page) == items.skip(full_pages(items.len()) * PAGE_ITEMS),
        page_slice(items, page).len() == items.len() % (PAGE_ITEMS as nat),
{
    assert(items.subrange(full_pages(items.len()) * PAGE_ITEMS, items.len() as int) =~= items.skip(
        full_pages(items.len()) * PAGE_ITEMS,
    ));
}

/// Asking for the whole listing gives the listing as it is.
pub proof fn lemma_all_is_unchanged<T>(items: Seq<T>)
    ensures
        requested_slice(items, PageRequest::All) == items,
{
}

} // verus!
