use blog_listing::error::Error;
use blog_listing::pagination::{paginate, slice_posts, PageRequest, PAGE_ITEMS};

fn numbers(n: u32) -> Vec<u32> {
    (0..n).collect()
}

#[test]
fn page_size_is_thirteen() {
    assert_eq!(PAGE_ITEMS, 13);
}

#[test]
fn first_full_page_holds_the_first_thirteen() {
    let page = slice_posts(numbers(30), 1, 30);
    assert_eq!(page, (0..13).collect::<Vec<u32>>());
    assert_eq!(page.len(), PAGE_ITEMS);
}

#[test]
fn second_full_page_holds_the_next_thirteen() {
    let page = slice_posts(numbers(30), 2, 30);
    assert_eq!(page, (13..26).collect::<Vec<u32>>());
}

#[test]
fn page_behind_the_full_pages_holds_the_remainder() {
    let page = slice_posts(numbers(30), 3, 30);
    assert_eq!(page, vec![26, 27, 28, 29]);
}

#[test]
fn every_page_beyond_the_last_full_one_is_the_same() {
    let near = slice_posts(numbers(30), 3, 30);
    let far = slice_posts(numbers(30), 999, 30);
    assert_eq!(near, far);
    let huge = slice_posts(numbers(30), usize::MAX, 30);
    assert_eq!(near, huge);
}

#[test]
fn exact_multiple_leaves_an_empty_remainder() {
    assert_eq!(slice_posts(numbers(26), 2, 26), (13..26).collect::<Vec<u32>>());
    assert_eq!(slice_posts(numbers(26), 3, 26), Vec::<u32>::new());
}

#[test]
fn short_listing_is_its_own_remainder() {
    assert_eq!(slice_posts(numbers(5), 1, 5), numbers(5));
    assert_eq!(slice_posts(numbers(5), 7, 5), numbers(5));
    assert_eq!(slice_posts(numbers(0), 1, 0), Vec::<u32>::new());
}

#[test]
fn all_returns_the_items_unchanged() {
    let page = paginate(numbers(30), PageRequest::All).unwrap();
    assert_eq!(page.items, numbers(30));
    assert_eq!(page.count, 30);
}

#[test]
fn paginate_reports_the_unsliced_count() {
    let page = paginate(numbers(15), PageRequest::Number(2)).unwrap();
    assert_eq!(page.items, vec![13, 14]);
    assert_eq!(page.count, 15);
}

#[test]
fn page_zero_is_refused() {
    assert_eq!(paginate(numbers(15), PageRequest::Number(0)), Err(Error::InvalidPage));
}
