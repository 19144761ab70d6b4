use polkasign::{cal_pages, page_helper, PageError, PageParams};

#[test]
fn first_page_of_twenty_five() {
    let p = PageParams { page_index: 0, page_size: 10 };
    assert_eq!(cal_pages(&p, 25), Ok((0, 10, 3)));
}

#[test]
fn last_partial_page() {
    let p = PageParams { page_index: 2, page_size: 10 };
    assert_eq!(cal_pages(&p, 25), Ok((20, 25, 3)));
}

#[test]
fn page_past_the_end_is_empty() {
    let p = PageParams { page_index: 3, page_size: 10 };
    assert_eq!(cal_pages(&p, 25), Ok((30, 25, 3)));
}

#[test]
fn exact_multiple_has_no_extra_page() {
    let p = PageParams { page_index: 1, page_size: 5 };
    assert_eq!(cal_pages(&p, 20), Ok((5, 10, 4)));
}

#[test]
fn empty_total() {
    let p = PageParams { page_index: 0, page_size: 10 };
    assert_eq!(cal_pages(&p, 0), Ok((0, 0, 0)));
}

#[test]
fn zero_page_size_is_refused() {
    let p = PageParams { page_index: 0, page_size: 0 };
    assert_eq!(cal_pages(&p, 25), Err(PageError::ZeroPageSize));
}

#[test]
fn start_overflow_is_refused() {
    let p = PageParams { page_index: u64::MAX, page_size: 2 };
    assert_eq!(cal_pages(&p, 25), Err(PageError::StartOverflow));
}

#[test]
fn largest_total() {
    let p = PageParams { page_index: 0, page_size: 2 };
    assert_eq!(cal_pages(&p, u64::MAX), Ok((0, 2, u64::MAX / 2 + 1)));
}

#[test]
fn helper_holds_zero() {
    let h = page_helper::new();
    assert_eq!(h.query(), 0);
}
