use vstd::prelude::*;

verus! {

/// Which slice of a result list a caller asks for.
#[derive(Debug, Clone, Copy, PartialEq, Eq, Structural)]
pub struct PageParams {
    pub page_index: u64,
    pub page_size: u64,
}

/// Why a page could not be computed.
#[derive(Debug, Clone, Copy, PartialEq, Eq, Structural)]
pub enum PageError {
    /// A page size of zero was asked for.
    ZeroPageSize,
    /// `page_index * page_size` does not fit in 64 bits.
    StartOverflow,
}

/// Number of pages of size `size` that hold `total` items.
pub open spec fn page_count(total: nat, size: nat) -> nat
    recommends
        size > 0,
{
    if total % size == 0 {
        total / size
    } else {
        total / size + 1
    }
}

/// The number of pages of size `page_size` that hold `total` items.
pub fn count_pages(total: u64, page_size: u64) -> (r: u64)
    requires
        page_size > 0,
    ensures
        r == page_count(total as nat, page_size as nat),
{
    let mut pages: u64 = total / page_size;
    if total % page_size > 0 {
        assert(page_size > 1);
        assert(total / page_size < u64::MAX) by (nonlinear_arith)
            requires
                page_size > 1,
                total <= u64::MAX,
        {
        }
        pages = pages + 1;
    }
    proof {
        assert(pages as nat == page_count(total as nat, page_size as nat)) by (nonlinear_arith)
            requires
                page_size > 0,
                pages == total / page_size + (if total % page_size > 0 { 1int } else { 0 }),
        {
        }
    }
    pages
}

/// Start, end and page count as the paging rule defines them.
pub open spec fn page_bounds(page_index: nat, page_size: nat, total: nat) -> (int, int, int) {
    let start: int = (page_index * page_size) as int;
    let end: int = if start + page_size <= total { start + page_size } else { total as int };
    (start, end, page_count(total, page_size) as int)
}

/// Computes the slice `start..end` of `total` items that page `params.page_index` covers,
/// and how many pages there are. A page past the end yields `start >= end`.
pub fn cal_pages(params: &PageParams, total: u64) -> (r: Result<(u64, u64, u64), PageError>)
    ensures
        params.page_size == 0 ==> r == Err::<(u64, u64, u64), PageError>(PageError::ZeroPageSize),
        params.page_size > 0 && params.page_index * params.page_size > u64::MAX ==> r == Err::<
            (u64, u64, u64),
            PageError,
        >(PageError::StartOverflow),
        params.page_size > 0 && params.page_index * params.page_size <= u64::MAX ==> {
            &&& r.is_ok()
            &&& (r.unwrap().0 as int, r.unwrap().1 as int, r.unwrap().2 as int) == page_bounds(
                params.page_index as nat,
                params.page_size as nat,
                total as nat,
            )
        },
{
    if params.page_size == 0 {
        return Err(PageError::ZeroPageSize);
    }
    let start = match params.page_index.checked_mul(params.page_size) {
        Some(s) => s,
        None => return Err(PageError::StartOverflow),
    };
    let end: u64 = if start >= total || total - start <= params.page_size {
        total
    } else {
        start + params.page_size
    };
    let pages = count_pages(total, params.page_size);
    Ok((start, end, pages))
}

/// One page of a result list, with the paging it was cut by.
#[derive(Debug, Clone, PartialEq, Eq)]
pub struct PageResult<T> {
    pub success: bool,
    pub err: String,
    pub total: u64,
    pub pages: u64,
    pub page_index: u64,
    pub page_size: u64,
    pub data: Vec<T>,
}

/// A placeholder service that holds one number.
#[allow(non_camel_case_types)]
pub struct page_helper {
    dummy: u64,
}

impl page_helper {
    /// The number the service holds.
    pub closed spec fn value(&self) -> u64 {
        self.dummy
    }

    /// A service that holds zero.
    pub fn new() -> (r: page_helper)
        ensures
            r.value() == 0,
    {
        page_helper { dummy: 0 }
    }

    /// The number the service holds.
    pub fn query(&self) -> (r: u64)
        ensures
            r == self.value(),
    {
        self.dummy
    }
}

} // verus!
