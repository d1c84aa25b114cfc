//! The arithmetic of installing code into whole pages of memory.
use vstd::prelude::*;

verus! {

/// The size of the mapping that holds `len` bytes of code: the least multiple
/// of the page size that is at least `len`, or `None` where that does not fit
/// in a `usize`.
pub fn round_up_to_pages(len: usize, page_size: usize) -> (r: Option<usize>)
    requires
        page_size > 0,
    ensures
        match r {
            Some(x) => x % page_size == 0 && len <= x < len + page_size,
            None => len % page_size != 0 && len + (page_size - len % page_size) > usize::MAX,
        },
{
    let rem = len % page_size;
    if rem == 0 {
        Some(len)
    } else if len > usize::MAX - (page_size - rem) {
        None
    } else {
        let x = len + (page_size - rem);
        proof {
            let q = len as int / page_size as int;
            assert(len as int == page_size as int * q + rem as int) by (nonlinear_arith)
                requires
                    page_size > 0,
                    q == len as int / page_size as int,
                    rem == len as int % page_size as int,
            ;
            assert(x as int == page_size as int * (q + 1)) by (nonlinear_arith)
                requires
                    len as int == page_size as int * q + rem as int,
                    x as int == len as int + (page_size as int - rem as int),
            ;
            assert((page_size as int * (q + 1)) % page_size as int == 0) by (nonlinear_arith)
                requires
                    page_size > 0,
                    q >= 0,
            ;
        }
        Some(x)
    }
}

} // verus!
