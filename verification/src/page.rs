//! Pagination arithmetic: page count, page slices, and the law that the
//! pages of a result set partition it.

use vstd::prelude::*;
use vstd::arithmetic::div_mod::{lemma_fundamental_div_mod, lemma_fundamental_div_mod_converse};
use vstd::arithmetic::mul::{
    lemma_mul_basics, lemma_mul_inequality, lemma_mul_is_commutative,
    lemma_mul_is_distributive_add_other_way, lemma_mul_is_distributive_sub_other_way,
    lemma_mul_nonnegative,
};

verus! {

/// `x`, clipped from above to `len`.
pub open spec fn clipped(x: int, len: int) -> int {
    if x < len {
        x
    } else {
        len
    }
}

/// Number of pages needed for `total` rows at `size` rows per page.
pub open spec fn spec_num_pages(total: int, size: int) -> int
    recommends
        size >= 1,
{
    (total + size - 1) / size
}

/// The 0-based `page`-th slice of length `size` of a result sequence,
/// clipped to the sequence's end.
pub open spec fn spec_page<T>(s: Seq<T>, size: int, page: int) -> Seq<T>
    recommends
        size >= 1,
        page >= 0,
{
    s.subrange(clipped(page * size, s.len() as int), clipped(page * size + size, s.len() as int))
}

/// The first `n` pages of a result sequence, concatenated in page order.
pub open spec fn spec_pages_concat<T>(s: Seq<T>, size: int, n: int) -> Seq<T>
    decreases n,
{
    if n <= 0 {
        Seq::empty()
    } else {
        spec_pages_concat(s, size, n - 1) + spec_page(s, size, n - 1)
    }
}

/// Total page count, rounding up.
pub fn num_pages(total: u64, size: u64) -> (r: u64)
    requires
        size >= 1,
    ensures
        r == spec_num_pages(total as int, size as int),
{
    if total == 0 {
        proof {
            vstd::arithmetic::div_mod::lemma_basic_div(size as int - 1, size as int);
        }
        0
    } else {
        let q = (total - 1) / size;
        proof {
            let t = total as int;
            let s = size as int;
            let qi = q as int;
            lemma_fundamental_div_mod(t - 1, s);
            vstd::arithmetic::div_mod::lemma_mod_bound(t - 1, s);
            let rem = (t - 1) % s;
            lemma_mul_inequality(1, s, qi);
            assert(t - 1 == s * qi + rem);
            lemma_mul_is_distributive_add_other_way(s, qi, 1);
            lemma_mul_is_commutative(qi, s);
            lemma_mul_basics(s);
            assert(t + s - 1 == (qi + 1) * s + rem);
            lemma_fundamental_div_mod_converse(t + s - 1, s, qi + 1, rem);
        }
        q + 1
    }
}

/// A page before the page count starts strictly inside the result set.
pub proof fn lemma_page_in_range(total: int, size: int, page: int)
    requires
        size >= 1,
        0 <= page,
        page < spec_num_pages(total, size),
    ensures
        page * size < total,
{
    let ceil = spec_num_pages(total, size);
    lemma_fundamental_div_mod(total + size - 1, size);
    lemma_mul_inequality(page, ceil - 1, size);
    lemma_mul_is_distributive_sub_other_way(size, ceil, 1);
    lemma_mul_basics(size);
    lemma_mul_is_commutative(ceil, size);
}

/// A page at or past the page count starts at or past the result set's end.
pub proof fn lemma_page_out_of_range(total: int, size: int, page: int)
    requires
        size >= 1,
        total >= 0,
        page >= spec_num_pages(total, size),
    ensures
        page * size >= total,
{
    let ceil = spec_num_pages(total, size);
    lemma_fundamental_div_mod(total + size - 1, size);
    lemma_mul_inequality(ceil, page, size);
    lemma_mul_is_commutative(ceil, size);
}

/// The first `n` pages, concatenated, are the first `n * size` rows.
proof fn lemma_pages_prefix<T>(s: Seq<T>, size: int, n: int)
    requires
        size >= 1,
        n >= 0,
    ensures
        spec_pages_concat(s, size, n) == s.take(clipped(n * size, s.len() as int)),
    decreases n,
{
    let len = s.len() as int;
    if n == 0 {
        assert(spec_pages_concat(s, size, 0) =~= s.take(0));
    } else {
        lemma_pages_prefix(s, size, n - 1);
        lemma_mul_is_distributive_sub_other_way(size, n, 1);
        lemma_mul_basics(size);
        lemma_mul_nonnegative(n - 1, size);
        lemma_mul_inequality(n - 1, n, size);
        let lo = clipped((n - 1) * size, len);
        let hi = clipped(n * size, len);
        assert(0 <= lo <= hi <= len);
        assert(spec_page(s, size, n - 1) == s.subrange(lo, hi));
        assert(s.take(lo) + s.subrange(lo, hi) =~= s.take(hi));
    }
}

/// Paging partitions a result set: the pages are consecutive, disjoint
/// slices, and concatenating all of them in page order reproduces the full
/// sequence, with no duplicate and no gap.
pub proof fn lemma_pages_cover<T>(s: Seq<T>, size: int)
    requires
        size >= 1,
    ensures
        spec_pages_concat(s, size, spec_num_pages(s.len() as int, size)) == s,
{
    let len = s.len() as int;
    let ceil = spec_num_pages(len, size);
    lemma_fundamental_div_mod(len + size - 1, size);
    assert(ceil >= 0) by {
        vstd::arithmetic::div_mod::lemma_div_is_ordered(0, len + size - 1, size);
    }
    lemma_mul_is_commutative(ceil, size);
    lemma_pages_prefix(s, size, ceil);
    assert(s.take(clipped(ceil * size, len)) =~= s.take(len));
    assert(s.take(len) =~= s);
}

} // verus!
