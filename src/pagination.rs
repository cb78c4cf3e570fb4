use vstd::prelude::*;

use crate::countries::CountryOverview;

verus! {

/// Number of records on a full page.
pub const PAGE_SIZE: usize = 15;

/// The number of pages of `page_size` records needed for `n` records.
pub open spec fn page_count(n: nat, page_size: nat) -> nat
    recommends
        page_size >= 1,
{
    if n % page_size == 0 {
        n / page_size
    } else {
        n / page_size + 1
    }
}

/// The index of the first record on page `page`.
pub open spec fn page_start(page: nat, page_size: nat, n: nat) -> nat {
    if page * page_size <= n {
        page * page_size
    } else {
        n
    }
}

/// The index just past the last record on page `page`.
pub open spec fn page_end(page: nat, page_size: nat, n: nat) -> nat {
    if page * page_size + page_size <= n {
        page * page_size + page_size
    } else {
        n
    }
}

/// `page` brought into `0 .. total`, or 0 where there are no pages.
pub open spec fn clamped_page(page: nat, total: nat) -> nat {
    if total == 0 {
        0
    } else if page >= total {
        (total - 1) as nat
    } else {
        page
    }
}

proof fn lemma_page_arith(n: nat, page_size: nat, p: nat)
    requires
        page_size >= 1,
        n > 0,
    ensures
        page_count(n, page_size) >= 1,
        p < page_count(n, page_size) ==> p * page_size < n,
        page_count(n, page_size) * page_size >= n,
{
    let q = n / page_size;
    let r = n % page_size;
    let t = page_count(n, page_size);
    vstd::arithmetic::div_mod::lemma_fundamental_div_mod(n as int, page_size as int);
    assert(0 <= r < page_size);
    assert(n == page_size * q + r);
    if r == 0 {
        assert(t == q);
        assert(q >= 1) by (nonlinear_arith)
            requires
                n == page_size * q,
                n > 0,
                q >= 0,
        ;
        assert(t * page_size >= n) by (nonlinear_arith)
            requires
                n == page_size * q + r,
                r == 0,
                t == q,
        ;
        if p < t {
            assert(p * page_size < n) by (nonlinear_arith)
                requires
                    n == page_size * q,
                    p < q,
                    page_size >= 1,
            ;
        }
    } else {
        assert(t == q + 1);
        assert(t * page_size >= n) by (nonlinear_arith)
            requires
                n == page_size * q + r,
                r < page_size,
                t == q + 1,
        ;
        if p < t {
            assert(p * page_size < n) by (nonlinear_arith)
                requires
                    n == page_size * q + r,
                    r > 0,
                    p <= q,
                    page_size >= 1,
            ;
        }
    }
}

/// The pages `0 .. page_count(n, page_size)` cut the `n` records into
/// consecutive, non-empty runs of at most `page_size` records, without gap or
/// overlap; the last page holds between 1 and `page_size` records, and there
/// are no pages when there are no records.
pub proof fn lemma_pages_partition(n: nat, page_size: nat)
    requires
        page_size >= 1,
    ensures
        (page_count(n, page_size) == 0) == (n == 0),
        page_count(n, page_size) > 0 ==> page_start(0, page_size, n) == 0,
        page_count(n, page_size) > 0 ==> page_end(
            (page_count(n, page_size) - 1) as nat,
            page_size,
            n,
        ) == n,
        forall|p: nat|
            p + 1 < page_count(n, page_size) ==> #[trigger] page_end(p, page_size, n) == page_start(
                p + 1,
                page_size,
                n,
            ),
        forall|p: nat|
            p < page_count(n, page_size) ==> page_start(p, page_size, n) < #[trigger] page_end(
                p,
                page_size,
                n,
            ) && page_end(p, page_size, n) - page_start(p, page_size, n) <= page_size,
        forall|x: nat|
            x < n ==> #[trigger] (x / page_size) < page_count(n, page_size) && page_start(
                x / page_size,
                page_size,
                n,
            ) <= x < page_end(x / page_size, page_size, n),
{
    let t = page_count(n, page_size);
    if n == 0 {
        assert(t == 0);
    } else {
        lemma_page_arith(n, page_size, 0);
        assert(page_start(0, page_size, n) == 0);
        let last = (t - 1) as nat;
        lemma_page_arith(n, page_size, last);
        assert((last * page_size + page_size) == t * page_size) by (nonlinear_arith)
            requires
                last + 1 == t,
        ;
        assert forall|p: nat| p + 1 < t implies #[trigger] page_end(p, page_size, n) == page_start(
            p + 1,
            page_size,
            n,
        ) by {
            lemma_page_arith(n, page_size, p + 1);
            assert((p + 1) * page_size == p * page_size + page_size) by (nonlinear_arith);
        }
        assert forall|p: nat| p < t implies page_start(p, page_size, n) < #[trigger] page_end(
            p,
            page_size,
            n,
        ) && page_end(p, page_size, n) - page_start(p, page_size, n) <= page_size by {
            lemma_page_arith(n, page_size, p);
        }
        assert forall|x: nat| x < n implies #[trigger] (x / page_size) < t && page_start(
            x / page_size,
            page_size,
            n,
        ) <= x < page_end(x / page_size, page_size, n) by {
            let p = x / page_size;
            vstd::arithmetic::div_mod::lemma_fundamental_div_mod(x as int, page_size as int);
            assert(p * page_size <= x < p * page_size + page_size) by (nonlinear_arith)
                requires
                    x == page_size * p + x % page_size,
                    0 <= x % page_size < page_size,
            ;
            if p >= t {
                assert(p * page_size >= t * page_size) by (nonlinear_arith)
                    requires
                        p >= t,
                        page_size >= 1,
                ;
            }
        }
    }
}

/// The number of pages of `page_size` records needed for `n` records.
pub fn total_pages(n: usize, page_size: usize) -> (r: usize)
    requires
        page_size >= 1,
    ensures
        r == page_count(n as nat, page_size as nat),
{
    let q = n / page_size;
    if n % page_size == 0 {
        q
    } else {
        proof {
            vstd::arithmetic::div_mod::lemma_fundamental_div_mod(n as int, page_size as int);
            assert(q < n) by (nonlinear_arith)
                requires
                    n == page_size * q + n % page_size,
                    n % page_size > 0,
                    page_size >= 1,
                    q >= 0,
            ;
        }
        q + 1
    }
}

/// `page` brought into `0 .. total`, or 0 where there are no pages.
pub fn clamp_page(page: usize, total: usize) -> (r: usize)
    ensures
        r == clamped_page(page as nat, total as nat),
{
    if total == 0 {
        0
    } else if page >= total {
        total - 1
    } else {
        page
    }
}

/// The bounds `(start, end)` of page `page` over `n` records.
pub fn page_bounds(n: usize, page_size: usize, page: usize) -> (r: (usize, usize))
    requires
        page_size >= 1,
        page < page_count(n as nat, page_size as nat) || page == 0,
    ensures
        r.0 == page_start(page as nat, page_size as nat, n as nat),
        r.1 == page_end(page as nat, page_size as nat, n as nat),
        r.0 <= r.1 <= n,
{
    if n == 0 {
        proof {
            assert(page * page_size == 0) by (nonlinear_arith)
                requires
                    page == 0,
            ;
        }
        return (0, 0);
    }
    proof {
        lemma_page_arith(n as nat, page_size as nat, page as nat);
    }
    let start = page * page_size;
    let end = if n - start >= page_size {
        start + page_size
    } else {
        n
    };
    (start, end)
}

/// The records of page `page` of `items`.
pub fn paginate(items: &[CountryOverview], page_size: usize, page: usize) -> (r: Vec<
    CountryOverview,
>)
    requires
        page_size >= 1,
        page < page_count(items@.len(), page_size as nat) || page == 0,
    ensures
        r@ == items@.subrange(
            page_start(page as nat, page_size as nat, items@.len()) as int,
            page_end(page as nat, page_size as nat, items@.len()) as int,
        ),
{
    let (start, end) = page_bounds(items.len(), page_size, page);
    let mut out: Vec<CountryOverview> = Vec::new();
    let mut i: usize = start;
    while i < end
        invariant
            start <= i <= end <= items@.len(),
            out@ == items@.subrange(start as int, i as int),
        decreases end - i,
    {
        out.push(items[i].clone());
        proof {
            assert(items@.subrange(start as int, i + 1) =~= items@.subrange(start as int, i as int).push(items@[i as int]));
        }
        i = i + 1;
    }
    out
}

} // verus!
