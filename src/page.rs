use vstd::prelude::*;

verus! {

broadcast use vstd::seq_lib::lemma_seq_contains_after_push;

/// Smallest number of items per page the view offers.
pub const MIN_ITEMS_PER_PAGE: usize = 10;

pub open spec fn min_int(a: int, b: int) -> int {
    if a < b {
        a
    } else {
        b
    }
}

/// First position of page `page` among `total` items, clamped to `total`.
pub open spec fn page_start(page: nat, per_page: nat, total: nat) -> int {
    min_int((page * per_page) as int, total as int)
}

/// One past the last position of page `page`.
pub open spec fn page_end(page: nat, per_page: nat, total: nat) -> int {
    min_int(((page + 1) * per_page) as int, total as int)
}

/// Positions `i` of `m` with `m[i]`, in order.
pub open spec fn selected(m: Seq<bool>) -> Seq<int>
    decreases m.len(),
{
    if m.len() == 0 {
        Seq::empty()
    } else if m.last() {
        selected(m.drop_last()).push(m.len() - 1)
    } else {
        selected(m.drop_last())
    }
}

/// The positions of the items on page `page` of the items that `m` keeps:
/// the filter applies to the whole collection, then the page is cut.
pub open spec fn visible(m: Seq<bool>, page: nat, per_page: nat) -> Seq<int> {
    let s = selected(m);
    s.subrange(page_start(page, per_page, s.len()), page_end(page, per_page, s.len()))
}

/// The page after `page`, if items remain beyond it; else `page`.
pub open spec fn next_page_spec(page: nat, per_page: nat, total: nat) -> nat {
    if total > (page + 1) * per_page {
        page + 1
    } else {
        page
    }
}

pub proof fn lemma_selected(m: Seq<bool>)
    ensures
        forall|k: int|
            0 <= k < selected(m).len() ==> 0 <= #[trigger] selected(m)[k] < m.len() && m[selected(
                m,
            )[k]],
        forall|a: int, b: int|
            0 <= a < b < selected(m).len() ==> #[trigger] selected(m)[a] < #[trigger] selected(m)[b],
        forall|i: int| 0 <= i < m.len() && m[i] ==> #[trigger] selected(m).contains(i),
        selected(m).len() <= m.len(),
    decreases m.len(),
{
    if m.len() > 0 {
        let d = m.drop_last();
        lemma_selected(d);
        assert forall|i: int| 0 <= i < m.len() && m[i] implies #[trigger] selected(m).contains(i) by {
            if i < m.len() - 1 {
                assert(d[i] == m[i]);
                assert(selected(d).contains(i));
            } else {
                assert(selected(m).last() == i);
            }
        }
    }
}

/// Start and end of page `page` among `total` items, without overflow.
pub fn page_range(page: usize, per_page: usize, total: usize) -> (r: (usize, usize))
    ensures
        r.0 as int == page_start(page as nat, per_page as nat, total as nat),
        r.1 as int == page_end(page as nat, per_page as nat, total as nat),
        r.0 <= r.1 <= total,
{
    assert(page * per_page <= (page + 1) * per_page) by (nonlinear_arith);
    if per_page == 0 {
        return (0, 0);
    }
    let start = match page.checked_mul(per_page) {
        Some(s) => if s < total {
            s
        } else {
            total
        },
        None => total,
    };
    let end = match page.checked_add(1) {
        Some(following) => match following.checked_mul(per_page) {
            Some(e) => if e < total {
                e
            } else {
                total
            },
            None => total,
        },
        None => {
            assert((page + 1) * per_page >= page + 1) by (nonlinear_arith)
                requires
                    per_page >= 1,
            ;
            total
        },
    };
    (start, end)
}

/// Raw positions of the items on a page of the filtered collection, where
/// `matches[i]` says whether item `i` passes the filter.
pub fn visible_indices(matches: &Vec<bool>, page: usize, per_page: usize) -> (r: Vec<usize>)
    ensures
        r@.map_values(|i: usize| i as int) == visible(matches@, page as nat, per_page as nat),
{
    let mut sel: Vec<usize> = Vec::new();
    let mut i: usize = 0;
    while i < matches.len()
        invariant
            i <= matches.len(),
            sel@.map_values(|x: usize| x as int) == selected(matches@.subrange(0, i as int)),
        decreases matches.len() - i,
    {
        let ghost before = sel@;
        let ghost sub = matches@.subrange(0, i + 1);
        assert(sub.drop_last() =~= matches@.subrange(0, i as int));
        if matches[i] {
            sel.push(i);
            assert(sel@.map_values(|x: usize| x as int) =~= before.map_values(|x: usize| x as int).push(
                i as int,
            ));
        }
        i = i + 1;
    }
    assert(matches@.subrange(0, i as int) =~= matches@);
    let (start, end) = page_range(page, per_page, sel.len());
    let mut out: Vec<usize> = Vec::new();
    let mut k = start;
    while k < end
        invariant
            start <= k <= end <= sel.len(),
            out.len() == k - start,
            forall|q: int| 0 <= q < out.len() ==> #[trigger] out@[q] == sel@[start + q],
        decreases end - k,
    {
        out.push(sel[k]);
        k = k + 1;
    }
    let ghost s = sel@.map_values(|x: usize| x as int);
    assert(out@.map_values(|x: usize| x as int) =~= s.subrange(start as int, end as int));
    out
}

/// Number of items that `matches` keeps.
pub fn count_selected(matches: &Vec<bool>) -> (r: usize)
    ensures
        r == selected(matches@).len(),
{
    let mut n: usize = 0;
    let mut i: usize = 0;
    proof {
        lemma_selected(matches@);
    }
    while i < matches.len()
        invariant
            i <= matches.len(),
            n as nat == selected(matches@.subrange(0, i as int)).len(),
            n <= i,
        decreases matches.len() - i,
    {
        let ghost sub = matches@.subrange(0, i + 1);
        assert(sub.drop_last() =~= matches@.subrange(0, i as int));
        if matches[i] {
            n = n + 1;
        }
        i = i + 1;
    }
    assert(matches@.subrange(0, i as int) =~= matches@);
    n
}

/// Page after `page`: a step forward only while items remain beyond it.
pub fn next_page(page: usize, per_page: usize, total: usize) -> (r: usize)
    requires
        per_page >= 1,
    ensures
        r as nat == next_page_spec(page as nat, per_page as nat, total as nat),
{
    let (_, end) = page_range(page, per_page, total);
    if end < total {
        assert((page + 1) * per_page >= page + 1) by (nonlinear_arith)
            requires
                per_page >= 1,
        ;
        page + 1
    } else {
        page
    }
}

/// Page before `page`; page 0 stays.
pub fn previous_page(page: usize) -> (r: usize)
    ensures
        r == (if page == 0 {
            0
        } else {
            page - 1
        }),
{
    if page != 0 {
        page - 1
    } else {
        0
    }
}

/// Page size `requested` held within `[10, total]`, and never below 10.
pub open spec fn clamped_per_page(requested: nat, total: nat) -> nat {
    let capped = if requested > total {
        total
    } else {
        requested
    };
    if capped < MIN_ITEMS_PER_PAGE {
        MIN_ITEMS_PER_PAGE as nat
    } else {
        capped
    }
}

/// Items per page as the user asks for it, held within `[10, total]`;
/// never below 10.
pub fn clamp_items_per_page(requested: usize, total: usize) -> (r: usize)
    ensures
        r as nat == clamped_per_page(requested as nat, total as nat),
        r >= MIN_ITEMS_PER_PAGE,
{
    let capped = if requested > total {
        total
    } else {
        requested
    };
    if capped < MIN_ITEMS_PER_PAGE {
        MIN_ITEMS_PER_PAGE
    } else {
        capped
    }
}

/// Filtering comes before slicing: every item on a page passes the filter,
/// in collection order, a page never holds more than `per_page` items, and
/// every page that ends within the filtered items holds exactly `per_page`.
pub proof fn lemma_visible_page_size(m: Seq<bool>, page: nat, per_page: nat)
    ensures
        visible(m, page, per_page).len() <= per_page,
        (page + 1) * per_page <= selected(m).len() ==> visible(m, page, per_page).len()
            == per_page,
        forall|k: int|
            0 <= k < visible(m, page, per_page).len() ==> 0 <= #[trigger] visible(
                m,
                page,
                per_page,
            )[k] < m.len() && m[visible(m, page, per_page)[k]],
        forall|a: int, b: int|
            0 <= a < b < visible(m, page, per_page).len() ==> #[trigger] visible(
                m,
                page,
                per_page,
            )[a] < #[trigger] visible(m, page, per_page)[b],
{
    lemma_selected(m);
    let s = selected(m);
    let start = page_start(page, per_page, s.len());
    let v = visible(m, page, per_page);
    assert((page + 1) * per_page == page * per_page + per_page) by (nonlinear_arith);
    assert forall|k: int| 0 <= k < v.len() implies 0 <= #[trigger] v[k] < m.len() && m[v[k]] by {
        assert(v[k] == s[start + k]);
    }
    assert forall|a: int, b: int| 0 <= a < b < v.len() implies #[trigger] v[a] < #[trigger] v[b] by {
        assert(v[a] == s[start + a]);
        assert(v[b] == s[start + b]);
    }
}

} // verus!
