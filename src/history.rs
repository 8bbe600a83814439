use vstd::prelude::*;

use crate::filter::{FilterCat, line_matches, matches_filter, opt_view};
use crate::page::{
    MIN_ITEMS_PER_PAGE, clamp_items_per_page, clamped_per_page, count_selected, next_page,
    next_page_spec,
    previous_page, selected, visible, visible_indices,
};
use crate::request::crlf;
use crate::text::{chars_of, find_from, first_match_from, lemma_first_match_from, string_of};

verus! {

/// One recorded transaction. Immutable once created.
#[derive(Debug)]
pub struct HistLine {
    pub id: usize,
    pub remote_addr: String,
    pub uri: String,
    pub method: String,
    pub params: bool,
    pub status: usize,
    pub size: usize,
    pub raw: String,
    pub ssl: bool,
    pub response: String,
    pub response_time: String,
    pub host: String,
}

pub open spec fn host_marker() -> Seq<char> {
    seq!['o', 's', 't', ':', ' ']
}

/// The host named in a raw request: the text after the first `"ost: "` up to
/// the next `"ost: "`, then up to the first line break.
pub open spec fn host_of_raw(t: Seq<char>) -> Seq<char> {
    match first_match_from(t, host_marker(), 0) {
        Some(i) => {
            let seg = match first_match_from(t, host_marker(), i + 5) {
                Some(j) => t.subrange(i + 5, j),
                None => t.subrange(i + 5, t.len() as int),
            };
            match first_match_from(seg, crlf(), 0) {
                Some(e) => seg.subrange(0, e),
                None => seg,
            }
        },
        None => Seq::empty(),
    }
}

/// The host named in raw request `raw`.
pub fn host_from_raw(raw: &str) -> (r: String)
    ensures
        r@ == host_of_raw(raw@),
{
    let t = chars_of(raw);
    let n = t.len();
    let marker = vec!['o', 's', 't', ':', ' '];
    assert(marker@ =~= host_marker());
    let nl = vec!['\r', '\n'];
    assert(nl@ =~= crlf());
    match find_from(&t, &marker, 0) {
        None => String::new(),
        Some(i) => {
            proof {
                lemma_first_match_from(t@, host_marker(), 0);
            }
            let end = match find_from(&t, &marker, i + 5) {
                Some(j) => {
                    proof {
                        lemma_first_match_from(t@, host_marker(), i + 5);
                    }
                    j
                },
                None => n,
            };
            let mut seg: Vec<char> = Vec::new();
            let mut k = i + 5;
            while k < end
                invariant
                    i + 5 <= k <= end <= n == t.len(),
                    seg@ == t@.subrange(i + 5, k as int),
                decreases end - k,
            {
                seg.push(t[k]);
                k = k + 1;
                assert(seg@ =~= t@.subrange(i + 5, k as int));
            }
            match find_from(&seg, &nl, 0) {
                Some(e) => {
                    proof {
                        lemma_first_match_from(seg@, crlf(), 0);
                    }
                    string_of(&seg, 0, e)
                },
                None => {
                    assert(seg@.subrange(0, seg.len() as int) =~= seg@);
                    string_of(&seg, 0, seg.len())
                },
            }
        },
    }
}

impl HistLine {
    pub fn new(
        id: usize,
        remote_addr: String,
        uri: String,
        method: String,
        params: bool,
        status: usize,
        size: usize,
        raw: String,
        ssl: bool,
        response: String,
        response_time: String,
        host: String,
    ) -> (r: HistLine)
        ensures
            r == (HistLine {
                id,
                remote_addr,
                uri,
                method,
                params,
                status,
                size,
                raw,
                ssl,
                response,
                response_time,
                host,
            }),
    {
        HistLine {
            id,
            remote_addr,
            uri,
            method,
            params,
            status,
            size,
            raw,
            ssl,
            response,
            response_time,
            host,
        }
    }

    /// A line from a row of the local store, whose flags are stored as
    /// integers (1 for set) and whose host is read from the raw request.
    pub fn from_row(
        id: usize,
        remote_addr: String,
        uri: String,
        method: String,
        params: i64,
        status: usize,
        size: usize,
        raw: String,
        ssl: i64,
        response: String,
        response_time: String,
    ) -> (r: HistLine)
        ensures
            r.id == id,
            r.remote_addr == remote_addr,
            r.uri == uri,
            r.method == method,
            r.params == (params == 1),
            r.status == status,
            r.size == size,
            r.raw == raw,
            r.ssl == (ssl == 1),
            r.response == response,
            r.response_time == response_time,
            r.host@ == host_of_raw(raw@),
    {
        let host = host_from_raw(raw.as_str());
        HistLine {
            id,
            remote_addr,
            uri,
            method,
            params: params == 1,
            status,
            size,
            raw,
            ssl: ssl == 1,
            response,
            response_time,
            host,
        }
    }

    /// A copy of this line.
    pub fn copy(&self) -> (r: HistLine)
        ensures
            r == *self,
    {
        HistLine {
            id: self.id,
            remote_addr: self.remote_addr.clone(),
            uri: self.uri.clone(),
            method: self.method.clone(),
            params: self.params,
            status: self.status,
            size: self.size,
            raw: self.raw.clone(),
            ssl: self.ssl,
            response: self.response.clone(),
            response_time: self.response_time.clone(),
            host: self.host.clone(),
        }
    }

    pub fn id(&self) -> (r: usize)
        ensures
            r == self.id,
    {
        self.id
    }

    pub fn remote_addr(&self) -> (r: &String)
        ensures
            *r == self.remote_addr,
    {
        &self.remote_addr
    }

    pub fn uri(&self) -> (r: &String)
        ensures
            *r == self.uri,
    {
        &self.uri
    }

    pub fn method(&self) -> (r: &String)
        ensures
            *r == self.method,
    {
        &self.method
    }

    pub fn status(&self) -> (r: usize)
        ensures
            r == self.status,
    {
        self.status
    }

    pub fn size(&self) -> (r: usize)
        ensures
            r == self.size,
    {
        self.size
    }

    pub fn raw(&self) -> (r: &String)
        ensures
            *r == self.raw,
    {
        &self.raw
    }

    pub fn ssl(&self) -> (r: bool)
        ensures
            r == self.ssl,
    {
        self.ssl
    }

    pub fn response(&self) -> (r: &String)
        ensures
            *r == self.response,
    {
        &self.response
    }

    pub fn response_time(&self) -> (r: &String)
        ensures
            *r == self.response_time,
    {
        &self.response_time
    }

    pub fn host(&self) -> (r: &String)
        ensures
            *r == self.host,
    {
        &self.host
    }
}

pub open spec fn max_nat(a: nat, b: nat) -> nat {
    if a < b {
        b
    } else {
        a
    }
}

/// The cursor after merging `rows` into a history whose cursor was `c`.
pub open spec fn merged_cursor(c: nat, rows: Seq<HistLine>) -> nat
    decreases rows.len(),
{
    if rows.len() == 0 {
        c
    } else {
        max_nat(merged_cursor(c, rows.drop_last()), rows.last().id as nat)
    }
}

/// Merging never moves the cursor back, and leaves it at the largest of the
/// old cursor and the ids merged.
pub proof fn lemma_merged_cursor(c: nat, rows: Seq<HistLine>)
    ensures
        merged_cursor(c, rows) >= c,
        forall|i: int| 0 <= i < rows.len() ==> (#[trigger] rows[i]).id <= merged_cursor(c, rows),
        merged_cursor(c, rows) == c || exists|i: int|
            0 <= i < rows.len() && (#[trigger] rows[i]).id == merged_cursor(c, rows),
    decreases rows.len(),
{
    if rows.len() > 0 {
        let d = rows.drop_last();
        lemma_merged_cursor(c, d);
        assert forall|i: int| 0 <= i < rows.len() implies (#[trigger] rows[i]).id <= merged_cursor(
            c,
            rows,
        ) by {
            if i < rows.len() - 1 {
                assert(rows[i] == d[i]);
            }
        }
        if merged_cursor(c, rows) != c {
            if merged_cursor(c, rows) == rows.last().id {
                assert(rows[rows.len() - 1].id == merged_cursor(c, rows));
            } else {
                let k = choose|k: int| 0 <= k < d.len() && (#[trigger] d[k]).id == merged_cursor(c, d);
                assert(rows[k] == d[k]);
            }
        }
    }
}

/// The transaction history of one view: lines most recent first, the cursor
/// (highest id merged), paging and filter state, and a single-slot guard
/// that lets one fetch be outstanding at a time.
pub struct History {
    pub last_id: usize,
    pub history: Vec<HistLine>,
    pub current_page: usize,
    pub items_per_page: usize,
    pub filter: Option<String>,
    pub filter_cat: Option<FilterCat>,
    pub filter_input: String,
    pub selected: Option<HistLine>,
    pub fetching: bool,
}

/// Which lines pass the filter.
pub open spec fn filter_mask(lines: Seq<HistLine>, f: Option<Seq<char>>, cat: Option<FilterCat>) -> Seq<
    bool,
> {
    Seq::new(lines.len(), |i: int| line_matches(lines[i], f, cat))
}

impl History {
    /// Same lines, cursor, paging and filter as `o`.
    pub open spec fn same_except_fetch(&self, o: &History) -> bool {
        &&& self.last_id == o.last_id
        &&& self.history@ == o.history@
        &&& self.current_page == o.current_page
        &&& self.items_per_page == o.items_per_page
        &&& self.filter == o.filter
        &&& self.filter_cat == o.filter_cat
    }

    /// Same lines, cursor, fetch slot and filter as `o`.
    pub open spec fn same_data(&self, o: &History) -> bool {
        &&& self.last_id == o.last_id
        &&& self.history@ == o.history@
        &&& self.fetching == o.fetching
        &&& self.filter == o.filter
        &&& self.filter_cat == o.filter_cat
    }

    pub fn new() -> (r: History)
        ensures
            r.last_id == 0,
            r.history@ == Seq::<HistLine>::empty(),
            !r.fetching,
            r.current_page == 0,
            r.items_per_page == MIN_ITEMS_PER_PAGE,
            r.filter is None,
            r.filter_cat is None,
            r.filter_input@ == Seq::<char>::empty(),
            r.selected is None,
    {
        History {
            last_id: 0,
            history: Vec::new(),
            current_page: 0,
            items_per_page: MIN_ITEMS_PER_PAGE,
            filter: None,
            filter_cat: None,
            filter_input: String::new(),
            selected: None,
            fetching: false,
        }
    }

    /// A copy with the same lines, cursor, paging and filter, and with no
    /// selection and no fetch outstanding.
    pub fn copy(&self) -> (r: History)
        ensures
            r.last_id == self.last_id,
            r.history@ == self.history@,
            r.current_page == self.current_page,
            r.items_per_page == self.items_per_page,
            r.filter == self.filter,
            r.filter_cat == self.filter_cat,
            r.filter_input == self.filter_input,
            r.selected is None,
            !r.fetching,
    {
        let mut lines: Vec<HistLine> = Vec::new();
        let mut i: usize = 0;
        while i < self.history.len()
            invariant
                i <= self.history.len(),
                lines@ == self.history@.subrange(0, i as int),
            decreases self.history.len() - i,
        {
            lines.push(self.history[i].copy());
            i = i + 1;
            assert(lines@ =~= self.history@.subrange(0, i as int));
        }
        assert(self.history@.subrange(0, i as int) =~= self.history@);
        History {
            last_id: self.last_id,
            history: lines,
            current_page: self.current_page,
            items_per_page: self.items_per_page,
            filter: match &self.filter {
                Some(f) => Some(f.clone()),
                None => None,
            },
            filter_cat: self.filter_cat,
            filter_input: self.filter_input.clone(),
            selected: None,
            fetching: false,
        }
    }

    pub fn selected(&self) -> (r: Option<HistLine>)
        ensures
            r == self.selected,
    {
        match &self.selected {
            Some(h) => Some(h.copy()),
            None => None,
        }
    }

    pub fn last_id(&self) -> (r: usize)
        ensures
            r == self.last_id,
    {
        self.last_id
    }

    pub fn set_last_id(&mut self, id: usize)
        ensures
            *final(self) == (History { last_id: id, ..*old(self) }),
    {
        self.last_id = id;
    }

    pub fn history(&self) -> (r: &Vec<HistLine>)
        ensures
            r@ == self.history@,
    {
        &self.history
    }

    /// Claims the fetch slot. Returns `true`, and marks a fetch as
    /// outstanding, only if none was; otherwise changes nothing.
    pub fn begin_fetch(&mut self) -> (started: bool)
        ensures
            started == !old(self).fetching,
            final(self).fetching,
            final(self).same_except_fetch(old(self)),
    {
        if self.fetching {
            false
        } else {
            self.fetching = true;
            true
        }
    }

    pub fn is_fetching(&self) -> (r: bool)
        ensures
            r == self.fetching,
    {
        self.fetching
    }

    /// A fetch failed: the slot is freed so a later tick may retry; cursor
    /// and lines stay.
    pub fn reset_promise(&mut self)
        ensures
            !final(self).fetching,
            final(self).same_except_fetch(old(self)),
    {
        self.fetching = false;
    }

    /// A fetch returned `rows`, in source order: they go to the head of the
    /// history in that order, the cursor moves to the largest id seen, and
    /// the fetch slot is freed.
    pub fn merge(&mut self, rows: Vec<HistLine>)
        ensures
            final(self).history@ == rows@ + old(self).history@,
            final(self).last_id as nat == merged_cursor(old(self).last_id as nat, rows@),
            !final(self).fetching,
            final(self).current_page == old(self).current_page,
            final(self).items_per_page == old(self).items_per_page,
            final(self).filter == old(self).filter,
            final(self).filter_cat == old(self).filter_cat,
    {
        let mut cursor = self.last_id;
        let mut i: usize = 0;
        while i < rows.len()
            invariant
                i <= rows.len(),
                cursor as nat == merged_cursor(self.last_id as nat, rows@.subrange(0, i as int)),
            decreases rows.len() - i,
        {
            let ghost sub = rows@.subrange(0, i + 1);
            assert(sub.drop_last() =~= rows@.subrange(0, i as int));
            if rows[i].id > cursor {
                cursor = rows[i].id;
            }
            i = i + 1;
        }
        assert(rows@.subrange(0, i as int) =~= rows@);
        let mut merged = rows;
        let ghost old_lines = self.history@;
        let ghost new_lines = merged@;
        merged.append(&mut self.history);
        self.history = merged;
        self.last_id = cursor;
        self.fetching = false;
        assert(self.history@ =~= new_lines + old_lines);
    }

    /// Number of lines that pass the filter.
    pub fn filtered_count(&self) -> (r: usize)
        ensures
            r == selected(filter_mask(self.history@, opt_view(self.filter), self.filter_cat)).len(),
    {
        let mask = self.filter_mask();
        count_selected(&mask)
    }

    /// Whether each line passes the filter.
    pub fn filter_mask(&self) -> (r: Vec<bool>)
        ensures
            r@ == filter_mask(self.history@, opt_view(self.filter), self.filter_cat),
    {
        let mut out: Vec<bool> = Vec::new();
        let mut i: usize = 0;
        while i < self.history.len()
            invariant
                i <= self.history.len(),
                out.len() == i,
                forall|k: int|
                    0 <= k < i ==> #[trigger] out@[k] == line_matches(
                        self.history@[k],
                        opt_view(self.filter),
                        self.filter_cat,
                    ),
            decreases self.history.len() - i,
        {
            out.push(matches_filter(&self.history[i], &self.filter, &self.filter_cat));
            i = i + 1;
        }
        assert(out@ =~= filter_mask(self.history@, opt_view(self.filter), self.filter_cat));
        out
    }

    /// Positions in the history of the lines on the current page, after the
    /// filter.
    pub fn visible(&self) -> (r: Vec<usize>)
        ensures
            r@.map_values(|i: usize| i as int) == visible(
                filter_mask(self.history@, opt_view(self.filter), self.filter_cat),
                self.current_page as nat,
                self.items_per_page as nat,
            ),
    {
        let mask = self.filter_mask();
        visible_indices(&mask, self.current_page, self.items_per_page)
    }

    /// Moves to the next page while filtered lines remain beyond this one.
    pub fn next_page(&mut self)
        requires
            old(self).items_per_page >= 1,
        ensures
            final(self).same_data(old(self)),
            final(self).current_page as nat == next_page_spec(
                old(self).current_page as nat,
                old(self).items_per_page as nat,
                selected(
                    filter_mask(old(self).history@, opt_view(old(self).filter), old(self).filter_cat),
                ).len(),
            ),
            final(self).items_per_page == old(self).items_per_page,
    {
        let total = self.filtered_count();
        self.current_page = next_page(self.current_page, self.items_per_page, total);
    }

    /// Moves to the previous page; page 0 stays.
    pub fn previous_page(&mut self)
        ensures
            final(self).same_data(old(self)),
            final(self).current_page == (if old(self).current_page == 0 {
                0
            } else {
                old(self).current_page - 1
            }),
            final(self).items_per_page == old(self).items_per_page,
    {
        self.current_page = previous_page(self.current_page);
    }

    /// Sets the page size, held within `[10, filtered count]`.
    pub fn set_items_per_page(&mut self, n: usize)
        ensures
            final(self).same_data(old(self)),
            final(self).items_per_page as nat == clamped_per_page(
                n as nat,
                selected(
                    filter_mask(old(self).history@, opt_view(old(self).filter), old(self).filter_cat),
                ).len(),
            ),
            final(self).current_page == old(self).current_page,
    {
        let total = self.filtered_count();
        self.items_per_page = clamp_items_per_page(n, total);
    }
}

} // verus!
