use vstd::prelude::*;

use crate::coordinator::{
    RunCoordinator, RunResult, RunResultView, response_spec, results_view, status_or_error,
};
use crate::filter::opt_view;
use crate::history::HistLine;
use crate::page::{
    MIN_ITEMS_PER_PAGE, clamp_items_per_page, clamped_per_page, count_selected, next_page,
    next_page_spec, previous_page, selected, visible, visible_indices,
};
use crate::partition::{batch_size_spec, chunked};
use crate::request::{
    Request, RequestView, parsed_request, placeholder, placeholder_chars, requests_view,
    templated_request,
};
use crate::text::{
    chars_of, contains, decimal, find_from, str_contains, push_chars, push_decimal, first_match_from, is_white_space_char, lemma_first_match_from,
    replace_all, replace_str, replaced, string_of, trim_end_range, trimmed_end,
};

verus! {

/// Which pane of an inspector is shown. Changes only on a user's choice.
#[derive(Debug, PartialEq, Eq, Structural, Clone, Copy)]
pub enum ActiveInspectorMenu {
    Default,
    Repeater,
    Intruder,
}

impl Default for ActiveInspectorMenu {
    fn default() -> (r: ActiveInspectorMenu)
        ensures
            r == ActiveInspectorMenu::Default,
    {
        ActiveInspectorMenu::Default
    }
}

pub open spec fn newline() -> Seq<char> {
    seq!['\n']
}

/// The pieces of `s` from `pos` on, cut at each `'\n'`.
pub open spec fn lines_from(s: Seq<char>, pos: int) -> Seq<Seq<char>>
    decreases s.len() - pos via lines_from_decreases
{
    if pos < 0 || pos > s.len() {
        Seq::empty()
    } else {
        match first_match_from(s, newline(), pos) {
            Some(e) => seq![s.subrange(pos, e)] + lines_from(s, e + 1),
            None => seq![s.subrange(pos, s.len() as int)],
        }
    }
}

#[via_fn]
proof fn lines_from_decreases(s: Seq<char>, pos: int) {
    lemma_first_match_from(s, newline(), pos);
}

pub open spec fn trim_each(lines: Seq<Seq<char>>) -> Seq<Seq<char>> {
    lines.map_values(|l: Seq<char>| trimmed_end(l))
}

/// The payloads a payload list holds: the text without trailing white
/// space, one payload per line, each without trailing white space.
pub open spec fn payload_list(content: Seq<char>) -> Seq<Seq<char>> {
    trim_each(lines_from(trimmed_end(content), 0))
}

pub open spec fn strings_view(v: Seq<String>) -> Seq<Seq<char>> {
    v.map_values(|s: String| s@)
}

/// A request as the editor shows it: each carriage return written out as
/// the four characters `\r\n`.
pub open spec fn escaped(s: Seq<char>) -> Seq<char> {
    replaced(s, "\r"@, "\\r\\n"@)
}

/// The inverse of `escaped` on edited text: each written-out `\r\n` back to
/// a carriage return.
pub open spec fn unescaped(s: Seq<char>) -> Seq<char> {
    replaced(s, "\\r\\n"@, "\r"@)
}

pub fn escape_request(s: &str) -> (r: String)
    ensures
        r@ == escaped(s@),
{
    proof {
        reveal_strlit("\r");
    }
    replace_str(s, "\r", "\\r\\n")
}

pub fn unescape_request(s: &str) -> (r: String)
    ensures
        r@ == unescaped(s@),
{
    proof {
        reveal_strlit("\\r\\n");
    }
    replace_str(s, "\\r\\n", "\r")
}

/// The payloads of a payload list.
pub fn payloads_from_text(content: &str) -> (r: Vec<String>)
    ensures
        strings_view(r@) == payload_list(content@),
{
    let v = chars_of(content);
    let mut end = v.len();
    assert(v@.subrange(0, v.len() as int) =~= v@);
    while end > 0 && is_white_space_char(v[end - 1])
        invariant
            end <= v.len(),
            trimmed_end(v@) == trimmed_end(v@.subrange(0, end as int)),
        decreases end,
    {
        assert(v@.subrange(0, end as int).drop_last() =~= v@.subrange(0, end - 1));
        end = end - 1;
    }
    let mut t: Vec<char> = Vec::new();
    let mut i: usize = 0;
    while i < end
        invariant
            i <= end <= v.len(),
            t@ == v@.subrange(0, i as int),
        decreases end - i,
    {
        t.push(v[i]);
        i = i + 1;
        assert(t@ =~= v@.subrange(0, i as int));
    }
    assert(t@ == trimmed_end(v@));
    let nl = vec!['\n'];
    assert(nl@ =~= newline());
    let n = t.len();
    let mut out: Vec<String> = Vec::new();
    let mut pos: usize = 0;
    assert(strings_view(out@) + trim_each(lines_from(t@, 0)) =~= payload_list(content@));
    loop
        invariant
            n == t.len(),
            nl@ == newline(),
            pos <= n,
            strings_view(out@) + trim_each(lines_from(t@, pos as int)) == payload_list(content@),
        decreases n - pos,
    {
        let ghost before = strings_view(out@);
        match find_from(&t, &nl, pos) {
            Some(e) => {
                proof {
                    lemma_first_match_from(t@, newline(), pos as int);
                }
                let line = trim_end_range(&t, pos, e);
                out.push(line);
                let ghost rest = lines_from(t@, e + 1);
                assert(trim_each(seq![t@.subrange(pos as int, e as int)] + rest) =~= seq![
                    trimmed_end(t@.subrange(pos as int, e as int)),
                ] + trim_each(rest));
                assert(strings_view(out@) =~= before.push(
                    trimmed_end(t@.subrange(pos as int, e as int)),
                ));
                assert(before + (seq![trimmed_end(t@.subrange(pos as int, e as int))] + trim_each(
                    rest,
                )) =~= strings_view(out@) + trim_each(rest));
                pos = e + 1;
            },
            None => {
                let line = trim_end_range(&t, pos, n);
                out.push(line);
                assert(trim_each(seq![t@.subrange(pos as int, n as int)]) =~= seq![
                    trimmed_end(t@.subrange(pos as int, n as int)),
                ]);
                assert(strings_view(out@) =~= before + trim_each(lines_from(t@, pos as int)));
                return out;
            },
        }
    }
}

/// The requests of an intruder run with template `template` (as edited)
/// and payloads `payloads`.
pub open spec fn intruder_views(
    template: Seq<char>,
    payloads: Seq<String>,
    ssl: bool,
    target: Seq<char>,
) -> Seq<RequestView> {
    Seq::new(
        payloads.len(),
        |i: int| templated_request(unescaped(template), payloads[i]@, i as nat, ssl, target),
    )
}

/// The payload of request `i`; empty when there is none.
pub open spec fn payload_at(payloads: Seq<String>, i: nat) -> Seq<char> {
    if i < payloads.len() {
        payloads[i as int]@
    } else {
        Seq::empty()
    }
}

/// Whether a result passes filter text `f`: its status (or error) or its
/// payload holds the text. No text keeps all.
pub open spec fn result_matches(r: RunResultView, payload: Seq<char>, f: Option<Seq<char>>) -> bool {
    match f {
        None => true,
        Some(t) => contains(status_or_error(r), t) || contains(payload, t),
    }
}

/// Which results pass filter `f`.
pub open spec fn results_mask(
    results: Seq<RunResultView>,
    payloads: Seq<String>,
    f: Option<Seq<char>>,
) -> Seq<bool> {
    Seq::new(
        results.len(),
        |i: int| result_matches(results[i], payload_at(payloads, results[i].index()), f),
    )
}

/// One inspected transaction, with its three panes: the recorded exchange,
/// a repeater that edits and resends it, and an intruder that replays it
/// once per payload.
pub struct Inspector {
    pub id: usize,
    pub source: String,
    pub request: String,
    pub response: String,
    pub modified_request: String,
    pub new_response: String,
    pub repeater_pending: bool,
    pub ssl: bool,
    pub selected: Option<usize>,
    pub target: String,
    pub active_window: ActiveInspectorMenu,
    pub is_active: bool,
    pub is_minimized: bool,
    pub bf_payload: Vec<String>,
    pub bf_request: String,
    pub bf_runs: RunCoordinator,
    pub bf_current_page: usize,
    pub bf_items_per_page: usize,
    pub bf_filter_input: String,
    pub bf_filter: Option<String>,
}

pub open spec fn bool_text(b: bool) -> Seq<char> {
    if b {
        "true"@
    } else {
        "false"@
    }
}

pub open spec fn menu_text(m: ActiveInspectorMenu) -> Seq<char> {
    match m {
        ActiveInspectorMenu::Default => "Default"@,
        ActiveInspectorMenu::Repeater => "Repeater"@,
        ActiveInspectorMenu::Intruder => "Intruder"@,
    }
}

fn push_bool(s: &mut String, b: bool)
    ensures
        final(s)@ == old(s)@ + bool_text(b),
{
    if b {
        push_chars(s, &chars_of("true"));
    } else {
        push_chars(s, &chars_of("false"));
    }
}

impl Inspector {
    /// A one-line summary: id, source, and the window's state.
    pub open spec fn description(&self) -> Seq<char> {
        "Inspector #"@ + decimal(self.id as nat) + " source: "@ + self.source@ + " is_active: "@
            + bool_text(self.is_active) + " is_minimized: "@ + bool_text(self.is_minimized)
            + " active_window: "@ + menu_text(self.active_window) + " "@
    }

    pub fn describe(&self) -> (r: String)
        ensures
            r@ == self.description(),
    {
        let mut s = String::new();
        push_chars(&mut s, &chars_of("Inspector #"));
        push_decimal(&mut s, self.id);
        push_chars(&mut s, &chars_of(" source: "));
        push_chars(&mut s, &chars_of(self.source.as_str()));
        push_chars(&mut s, &chars_of(" is_active: "));
        push_bool(&mut s, self.is_active);
        push_chars(&mut s, &chars_of(" is_minimized: "));
        push_bool(&mut s, self.is_minimized);
        push_chars(&mut s, &chars_of(" active_window: "));
        match self.active_window {
            ActiveInspectorMenu::Default => push_chars(&mut s, &chars_of("Default")),
            ActiveInspectorMenu::Repeater => push_chars(&mut s, &chars_of("Repeater")),
            ActiveInspectorMenu::Intruder => push_chars(&mut s, &chars_of("Intruder")),
        }
        push_chars(&mut s, &chars_of(" "));
        assert(s@ =~= self.description());
        s
    }

    /// A fresh inspector of recorded line `h`, showing its default pane.
    pub fn from_histline(h: &HistLine) -> (r: Inspector)
        ensures
            r.id == h.id,
            r.source == h.remote_addr,
            r.request == h.raw,
            r.response == h.response,
            r.modified_request == h.raw,
            r.new_response == h.response,
            r.bf_request == h.raw,
            r.ssl == h.ssl,
            r.target == h.host,
            r.is_active,
            !r.is_minimized,
            !r.repeater_pending,
            r.active_window == ActiveInspectorMenu::Default,
            r.selected is None,
            r.bf_payload@ == Seq::<String>::empty(),
            r.bf_runs.wf(),
            r.bf_runs@.results == Seq::<crate::coordinator::RunResultView>::empty(),
            r.bf_runs@.pending == Set::<u64>::empty(),
            r.bf_runs@.next_task == 0,
            r.bf_current_page == 0,
            r.bf_items_per_page == MIN_ITEMS_PER_PAGE,
    {
        Inspector {
            id: h.id,
            source: h.remote_addr.clone(),
            request: h.raw.clone(),
            response: h.response.clone(),
            modified_request: h.raw.clone(),
            new_response: h.response.clone(),
            repeater_pending: false,
            ssl: h.ssl,
            selected: None,
            target: h.host.clone(),
            active_window: ActiveInspectorMenu::Default,
            is_active: true,
            is_minimized: false,
            bf_payload: Vec::new(),
            bf_request: h.raw.clone(),
            bf_runs: RunCoordinator::new(),
            bf_current_page: 0,
            bf_items_per_page: MIN_ITEMS_PER_PAGE,
            bf_filter_input: String::new(),
            bf_filter: None,
        }
    }

    /// Shows pane `menu`.
    pub fn switch_to(&mut self, menu: ActiveInspectorMenu)
        ensures
            *final(self) == (Inspector { active_window: menu, ..*old(self) }),
    {
        self.active_window = menu;
    }

    /// The repeater starts over from the recorded exchange.
    pub fn reset_repeater(&mut self)
        ensures
            final(self).modified_request@ == escaped(old(self).request@),
            final(self).new_response == old(self).response,
            final(self).request == old(self).request,
            final(self).bf_request == old(self).bf_request,
    {
        self.modified_request = escape_request(self.request.as_str());
        self.new_response = self.response.clone();
    }

    /// The intruder's template starts over from the recorded request.
    pub fn reset_intruder(&mut self)
        ensures
            final(self).bf_request@ == escaped(old(self).request@),
            final(self).request == old(self).request,
            final(self).bf_payload == old(self).bf_payload,
    {
        self.bf_request = escape_request(self.request.as_str());
    }

    /// Replaces the payloads by those of payload list `content`.
    pub fn load_payloads(&mut self, content: &str)
        ensures
            strings_view(final(self).bf_payload@) == payload_list(content@),
            final(self).bf_request == old(self).bf_request,
    {
        self.bf_payload = payloads_from_text(content);
    }

    /// The request the repeater sends: the edited text, unescaped, parsed.
    pub fn repeater_request(&self) -> (r: Request)
        ensures
            r@ == parsed_request(unescaped(self.modified_request@), 0, self.ssl, self.target@),
    {
        let text = unescape_request(self.modified_request.as_str());
        let t = chars_of(text.as_str());
        let target = chars_of(self.target.as_str());
        Request::parse(&t, 0, self.ssl, &target)
    }

    /// The requests of an intruder run: one per payload, from the unescaped
    /// template.
    pub fn intruder_requests(&self) -> (r: Vec<Request>)
        ensures
            r.len() == self.bf_payload.len(),
            forall|i: int|
                0 <= i < self.bf_payload.len() ==> #[trigger] r[i]@ == templated_request(
                    unescaped(self.bf_request@),
                    self.bf_payload[i]@,
                    i as nat,
                    self.ssl,
                    self.target@,
                ),
    {
        let template = unescape_request(self.bf_request.as_str());
        Request::from_template(template.as_str(), &self.bf_payload, self.ssl, self.target.as_str())
    }

    /// Starts an intruder run: one request per payload, cut into chunks,
    /// each chunk a pending task. Returns the tasks to execute; `None`, with
    /// nothing changed, when task ids would run out.
    pub fn send_intruder(&mut self) -> (r: Option<Vec<(u64, Vec<Request>)>>)
        requires
            old(self).bf_runs.wf(),
        ensures
            final(self).bf_runs.wf(),
            final(self).bf_runs@.results == old(self).bf_runs@.results,
            final(self).bf_payload == old(self).bf_payload,
            match r {
                Some(tasks) => {
                    let cs = chunked(
                        intruder_views(
                            old(self).bf_request@,
                            old(self).bf_payload@,
                            old(self).ssl,
                            old(self).target@,
                        ),
                        batch_size_spec(old(self).bf_payload.len() as nat),
                    );
                    &&& tasks.len() == cs.len()
                    &&& final(self).bf_runs@.next_task == old(self).bf_runs@.next_task + cs.len()
                    &&& forall|j: int|
                        0 <= j < tasks.len() ==> (#[trigger] tasks[j]).0 as nat
                            == old(self).bf_runs@.next_task + j
                            && final(self).bf_runs@.pending.contains(tasks[j].0)
                            && requests_view(tasks[j].1@) == cs[j]
                    &&& forall|t: u64|
                        #[trigger] final(self).bf_runs@.pending.contains(t) <==> (old(self).bf_runs@.pending.contains(t) || (old(self).bf_runs@.next_task
                            <= t as nat && (t as nat) < final(self).bf_runs@.next_task))
                },
                None => final(self).bf_runs@ == old(self).bf_runs@,
            },
            r is None <==> old(self).bf_runs@.next_task + chunked(
                intruder_views(
                    old(self).bf_request@,
                    old(self).bf_payload@,
                    old(self).ssl,
                    old(self).target@,
                ),
                batch_size_spec(old(self).bf_payload.len() as nat),
            ).len() > u64::MAX,
    {
        let requests = self.intruder_requests();
        assert(requests_view(requests@) =~= intruder_views(
            self.bf_request@,
            self.bf_payload@,
            self.ssl,
            self.target@,
        ));
        let r = self.bf_runs.dispatch(&requests);
        match &r {
            Some(tasks) => {
                assert forall|j: int| 0 <= j < tasks.len() implies (#[trigger] tasks[j]).0 as nat
                    == old(self).bf_runs@.next_task + j && self.bf_runs@.pending.contains(
                    tasks[j].0,
                ) by {
                    assert(self.bf_runs@.pending.contains(tasks[j].0));
                }
            },
            None => {},
        }
        r
    }

    /// The payload that request `index` of a run was made from.
    pub fn payload_for(&self, index: usize) -> (r: Option<String>)
        ensures
            match r {
                Some(p) => index < self.bf_payload.len() && p == self.bf_payload[index as int],
                None => index >= self.bf_payload.len(),
            },
    {
        if index < self.bf_payload.len() {
            Some(self.bf_payload[index].clone())
        } else {
            None
        }
    }

    /// A fresh inspector of one result of this inspector's run: its request
    /// is the template with the result's payload in place, its response the
    /// result's. `None` when the result names no payload.
    pub fn from_result(&self, r: &RunResult) -> (res: Option<Inspector>)
        ensures
            match res {
                Some(ins) => {
                    &&& r@.index() < self.bf_payload.len()
                    &&& ins.id as nat == r@.index()
                    &&& ins.request@ == replaced(
                        self.bf_request@,
                        placeholder(),
                        self.bf_payload[r@.index() as int]@,
                    )
                    &&& ins.response@ == response_spec(r@)
                    &&& ins.new_response@ == response_spec(r@)
                    &&& ins.modified_request@ == escaped(ins.request@)
                    &&& ins.bf_request@ == escaped(ins.request@)
                    &&& ins.source@ == "RustyProxy"@
                    &&& ins.ssl == self.ssl
                    &&& ins.target == self.target
                    &&& ins.is_active
                    &&& ins.bf_runs.wf()
                },
                None => r@.index() >= self.bf_payload.len(),
            },
    {
        let index = r.index();
        if index >= self.bf_payload.len() {
            return None;
        }
        let tpl = chars_of(self.bf_request.as_str());
        let ph = placeholder_chars();
        let p = chars_of(self.bf_payload[index].as_str());
        let rv = replace_all(&tpl, &ph, &p);
        let request = string_of(&rv, 0, rv.len());
        let response = r.response_text();
        let escaped_request = escape_request(request.as_str());
        Some(Inspector {
            id: index,
            source: "RustyProxy".to_owned(),
            request,
            response: response.clone(),
            modified_request: escaped_request.clone(),
            new_response: response,
            repeater_pending: false,
            ssl: self.ssl,
            selected: None,
            target: self.target.clone(),
            active_window: ActiveInspectorMenu::Default,
            is_active: true,
            is_minimized: false,
            bf_payload: Vec::new(),
            bf_request: escaped_request,
            bf_runs: RunCoordinator::new(),
            bf_current_page: 0,
            bf_items_per_page: MIN_ITEMS_PER_PAGE,
            bf_filter_input: String::new(),
            bf_filter: None,
        })
    }

    /// The filtered results.
    pub open spec fn mask(&self) -> Seq<bool> {
        results_mask(self.bf_runs@.results, self.bf_payload@, opt_view(self.bf_filter))
    }

    /// Whether each result passes the results filter.
    pub fn results_mask(&self) -> (r: Vec<bool>)
        ensures
            r@ == self.mask(),
    {
        let results = self.bf_runs.results();
        let mut out: Vec<bool> = Vec::new();
        let mut i: usize = 0;
        while i < results.len()
            invariant
                i <= results.len(),
                results_view(results@) == self.bf_runs@.results,
                out.len() == i,
                forall|k: int| 0 <= k < i ==> #[trigger] out@[k] == self.mask()[k],
            decreases results.len() - i,
        {
            let r = &results[i];
            assert(self.bf_runs@.results[i as int] == r@);
            let keep = match &self.bf_filter {
                None => true,
                Some(t) => {
                    let idx = r.index();
                    let payload = if idx < self.bf_payload.len() {
                        str_contains(self.bf_payload[idx].as_str(), t.as_str())
                    } else {
                        proof {
                            reveal_strlit("");
                        }
                        assert(""@ =~= payload_at(self.bf_payload@, idx as nat));
                        str_contains("", t.as_str())
                    };
                    assert(payload == contains(payload_at(self.bf_payload@, r@.index()), t@));
                    str_contains(r.status_or_error().as_str(), t.as_str()) || payload
                },
            };
            assert(keep == self.mask()[i as int]);
            out.push(keep);
            i = i + 1;
        }
        assert(out@ =~= self.mask());
        out
    }

    /// Number of results that pass the results filter.
    pub fn filtered_results(&self) -> (r: usize)
        ensures
            r == selected(self.mask()).len(),
    {
        let mask = self.results_mask();
        count_selected(&mask)
    }

    /// Positions in the run's results of those on the current page, after
    /// the results filter.
    pub fn visible_results(&self) -> (r: Vec<usize>)
        ensures
            r@.map_values(|i: usize| i as int) == visible(
                self.mask(),
                self.bf_current_page as nat,
                self.bf_items_per_page as nat,
            ),
    {
        let mask = self.results_mask();
        visible_indices(&mask, self.bf_current_page, self.bf_items_per_page)
    }

    /// Moves to the next results page while filtered results remain beyond
    /// it.
    pub fn results_next_page(&mut self)
        requires
            old(self).bf_items_per_page >= 1,
        ensures
            final(self).bf_current_page as nat == next_page_spec(
                old(self).bf_current_page as nat,
                old(self).bf_items_per_page as nat,
                selected(old(self).mask()).len(),
            ),
            final(self).bf_items_per_page == old(self).bf_items_per_page,
            final(self).bf_runs@ == old(self).bf_runs@,
            final(self).bf_filter == old(self).bf_filter,
    {
        let n = self.filtered_results();
        self.bf_current_page = next_page(self.bf_current_page, self.bf_items_per_page, n);
    }

    /// Moves to the previous results page; page 0 stays.
    pub fn results_previous_page(&mut self)
        ensures
            final(self).bf_current_page == (if old(self).bf_current_page == 0 {
                0
            } else {
                old(self).bf_current_page - 1
            }),
            final(self).bf_runs@ == old(self).bf_runs@,
    {
        self.bf_current_page = previous_page(self.bf_current_page);
    }

    /// Sets the results page size, held within `[10, filtered count]`.
    pub fn set_results_per_page(&mut self, n: usize)
        ensures
            final(self).bf_items_per_page as nat == clamped_per_page(
                n as nat,
                selected(old(self).mask()).len(),
            ),
            final(self).bf_current_page == old(self).bf_current_page,
            final(self).bf_runs@ == old(self).bf_runs@,
    {
        let total = self.filtered_results();
        self.bf_items_per_page = clamp_items_per_page(n, total);
    }
}

} // verus!
