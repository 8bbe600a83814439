use vstd::prelude::*;

use crate::text::{
    chars_of, contains, find_from, first_match_from, lacks, lemma_first_match_from,
    lemma_first_match_is, lemma_replaced_lacks, lemma_replaced_split, matches_at,
    lemma_replaced_absent, lemma_replaced_by_itself, push_char, push_chars, replace_all, replaced,
    string_of,
};

verus! {

pub open spec fn space() -> Seq<char> {
    seq![' ']
}

pub open spec fn crlf() -> Seq<char> {
    seq!['\r', '\n']
}

/// The separator between the header block and the body.
pub open spec fn blank_line() -> Seq<char> {
    seq!['\r', '\n', '\r', '\n']
}

pub open spec fn colon_space() -> Seq<char> {
    seq![':', ' ']
}

/// The token of a template that each payload replaces.
pub open spec fn placeholder() -> Seq<char> {
    seq!['$', '[', 'P', 'A', 'Y', 'L', 'O', 'A', 'D', ']', '$']
}

/// Text up to the first space.
pub open spec fn method_of(t: Seq<char>) -> Seq<char> {
    match first_match_from(t, space(), 0) {
        Some(i) => t.subrange(0, i),
        None => t,
    }
}

/// Text between the first and the second space.
pub open spec fn uri_of(t: Seq<char>) -> Seq<char> {
    match first_match_from(t, space(), 0) {
        Some(i) => match first_match_from(t, space(), i + 1) {
            Some(j) => t.subrange(i + 1, j),
            None => t.subrange(i + 1, t.len() as int),
        },
        None => Seq::empty(),
    }
}

/// Everything after the first blank line; empty where there is none.
pub open spec fn body_of(t: Seq<char>) -> Seq<char> {
    match first_match_from(t, blank_line(), 0) {
        Some(i) => t.subrange(i + 4, t.len() as int),
        None => Seq::empty(),
    }
}

/// A header line split once on `": "`; nothing for a line without one.
pub open spec fn header_of_line(l: Seq<char>) -> Seq<(Seq<char>, Seq<char>)> {
    match first_match_from(l, colon_space(), 0) {
        Some(j) => seq![(l.subrange(0, j), l.subrange(j + 2, l.len() as int))],
        None => Seq::empty(),
    }
}

/// Headers of the lines that start at `pos`, up to the first empty line.
pub open spec fn headers_from(t: Seq<char>, pos: int) -> Seq<(Seq<char>, Seq<char>)>
    decreases t.len() - pos via headers_from_decreases
{
    if pos < 0 || pos >= t.len() {
        Seq::empty()
    } else {
        match first_match_from(t, crlf(), pos) {
            Some(e) => if e <= pos {
                Seq::empty()
            } else {
                header_of_line(t.subrange(pos, e)) + headers_from(t, e + 2)
            },
            None => header_of_line(t.subrange(pos, t.len() as int)),
        }
    }
}

#[via_fn]
proof fn headers_from_decreases(t: Seq<char>, pos: int) {
    lemma_first_match_from(t, crlf(), pos);
}

/// Headers of the lines between the start line and the first empty line.
pub open spec fn headers_of(t: Seq<char>) -> Seq<(Seq<char>, Seq<char>)> {
    match first_match_from(t, crlf(), 0) {
        Some(i) => headers_from(t, i + 2),
        None => Seq::empty(),
    }
}

pub open spec fn scheme(ssl: bool) -> Seq<char> {
    if ssl {
        seq!['h', 't', 't', 'p', 's']
    } else {
        seq!['h', 't', 't', 'p']
    }
}

/// `scheme://target`, the part of a request's URL before its URI.
pub open spec fn url_prefix(ssl: bool, target: Seq<char>) -> Seq<char> {
    scheme(ssl) + seq![':', '/', '/'] + target
}

pub open spec fn pairs_view(v: Seq<(String, String)>) -> Seq<(Seq<char>, Seq<char>)> {
    v.map_values(|h: (String, String)| (h.0@, h.1@))
}

pub struct RequestView {
    pub idx: nat,
    pub url: Seq<char>,
    pub method: Seq<char>,
    pub body: Seq<char>,
    pub headers: Seq<(Seq<char>, Seq<char>)>,
}

/// The request that transcript `t` describes, as the `idx`-th of a run
/// against `target`.
pub open spec fn parsed_request(t: Seq<char>, idx: nat, ssl: bool, target: Seq<char>) -> RequestView {
    RequestView {
        idx,
        url: url_prefix(ssl, target) + uri_of(t),
        method: method_of(t),
        body: body_of(t),
        headers: headers_of(t),
    }
}

/// The request for payload `payload`: every placeholder of the template
/// replaced, then parsed.
pub open spec fn templated_request(
    template: Seq<char>,
    payload: Seq<char>,
    idx: nat,
    ssl: bool,
    target: Seq<char>,
) -> RequestView {
    parsed_request(replaced(template, placeholder(), payload), idx, ssl, target)
}

/// One concrete request of a run. Header names and values are kept as
/// written; they are validated only when the request is sent.
pub struct Request {
    pub idx: usize,
    pub url: String,
    pub method: String,
    pub body: String,
    pub headers: Vec<(String, String)>,
}

impl View for Request {
    type V = RequestView;

    open spec fn view(&self) -> RequestView {
        RequestView {
            idx: self.idx as nat,
            url: self.url@,
            method: self.method@,
            body: self.body@,
            headers: pairs_view(self.headers@),
        }
    }
}

pub open spec fn requests_view(v: Seq<Request>) -> Seq<RequestView> {
    v.map_values(|r: Request| r@)
}

pub fn placeholder_chars() -> (r: Vec<char>)
    ensures
        r@ == placeholder(),
{
    let r = vec!['$', '[', 'P', 'A', 'Y', 'L', 'O', 'A', 'D', ']', '$'];
    assert(r@ =~= placeholder());
    r
}

/// `v[lo..hi]` as a vector of its own.
pub fn slice_of(v: &Vec<char>, lo: usize, hi: usize) -> (r: Vec<char>)
    requires
        lo <= hi <= v.len(),
    ensures
        r@ == v@.subrange(lo as int, hi as int),
{
    let mut out: Vec<char> = Vec::new();
    let mut i = lo;
    while i < hi
        invariant
            lo <= i <= hi <= v.len(),
            out@ == v@.subrange(lo as int, i as int),
        decreases hi - i,
    {
        out.push(v[i]);
        i = i + 1;
        assert(out@ =~= v@.subrange(lo as int, i as int));
    }
    out
}

/// The method token of transcript `t`.
pub fn method_part(t: &Vec<char>) -> (r: String)
    ensures
        r@ == method_of(t@),
{
    let sp = vec![' '];
    assert(sp@ =~= space());
    match find_from(t, &sp, 0) {
        Some(i) => {
            proof {
                lemma_first_match_from(t@, space(), 0);
            }
            string_of(t, 0, i)
        },
        None => {
            assert(t@.subrange(0, t.len() as int) =~= t@);
            string_of(t, 0, t.len())
        },
    }
}

/// The URI token of transcript `t`.
pub fn uri_part(t: &Vec<char>) -> (r: String)
    ensures
        r@ == uri_of(t@),
{
    let n = t.len();
    let sp = vec![' '];
    assert(sp@ =~= space());
    match find_from(t, &sp, 0) {
        Some(i) => {
            proof {
                lemma_first_match_from(t@, space(), 0);
            }
            match find_from(t, &sp, i + 1) {
                Some(j) => {
                    proof {
                        lemma_first_match_from(t@, space(), i + 1);
                    }
                    string_of(t, i + 1, j)
                },
                None => string_of(t, i + 1, n),
            }
        },
        None => String::new(),
    }
}

/// The body of transcript `t`.
pub fn body_part(t: &Vec<char>) -> (r: String)
    ensures
        r@ == body_of(t@),
{
    let n = t.len();
    let sep = vec!['\r', '\n', '\r', '\n'];
    assert(sep@ =~= blank_line());
    match find_from(t, &sep, 0) {
        Some(i) => {
            proof {
                lemma_first_match_from(t@, blank_line(), 0);
            }
            string_of(t, i + 4, n)
        },
        None => String::new(),
    }
}

/// Appends the header of line `t[lo..hi]`, if it has one.
fn push_header_of_line(t: &Vec<char>, lo: usize, hi: usize, out: &mut Vec<(String, String)>)
    requires
        lo <= hi <= t.len(),
    ensures
        pairs_view(final(out)@) == pairs_view(old(out)@) + header_of_line(
            t@.subrange(lo as int, hi as int),
        ),
{
    let line = slice_of(t, lo, hi);
    let cs = vec![':', ' '];
    assert(cs@ =~= colon_space());
    match find_from(&line, &cs, 0) {
        Some(j) => {
            proof {
                lemma_first_match_from(line@, colon_space(), 0);
            }
            let name = string_of(&line, 0, j);
            let value = string_of(&line, j + 2, line.len());
            out.push((name, value));
            assert(pairs_view(out@) =~= pairs_view(old(out)@) + header_of_line(line@));
        },
        None => {
            assert(pairs_view(out@) =~= pairs_view(old(out)@) + header_of_line(line@));
        },
    }
}

/// The headers of transcript `t`, in order.
pub fn header_pairs(t: &Vec<char>) -> (r: Vec<(String, String)>)
    ensures
        pairs_view(r@) == headers_of(t@),
{
    let n = t.len();
    let nl = vec!['\r', '\n'];
    assert(nl@ =~= crlf());
    let mut out: Vec<(String, String)> = Vec::new();
    let first = find_from(t, &nl, 0);
    if first.is_none() {
        assert(pairs_view(out@) =~= Seq::empty());
        return out;
    }
    let i = first.unwrap();
    proof {
        lemma_first_match_from(t@, crlf(), 0);
    }
    let mut pos = i + 2;
    assert(pairs_view(out@) + headers_from(t@, pos as int) =~= headers_of(t@));
    loop
        invariant
            n == t.len(),
            nl@ == crlf(),
            pos <= n,
            pairs_view(out@) + headers_from(t@, pos as int) == headers_of(t@),
        decreases n - pos,
    {
        if pos >= n {
            assert(pairs_view(out@) + Seq::empty() =~= pairs_view(out@));
            return out;
        }
        let ghost before = pairs_view(out@);
        match find_from(t, &nl, pos) {
            Some(e) => {
                proof {
                    lemma_first_match_from(t@, crlf(), pos as int);
                }
                if e == pos {
                    assert(pairs_view(out@) + Seq::empty() =~= pairs_view(out@));
                    return out;
                }
                push_header_of_line(t, pos, e, &mut out);
                assert(before + (header_of_line(t@.subrange(pos as int, e as int)) + headers_from(
                    t@,
                    e + 2,
                )) =~= pairs_view(out@) + headers_from(t@, e + 2));
                pos = e + 2;
            },
            None => {
                push_header_of_line(t, pos, n, &mut out);
                return out;
            },
        }
    }
}

impl Request {
    /// A copy of `r`.
    pub fn from(r: &Request) -> (res: Request)
        ensures
            res@ == r@,
    {
        let mut headers: Vec<(String, String)> = Vec::new();
        let mut i: usize = 0;
        while i < r.headers.len()
            invariant
                i <= r.headers.len(),
                headers.len() == i,
                forall|k: int|
                    0 <= k < i ==> #[trigger] headers@[k].0@ == r.headers@[k].0@
                        && headers@[k].1@ == r.headers@[k].1@,
            decreases r.headers.len() - i,
        {
            let h = &r.headers[i];
            headers.push((h.0.clone(), h.1.clone()));
            i = i + 1;
        }
        assert(pairs_view(headers@) =~= pairs_view(r.headers@));
        Request {
            idx: r.idx,
            url: r.url.clone(),
            method: r.method.clone(),
            body: r.body.clone(),
            headers,
        }
    }

    /// The request that transcript `t` describes.
    pub fn parse(t: &Vec<char>, idx: usize, ssl: bool, target: &Vec<char>) -> (r: Request)
        ensures
            r@ == parsed_request(t@, idx as nat, ssl, target@),
    {
        let mut url = if ssl {
            let s = vec!['h', 't', 't', 'p', 's'];
            string_of(&s, 0, s.len())
        } else {
            let s = vec!['h', 't', 't', 'p'];
            string_of(&s, 0, s.len())
        };
        let sep = vec![':', '/', '/'];
        push_chars(&mut url, &sep);
        push_chars(&mut url, target);
        let uri = uri_part(t);
        let uri_chars = chars_of(uri.as_str());
        push_chars(&mut url, &uri_chars);
        assert(url@ =~= url_prefix(ssl, target@) + uri_of(t@));
        Request {
            idx,
            url,
            method: method_part(t),
            body: body_part(t),
            headers: header_pairs(t),
        }
    }

    /// One request per transcript, indexed by position.
    pub fn from_strings(v: Vec<String>, ssl: bool, target: String) -> (r: Vec<Request>)
        ensures
            r.len() == v.len(),
            forall|i: int|
                0 <= i < v.len() ==> #[trigger] r[i]@ == parsed_request(
                    v[i]@,
                    i as nat,
                    ssl,
                    target@,
                ),
    {
        let tv = chars_of(target.as_str());
        let mut out: Vec<Request> = Vec::new();
        let mut i: usize = 0;
        while i < v.len()
            invariant
                i <= v.len(),
                tv@ == target@,
                out.len() == i,
                forall|k: int|
                    0 <= k < i ==> #[trigger] out[k]@ == parsed_request(
                        v[k]@,
                        k as nat,
                        ssl,
                        target@,
                    ),
            decreases v.len() - i,
        {
            let t = chars_of(v[i].as_str());
            out.push(Request::parse(&t, i, ssl, &tv));
            i = i + 1;
        }
        out
    }

    /// One request per payload, each from `template` with every placeholder
    /// replaced by that payload, indexed by the payload's position.
    pub fn from_template(template: &str, payloads: &Vec<String>, ssl: bool, target: &str) -> (r:
        Vec<Request>)
        ensures
            r.len() == payloads.len(),
            forall|i: int|
                0 <= i < payloads.len() ==> #[trigger] r[i]@ == templated_request(
                    template@,
                    payloads[i]@,
                    i as nat,
                    ssl,
                    target@,
                ),
    {
        let tv = chars_of(target);
        let tpl = chars_of(template);
        let ph = placeholder_chars();
        let mut out: Vec<Request> = Vec::new();
        let mut i: usize = 0;
        while i < payloads.len()
            invariant
                i <= payloads.len(),
                tv@ == target@,
                tpl@ == template@,
                ph@ == placeholder(),
                out.len() == i,
                forall|k: int|
                    0 <= k < i ==> #[trigger] out[k]@ == templated_request(
                        template@,
                        payloads[k]@,
                        k as nat,
                        ssl,
                        target@,
                    ),
            decreases payloads.len() - i,
        {
            let p = chars_of(payloads[i].as_str());
            let t = replace_all(&tpl, &ph, &p);
            out.push(Request::parse(&t, i, ssl, &tv));
            i = i + 1;
        }
        out
    }
}

/// Templating then parsing recovers the transcript: where the template holds
/// no placeholder, the request for any payload has the template's own
/// method, body and headers, and its URL is `scheme://target` followed by
/// the template's URI. Templating with the placeholder itself as payload
/// recovers any template.
pub proof fn lemma_template_round_trip(
    template: Seq<char>,
    payload: Seq<char>,
    idx: nat,
    ssl: bool,
    target: Seq<char>,
)
    ensures
        !contains(template, placeholder()) ==> templated_request(
            template,
            payload,
            idx,
            ssl,
            target,
        ) == parsed_request(template, idx, ssl, target),
        templated_request(template, placeholder(), idx, ssl, target) == parsed_request(
            template,
            idx,
            ssl,
            target,
        ),
        ({
            let r = parsed_request(template, idx, ssl, target);
            let n = url_prefix(ssl, target).len();
            &&& r.url.subrange(0, n as int) == url_prefix(ssl, target)
            &&& r.url.subrange(n as int, r.url.len() as int) == uri_of(template)
            &&& r.method == method_of(template)
            &&& r.body == body_of(template)
        }),
{
    if !contains(template, placeholder()) {
        lemma_replaced_absent(template, placeholder(), payload);
    }
    lemma_replaced_by_itself(template, placeholder());
    let r = parsed_request(template, idx, ssl, target);
    let n = url_prefix(ssl, target).len();
    assert(r.url.subrange(0, n as int) =~= url_prefix(ssl, target));
    assert(r.url.subrange(n as int, r.url.len() as int) =~= uri_of(template));
}

/// Templating then parsing recovers the start line: for a template whose
/// start line begins with method `m` and URI `u`, neither holding a space,
/// and a payload without a space, the request's method is `m` and its URL is
/// `scheme://target` followed by `u`, each with its placeholders replaced.
pub proof fn lemma_template_recovers_start_line(
    m: Seq<char>,
    u: Seq<char>,
    rest: Seq<char>,
    payload: Seq<char>,
    idx: nat,
    ssl: bool,
    target: Seq<char>,
)
    requires
        lacks(m, ' '),
        lacks(u, ' '),
        lacks(payload, ' '),
    ensures
        templated_request(m + seq![' '] + u + seq![' '] + rest, payload, idx, ssl, target).method
            == replaced(m, placeholder(), payload),
        templated_request(m + seq![' '] + u + seq![' '] + rest, payload, idx, ssl, target).url
            == url_prefix(ssl, target) + replaced(u, placeholder(), payload),
{
    let ph = placeholder();
    assert(lacks(ph, ' '));
    let sp = seq![' '];
    assert(sp =~= space());
    let b = u + sp + rest;
    let t = m + sp + u + sp + rest;
    assert(t =~= m + sp + b);
    lemma_replaced_split(m, ' ', b, ph, payload);
    lemma_replaced_split(u, ' ', rest, ph, payload);
    lemma_replaced_lacks(m, ' ', ph, payload);
    lemma_replaced_lacks(u, ' ', ph, payload);
    let mm = replaced(m, ph, payload);
    let uu = replaced(u, ph, payload);
    let rr = replaced(rest, ph, payload);
    let x = replaced(t, ph, payload);
    assert(x =~= mm + sp + uu + sp + rr);
    let k1 = mm.len() as int;
    let k2 = k1 + 1 + uu.len();
    assert(x[k1] == ' ');
    assert(x.subrange(k1, k1 + 1) =~= space());
    assert forall|j: int| 0 <= j < k1 implies !matches_at(x, space(), j) by {
        assert(x[j] == mm[j]);
        if matches_at(x, space(), j) {
            assert(x.subrange(j, j + 1)[0] == ' ');
        }
    }
    lemma_first_match_is(x, space(), 0, k1);
    assert(x[k2] == ' ');
    assert(x.subrange(k2, k2 + 1) =~= space());
    assert forall|j: int| k1 + 1 <= j < k2 implies !matches_at(x, space(), j) by {
        assert(x[j] == uu[j - k1 - 1]);
        if matches_at(x, space(), j) {
            assert(x.subrange(j, j + 1)[0] == ' ');
        }
    }
    lemma_first_match_is(x, space(), k1 + 1, k2);
    assert(x.subrange(0, k1) =~= mm);
    assert(x.subrange(k1 + 1, k2) =~= uu);
}

/// Where the template holds no placeholder, the requests of two payloads
/// differ in their index alone.
pub proof fn lemma_absent_placeholder_same_request(
    template: Seq<char>,
    p: Seq<char>,
    q: Seq<char>,
    i: nat,
    j: nat,
    ssl: bool,
    target: Seq<char>,
)
    requires
        !contains(template, placeholder()),
    ensures
        templated_request(template, p, i, ssl, target) == (RequestView {
            idx: i,
            ..templated_request(template, q, j, ssl, target)
        }),
{
    lemma_replaced_absent(template, placeholder(), p);
    lemma_replaced_absent(template, placeholder(), q);
}

/// The raw lines that start at `pos`, up to the first empty line.
pub open spec fn header_lines_from(t: Seq<char>, pos: int) -> Seq<Seq<char>>
    decreases t.len() - pos via header_lines_from_decreases
{
    if pos < 0 || pos >= t.len() {
        Seq::empty()
    } else {
        match first_match_from(t, crlf(), pos) {
            Some(e) => if e <= pos {
                Seq::empty()
            } else {
                seq![t.subrange(pos, e)] + header_lines_from(t, e + 2)
            },
            None => seq![t.subrange(pos, t.len() as int)],
        }
    }
}

#[via_fn]
proof fn header_lines_from_decreases(t: Seq<char>, pos: int) {
    lemma_first_match_from(t, crlf(), pos);
}

/// The raw header lines of transcript `t`.
pub open spec fn header_lines(t: Seq<char>) -> Seq<Seq<char>> {
    match first_match_from(t, crlf(), 0) {
        Some(i) => header_lines_from(t, i + 2),
        None => Seq::empty(),
    }
}

/// The text between the first and the second blank line.
pub open spec fn body_segment(t: Seq<char>) -> Seq<char> {
    match first_match_from(t, blank_line(), 0) {
        Some(i) => match first_match_from(t, blank_line(), i + 4) {
            Some(j) => t.subrange(i + 4, j),
            None => t.subrange(i + 4, t.len() as int),
        },
        None => Seq::empty(),
    }
}

/// `" -H 'line'"` for each line.
pub open spec fn header_flags(lines: Seq<Seq<char>>) -> Seq<char>
    decreases lines.len(),
{
    if lines.len() == 0 {
        Seq::empty()
    } else {
        header_flags(lines.drop_last()) + " -H '"@ + lines.last() + "'"@
    }
}

/// A curl command line that sends transcript `t` to `target`.
pub open spec fn curl_spec(t: Seq<char>, ssl: bool, target: Seq<char>) -> Seq<char> {
    "curl '"@ + url_prefix(ssl, target) + uri_of(t) + "' -X '"@ + method_of(t) + "' --data '"@
        + body_segment(t) + "'"@ + header_flags(header_lines(t))
}

/// Appends `" -H 'line'"` for each raw header line of `t` to `out`.
fn push_header_flags(t: &Vec<char>, out: &mut String)
    ensures
        final(out)@ == old(out)@ + header_flags(header_lines(t@)),
{
    let n = t.len();
    let nl = vec!['\r', '\n'];
    assert(nl@ =~= crlf());
    let first = find_from(t, &nl, 0);
    if first.is_none() {
        assert(old(out)@ + Seq::empty() =~= old(out)@);
        return;
    }
    let i = first.unwrap();
    proof {
        lemma_first_match_from(t@, crlf(), 0);
    }
    let mut pos = i + 2;
    let ghost mut done: Seq<Seq<char>> = Seq::empty();
    assert(done + header_lines_from(t@, pos as int) =~= header_lines(t@));
    loop
        invariant
            n == t.len(),
            nl@ == crlf(),
            pos <= n,
            done + header_lines_from(t@, pos as int) == header_lines(t@),
            out@ == old(out)@ + header_flags(done),
        decreases n - pos,
    {
        if pos >= n {
            assert(done + Seq::empty() =~= done);
            return;
        }
        let end = match find_from(t, &nl, pos) {
            Some(e) => {
                proof {
                    lemma_first_match_from(t@, crlf(), pos as int);
                }
                if e == pos {
                    assert(done + Seq::empty() =~= done);
                    return;
                }
                e
            },
            None => n,
        };
        let ghost line = t@.subrange(pos as int, end as int);
        push_chars(out, &chars_of(" -H '"));
        let mut k = pos;
        while k < end
            invariant
                pos <= k <= end <= n == t.len(),
                out@ == old(out)@ + header_flags(done) + " -H '"@ + t@.subrange(
                    pos as int,
                    k as int,
                ),
            decreases end - k,
        {
            push_char(out, t[k]);
            k = k + 1;
            assert(out@ =~= old(out)@ + header_flags(done) + " -H '"@ + t@.subrange(
                pos as int,
                k as int,
            ));
        }
        push_chars(out, &chars_of("'"));
        let ghost next = done.push(line);
        assert(next.drop_last() =~= done);
        assert(out@ =~= old(out)@ + header_flags(next));
        if end == n {
            assert(header_lines_from(t@, pos as int) == seq![line]);
            assert(next =~= header_lines(t@));
            return;
        }
        assert(next + header_lines_from(t@, end + 2) =~= done + header_lines_from(t@, pos as int));
        proof {
            done = next;
        }
        pos = end + 2;
    }
}

/// The curl command line that sends transcript `content` to `target`.
pub fn curl_command(content: &str, ssl: bool, target: &str) -> (r: String)
    ensures
        r@ == curl_spec(content@, ssl, target@),
{
    let t = chars_of(content);
    let n = t.len();
    let mut out = String::new();
    push_chars(&mut out, &chars_of("curl '"));
    if ssl {
        push_chars(&mut out, &chars_of("https"));
    } else {
        push_chars(&mut out, &chars_of("http"));
    }
    proof {
        reveal_strlit("https");
        reveal_strlit("http");
    }
    push_chars(&mut out, &chars_of("://"));
    proof {
        reveal_strlit("://");
    }
    push_chars(&mut out, &chars_of(target));
    push_chars(&mut out, &chars_of(uri_part(&t).as_str()));
    push_chars(&mut out, &chars_of("' -X '"));
    push_chars(&mut out, &chars_of(method_part(&t).as_str()));
    push_chars(&mut out, &chars_of("' --data '"));
    let sep = vec!['\r', '\n', '\r', '\n'];
    assert(sep@ =~= blank_line());
    let body = match find_from(&t, &sep, 0) {
        Some(i) => {
            proof {
                lemma_first_match_from(t@, blank_line(), 0);
            }
            match find_from(&t, &sep, i + 4) {
                Some(j) => {
                    proof {
                        lemma_first_match_from(t@, blank_line(), i + 4);
                    }
                    string_of(&t, i + 4, j)
                },
                None => string_of(&t, i + 4, n),
            }
        },
        None => String::new(),
    };
    push_chars(&mut out, &chars_of(body.as_str()));
    push_chars(&mut out, &chars_of("'"));
    push_header_flags(&t, &mut out);
    assert(out@ =~= curl_spec(content@, ssl, target@));
    out
}

} // verus!
