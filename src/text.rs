use vstd::prelude::*;

verus! {

/// `p` occurs in `s` starting at position `i`.
pub open spec fn matches_at(s: Seq<char>, p: Seq<char>, i: int) -> bool {
    0 <= i && i + p.len() <= s.len() && s.subrange(i, i + p.len()) == p
}

/// The leftmost position `>= i` at which `p` occurs in `s`.
pub open spec fn first_match_from(s: Seq<char>, p: Seq<char>, i: int) -> Option<int>
    decreases s.len() + 1 - i,
{
    if i < 0 || i + p.len() > s.len() {
        None
    } else if matches_at(s, p, i) {
        Some(i)
    } else {
        first_match_from(s, p, i + 1)
    }
}

/// `p` occurs somewhere in `s`.
pub open spec fn contains(s: Seq<char>, p: Seq<char>) -> bool {
    first_match_from(s, p, 0) is Some
}

/// Every non-overlapping occurrence of `p` in `s`, scanned from the left,
/// replaced by `r`.
pub open spec fn replaced(s: Seq<char>, p: Seq<char>, r: Seq<char>) -> Seq<char>
    decreases s.len(),
{
    if p.len() == 0 || s.len() < p.len() {
        s
    } else if s.subrange(0, p.len() as int) == p {
        r + replaced(s.subrange(p.len() as int, s.len() as int), p, r)
    } else {
        seq![s[0]] + replaced(s.subrange(1, s.len() as int), p, r)
    }
}

/// The decimal digit for `d < 10`.
pub open spec fn digit_char(d: nat) -> char {
    if d == 0 { '0' }
    else if d == 1 { '1' }
    else if d == 2 { '2' }
    else if d == 3 { '3' }
    else if d == 4 { '4' }
    else if d == 5 { '5' }
    else if d == 6 { '6' }
    else if d == 7 { '7' }
    else if d == 8 { '8' }
    else { '9' }
}

/// The decimal rendering of `n`, without leading zeros.
pub open spec fn decimal(n: nat) -> Seq<char>
    decreases n,
{
    if n < 10 {
        seq![digit_char(n)]
    } else {
        decimal(n / 10).push(digit_char(n % 10))
    }
}

pub open spec fn is_digit(c: char) -> bool {
    '0' <= c && c <= '9'
}

pub open spec fn digit_value(c: char) -> nat {
    (c as u32 - '0' as u32) as nat
}

/// The value of a sequence of decimal digits.
pub open spec fn digits_value(s: Seq<char>) -> nat
    decreases s.len(),
{
    if s.len() == 0 {
        0
    } else {
        digits_value(s.drop_last()) * 10 + digit_value(s.last())
    }
}

/// `s` without one leading `+`.
pub open spec fn unsigned_digits(s: Seq<char>) -> Seq<char> {
    if s.len() > 0 && s[0] == '+' {
        s.subrange(1, s.len() as int)
    } else {
        s
    }
}

/// Unsigned decimal number: one optional `+`, then at least one digit, with
/// a value that fits in `usize`.
pub open spec fn parsed_usize(s: Seq<char>) -> Option<nat> {
    let d = unsigned_digits(s);
    if d.len() > 0 && (forall|i: int| 0 <= i < d.len() ==> is_digit(#[trigger] d[i]))
        && digits_value(d) <= usize::MAX {
        Some(digits_value(d))
    } else {
        None
    }
}

/// Unicode `White_Space`.
pub open spec fn is_white_space(c: char) -> bool {
    ('\t' <= c && c <= '\r') || c == ' ' || c == '\u{85}' || c == '\u{a0}' || c == '\u{1680}'
        || ('\u{2000}' <= c && c <= '\u{200a}') || c == '\u{2028}' || c == '\u{2029}'
        || c == '\u{202f}' || c == '\u{205f}' || c == '\u{3000}'
}

/// `s` without its trailing white space.
pub open spec fn trimmed_end(s: Seq<char>) -> Seq<char>
    decreases s.len(),
{
    if s.len() > 0 && is_white_space(s.last()) {
        trimmed_end(s.drop_last())
    } else {
        s
    }
}

pub proof fn lemma_first_match_from(s: Seq<char>, p: Seq<char>, i: int)
    ensures
        match first_match_from(s, p, i) {
            Some(k) => i <= k && matches_at(s, p, k) && forall|j: int|
                i <= j < k ==> !matches_at(s, p, j),
            None => i >= 0 ==> forall|j: int| i <= j ==> !matches_at(s, p, j),
        },
    decreases s.len() + 1 - i,
{
    if i < 0 || i + p.len() > s.len() {
    } else if matches_at(s, p, i) {
    } else {
        lemma_first_match_from(s, p, i + 1);
    }
}

/// Replacing a pattern that does not occur changes nothing.
pub proof fn lemma_replaced_absent(s: Seq<char>, p: Seq<char>, r: Seq<char>)
    requires
        !contains(s, p),
    ensures
        replaced(s, p, r) == s,
    decreases s.len(),
{
    lemma_first_match_from(s, p, 0);
    if p.len() == 0 || s.len() < p.len() {
    } else {
        assert(!matches_at(s, p, 0));
        let t = s.subrange(1, s.len() as int);
        lemma_first_match_from(t, p, 0);
        if contains(t, p) {
            let k = first_match_from(t, p, 0)->0;
            assert(s.subrange(k + 1, k + 1 + p.len()) =~= t.subrange(k, k + p.len()));
            assert(matches_at(s, p, k + 1));
        }
        lemma_replaced_absent(t, p, r);
        assert(seq![s[0]] + t =~= s);
    }
}

/// Replacing a pattern by itself changes nothing.
pub proof fn lemma_replaced_by_itself(s: Seq<char>, p: Seq<char>)
    ensures
        replaced(s, p, p) == s,
    decreases s.len(),
{
    if p.len() == 0 || s.len() < p.len() {
    } else if s.subrange(0, p.len() as int) == p {
        let t = s.subrange(p.len() as int, s.len() as int);
        lemma_replaced_by_itself(t, p);
        assert(p + t =~= s);
    } else {
        let t = s.subrange(1, s.len() as int);
        lemma_replaced_by_itself(t, p);
        assert(seq![s[0]] + t =~= s);
    }
}

/// `c` does not occur in `s`.
pub open spec fn lacks(s: Seq<char>, c: char) -> bool {
    forall|i: int| 0 <= i < s.len() ==> #[trigger] s[i] != c
}

/// A replacement never reaches across a character that the pattern lacks:
/// text on either side of it is replaced on its own.
pub proof fn lemma_replaced_split(a: Seq<char>, c: char, b: Seq<char>, p: Seq<char>, r: Seq<char>)
    requires
        p.len() > 0,
        lacks(p, c),
    ensures
        replaced(a + seq![c] + b, p, r) == replaced(a, p, r) + seq![c] + replaced(b, p, r),
    decreases a.len(),
{
    let s = a + seq![c] + b;
    if a.len() == 0 {
        assert(s =~= seq![c] + b);
        if s.len() >= p.len() {
            assert(s.subrange(0, p.len() as int)[0] == c);
            assert(s.subrange(0, p.len() as int) != p);
            assert(s.subrange(1, s.len() as int) =~= b);
        } else {
            assert(replaced(b, p, r) == b);
        }
        assert(replaced(a, p, r) =~= a);
    } else if s.len() < p.len() {
        assert(replaced(a, p, r) == a);
        assert(replaced(b, p, r) == b);
    } else if s.subrange(0, p.len() as int) == p {
        if p.len() > a.len() {
            assert(s.subrange(0, p.len() as int)[a.len() as int] == c);
        }
        assert(a.subrange(0, p.len() as int) =~= p);
        let a2 = a.subrange(p.len() as int, a.len() as int);
        lemma_replaced_split(a2, c, b, p, r);
        assert(s.subrange(p.len() as int, s.len() as int) =~= a2 + seq![c] + b);
        assert(r + (replaced(a2, p, r) + seq![c] + replaced(b, p, r)) =~= (r + replaced(a2, p, r))
            + seq![c] + replaced(b, p, r));
    } else {
        let a2 = a.subrange(1, a.len() as int);
        lemma_replaced_split(a2, c, b, p, r);
        assert(s.subrange(1, s.len() as int) =~= a2 + seq![c] + b);
        if a.len() >= p.len() {
            assert(a.subrange(0, p.len() as int) =~= s.subrange(0, p.len() as int));
        } else {
            assert(replaced(a, p, r) == a);
            assert(replaced(a2, p, r) == a2);
            assert(a =~= seq![a[0]] + a2);
        }
        assert(seq![a[0]] + (replaced(a2, p, r) + seq![c] + replaced(b, p, r)) =~= (seq![a[0]]
            + replaced(a2, p, r)) + seq![c] + replaced(b, p, r));
    }
}

/// Replacing by text that lacks `c` in text that lacks `c` keeps `c` out.
pub proof fn lemma_replaced_lacks(s: Seq<char>, c: char, p: Seq<char>, r: Seq<char>)
    requires
        lacks(s, c),
        lacks(r, c),
    ensures
        lacks(replaced(s, p, r), c),
    decreases s.len(),
{
    if p.len() == 0 || s.len() < p.len() {
    } else if s.subrange(0, p.len() as int) == p {
        let t = s.subrange(p.len() as int, s.len() as int);
        lemma_replaced_lacks(t, c, p, r);
        let o = replaced(t, p, r);
        assert forall|i: int| 0 <= i < (r + o).len() implies #[trigger] (r + o)[i] != c by {
            if i >= r.len() {
                assert((r + o)[i] == o[i - r.len()]);
            }
        }
    } else {
        let t = s.subrange(1, s.len() as int);
        lemma_replaced_lacks(t, c, p, r);
        let o = replaced(t, p, r);
        assert forall|i: int| 0 <= i < (seq![s[0]] + o).len() implies #[trigger] (seq![s[0]] + o)[i]
            != c by {
            if i >= 1 {
                assert((seq![s[0]] + o)[i] == o[i - 1]);
            }
        }
    }
}

/// The first match at or after `i` is `k` when `k` matches and nothing
/// between `i` and `k` does.
pub proof fn lemma_first_match_is(s: Seq<char>, p: Seq<char>, i: int, k: int)
    requires
        0 <= i <= k,
        matches_at(s, p, k),
        forall|j: int| i <= j < k ==> !matches_at(s, p, j),
    ensures
        first_match_from(s, p, i) == Some(k),
    decreases k - i,
{
    if i < k {
        assert(!matches_at(s, p, i));
        lemma_first_match_is(s, p, i + 1, k);
    }
}

/// Relies on `String::push`: appends one character.
#[verifier::external_body]
pub(crate) fn push_char(s: &mut String, c: char)
    ensures
        final(s)@ == old(s)@.push(c),
{
    s.push(c);
}

/// The characters of `s`, in order.
pub fn chars_of(s: &str) -> (r: Vec<char>)
    ensures
        r@ == s@,
{
    broadcast use vstd::string::group_string_axioms;

    let mut out: Vec<char> = Vec::new();
    for c in it: s.chars()
        invariant
            out@ == it.seq().subrange(0, it.index() as int),
            it.seq() == s@,
    {
        out.push(c);
    }
    out
}

/// The characters `v[lo..hi]` as a string.
pub fn string_of(v: &Vec<char>, lo: usize, hi: usize) -> (r: String)
    requires
        lo <= hi <= v.len(),
    ensures
        r@ == v@.subrange(lo as int, hi as int),
{
    let mut out = String::new();
    let mut i = lo;
    while i < hi
        invariant
            lo <= i <= hi <= v.len(),
            out@ == v@.subrange(lo as int, i as int),
        decreases hi - i,
    {
        push_char(&mut out, v[i]);
        i = i + 1;
        assert(out@ =~= v@.subrange(lo as int, i as int));
    }
    out
}

/// Appends the characters of `v` to `s`.
pub fn push_chars(s: &mut String, v: &Vec<char>)
    ensures
        final(s)@ == old(s)@ + v@,
{
    let mut i: usize = 0;
    while i < v.len()
        invariant
            i <= v.len(),
            s@ == old(s)@ + v@.subrange(0, i as int),
        decreases v.len() - i,
    {
        push_char(s, v[i]);
        i = i + 1;
        assert(s@ =~= old(s)@ + v@.subrange(0, i as int));
    }
    assert(v@.subrange(0, v.len() as int) =~= v@);
}

/// Whether `p` occurs in `s` at position `i`.
pub fn occurs_at(s: &Vec<char>, p: &Vec<char>, i: usize) -> (r: bool)
    ensures
        r == matches_at(s@, p@, i as int),
{
    if i > s.len() || s.len() - i < p.len() {
        return false;
    }
    let mut j: usize = 0;
    while j < p.len()
        invariant
            i + p.len() <= s.len(),
            j <= p.len(),
            forall|k: int| 0 <= k < j ==> s@[i + k] == p@[k],
        decreases p.len() - j,
    {
        if s[i + j] != p[j] {
            assert(s@.subrange(i as int, i + p.len())[j as int] != p@[j as int]);
            return false;
        }
        j = j + 1;
    }
    assert(s@.subrange(i as int, i + p.len()) =~= p@);
    true
}

/// The leftmost occurrence of `p` in `s` at or after `from`.
pub fn find_from(s: &Vec<char>, p: &Vec<char>, from: usize) -> (r: Option<usize>)
    ensures
        match r {
            Some(k) => first_match_from(s@, p@, from as int) == Some(k as int),
            None => first_match_from(s@, p@, from as int) is None,
        },
{
    let mut i = from;
    while i <= s.len() && s.len() - i >= p.len()
        invariant
            from <= i,
            first_match_from(s@, p@, from as int) == first_match_from(s@, p@, i as int),
        decreases s.len() + 1 - i,
    {
        if occurs_at(s, p, i) {
            return Some(i);
        }
        if i == s.len() {
            assert(first_match_from(s@, p@, i + 1) is None);
            return None;
        }
        i = i + 1;
    }
    None
}

/// Every occurrence of `p` in `s` replaced by `r`, scanned from the left.
pub fn replace_all(s: &Vec<char>, p: &Vec<char>, r: &Vec<char>) -> (out: Vec<char>)
    requires
        p.len() > 0,
    ensures
        out@ == replaced(s@, p@, r@),
{
    let mut out: Vec<char> = Vec::new();
    let mut i: usize = 0;
    assert(s@.subrange(0, s.len() as int) =~= s@);
    assert(out@ + s@ =~= s@);
    while i < s.len()
        invariant
            p.len() > 0,
            i <= s.len(),
            out@ + replaced(s@.subrange(i as int, s.len() as int), p@, r@) == replaced(
                s@,
                p@,
                r@,
            ),
        decreases s.len() - i,
    {
        let ghost rest = s@.subrange(i as int, s.len() as int);
        if occurs_at(s, p, i) {
            assert(rest.subrange(0, p.len() as int) =~= p@);
            assert(rest.subrange(p.len() as int, rest.len() as int) =~= s@.subrange(
                i + p.len(),
                s.len() as int,
            ));
            let mut k: usize = 0;
            let ghost before = out@;
            while k < r.len()
                invariant
                    k <= r.len(),
                    out@ == before + r@.subrange(0, k as int),
                decreases r.len() - k,
            {
                out.push(r[k]);
                k = k + 1;
                assert(out@ =~= before + r@.subrange(0, k as int));
            }
            assert(r@.subrange(0, r.len() as int) =~= r@);
            assert(out@ == before + r@);
            i = i + p.len();
            assert(before + (r@ + replaced(s@.subrange(i as int, s.len() as int), p@, r@))
                =~= out@ + replaced(s@.subrange(i as int, s.len() as int), p@, r@));
        } else {
            proof {
                assert(rest.subrange(1, rest.len() as int) =~= s@.subrange(
                    i + 1,
                    s.len() as int,
                ));
                if rest.len() >= p@.len() {
                    assert(!matches_at(s@, p@, i as int));
                    assert(rest.subrange(0, p@.len() as int) =~= s@.subrange(
                        i as int,
                        i + p@.len(),
                    ));
                } else {
                    assert(replaced(rest.subrange(1, rest.len() as int), p@, r@) == rest.subrange(
                        1,
                        rest.len() as int,
                    ));
                    assert(rest =~= seq![rest[0]] + rest.subrange(1, rest.len() as int));
                }
            }
            let ghost before = out@;
            out.push(s[i]);
            i = i + 1;
            assert(before + (seq![rest[0]] + replaced(
                s@.subrange(i as int, s.len() as int),
                p@,
                r@,
            )) =~= out@ + replaced(s@.subrange(i as int, s.len() as int), p@, r@));
        }
    }
    assert(s@.subrange(s.len() as int, s.len() as int) =~= Seq::<char>::empty());
    assert(out@ + Seq::<char>::empty() =~= out@);
    out
}

/// `replace_all` on strings.
pub fn replace_str(s: &str, p: &str, r: &str) -> (out: String)
    requires
        p@.len() > 0,
    ensures
        out@ == replaced(s@, p@, r@),
{
    let sv = chars_of(s);
    let pv = chars_of(p);
    let rv = chars_of(r);
    let o = replace_all(&sv, &pv, &rv);
    string_of(&o, 0, o.len())
}

/// Whether `p` occurs somewhere in `s`.
pub fn str_contains(s: &str, p: &str) -> (r: bool)
    ensures
        r == contains(s@, p@),
{
    let sv = chars_of(s);
    let pv = chars_of(p);
    find_from(&sv, &pv, 0).is_some()
}

pub fn digit_of(d: usize) -> (c: char)
    requires
        d < 10,
    ensures
        c == digit_char(d as nat),
{
    if d == 0 { '0' }
    else if d == 1 { '1' }
    else if d == 2 { '2' }
    else if d == 3 { '3' }
    else if d == 4 { '4' }
    else if d == 5 { '5' }
    else if d == 6 { '6' }
    else if d == 7 { '7' }
    else if d == 8 { '8' }
    else { '9' }
}

/// Appends the decimal rendering of `n` to `s`.
pub fn push_decimal(s: &mut String, n: usize)
    ensures
        final(s)@ == old(s)@ + decimal(n as nat),
    decreases n,
{
    if n < 10 {
        push_char(s, digit_of(n));
        assert(old(s)@.push(digit_char(n as nat)) =~= old(s)@ + seq![digit_char(n as nat)]);
    } else {
        push_decimal(s, n / 10);
        push_char(s, digit_of(n % 10));
        assert(old(s)@ + decimal((n / 10) as nat).push(digit_char((n % 10) as nat)) =~= (old(s)@
            + decimal((n / 10) as nat)).push(digit_char((n % 10) as nat)));
    }
}

/// The decimal rendering of `n`.
pub fn decimal_string(n: usize) -> (r: String)
    ensures
        r@ == decimal(n as nat),
{
    let mut s = String::new();
    push_decimal(&mut s, n);
    assert(Seq::<char>::empty() + decimal(n as nat) =~= decimal(n as nat));
    s
}

/// Reads an unsigned decimal number.
pub fn parse_usize(s: &str) -> (r: Option<usize>)
    ensures
        match r {
            Some(v) => parsed_usize(s@) == Some(v as nat),
            None => parsed_usize(s@) is None,
        },
{
    let v = chars_of(s);
    let start: usize = if v.len() > 0 && v[0] == '+' { 1 } else { 0 };
    let ghost d = unsigned_digits(s@);
    assert(d =~= v@.subrange(start as int, v.len() as int));
    if start >= v.len() {
        return None;
    }
    let mut acc: usize = 0;
    let mut i = start;
    while i < v.len()
        invariant
            start <= i <= v.len(),
            d == v@.subrange(start as int, v.len() as int),
            d == unsigned_digits(s@),
            forall|k: int| start <= k < i ==> is_digit(#[trigger] v@[k]),
            acc as nat == digits_value(v@.subrange(start as int, i as int)),
        decreases v.len() - i,
    {
        let c = v[i];
        if !('0' <= c && c <= '9') {
            assert(d[i - start] == c);
            assert(!is_digit(d[i - start]));
            assert(!(forall|k: int| 0 <= k < d.len() ==> is_digit(#[trigger] d[k])));
            assert(parsed_usize(s@) is None);
            return None;
        }
        let dv = (c as u32 - '0' as u32) as usize;
        assert(v@.subrange(start as int, i + 1).drop_last() =~= v@.subrange(start as int, i as int));
        assert(digits_value(v@.subrange(start as int, i + 1)) == acc * 10 + dv);
        if acc > (usize::MAX - dv) / 10 {
            proof {
                lemma_digits_value_prefix(d, (i + 1 - start) as int);
                assert(d.subrange(0, i + 1 - start) =~= v@.subrange(start as int, i + 1));
                assert(acc * 10 + dv > usize::MAX) by (nonlinear_arith)
                    requires
                        acc > (usize::MAX - dv) / 10,
                        dv <= 9,
                ;
                assert(digits_value(d) > usize::MAX);
                assert(parsed_usize(s@) is None);
            }
            return None;
        }
        acc = acc * 10 + dv;
        i = i + 1;
    }
    assert(forall|k: int| 0 <= k < d.len() ==> d[k] == v@[k + start]);
    Some(acc)
}

/// The value of a digit sequence bounds the value of each of its prefixes.
pub proof fn lemma_digits_value_prefix(d: Seq<char>, n: int)
    requires
        0 <= n <= d.len(),
    ensures
        digits_value(d.subrange(0, n)) <= digits_value(d),
    decreases d.len() - n,
{
    if n < d.len() {
        lemma_digits_value_prefix(d, n + 1);
        assert(d.subrange(0, n + 1).drop_last() =~= d.subrange(0, n));
    } else {
        assert(d.subrange(0, n) =~= d);
    }
}

pub fn is_white_space_char(c: char) -> (r: bool)
    ensures
        r == is_white_space(c),
{
    ('\t' <= c && c <= '\r') || c == ' ' || c == '\u{85}' || c == '\u{a0}' || c == '\u{1680}'
        || ('\u{2000}' <= c && c <= '\u{200a}') || c == '\u{2028}' || c == '\u{2029}'
        || c == '\u{202f}' || c == '\u{205f}' || c == '\u{3000}'
}

/// `v[lo..hi]` without its trailing white space, as a string.
pub fn trim_end_range(v: &Vec<char>, lo: usize, hi: usize) -> (r: String)
    requires
        lo <= hi <= v.len(),
    ensures
        r@ == trimmed_end(v@.subrange(lo as int, hi as int)),
{
    let mut end = hi;
    while end > lo && is_white_space_char(v[end - 1])
        invariant
            lo <= end <= hi <= v.len(),
            trimmed_end(v@.subrange(lo as int, hi as int)) == trimmed_end(
                v@.subrange(lo as int, end as int),
            ),
        decreases end,
    {
        assert(v@.subrange(lo as int, end as int).drop_last() =~= v@.subrange(
            lo as int,
            end - 1,
        ));
        end = end - 1;
    }
    string_of(v, lo, end)
}

} // verus!
