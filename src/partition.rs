use vstd::prelude::*;

use crate::request::{Request, RequestView, requests_view};

verus! {

/// Number of requests per chunk for a run of `n` requests: 250 below a
/// thousand, else `ceil(n / 1000)`, which keeps a run at about a thousand
/// chunks at most.
pub open spec fn batch_size_spec(n: nat) -> nat {
    if n < 1000 {
        250
    } else {
        (n + 999) / 1000
    }
}

/// `s` cut into consecutive chunks of `k`, the last one possibly shorter.
pub open spec fn chunked<A>(s: Seq<A>, k: nat) -> Seq<Seq<A>>
    decreases s.len(),
{
    if s.len() == 0 || k == 0 {
        Seq::empty()
    } else if s.len() <= k {
        seq![s]
    } else {
        seq![s.subrange(0, k as int)] + chunked(s.subrange(k as int, s.len() as int), k)
    }
}

/// The sum of the lengths of the chunks.
pub open spec fn total_len<A>(cs: Seq<Seq<A>>) -> nat
    decreases cs.len(),
{
    if cs.len() == 0 {
        0
    } else {
        cs[0].len() + total_len(cs.subrange(1, cs.len() as int))
    }
}

pub open spec fn chunks_view(v: Seq<Vec<Request>>) -> Seq<Seq<RequestView>> {
    v.map_values(|c: Vec<Request>| requests_view(c@))
}

/// Partitioning loses, duplicates and reorders nothing: the chunks' sizes
/// sum to the input's length and their concatenation in order is the input.
/// There are `ceil(n / k)` chunks, each of `k` items but the last, which
/// holds between 1 and `k`.
pub proof fn lemma_chunked_partition<A>(s: Seq<A>, k: nat)
    requires
        k > 0,
    ensures
        chunked(s, k).flatten() == s,
        total_len(chunked(s, k)) == s.len(),
        chunked(s, k).len() == (s.len() + k - 1) / (k as int),
        forall|j: int|
            0 <= j < chunked(s, k).len() ==> 0 < #[trigger] chunked(s, k)[j].len() <= k,
        forall|j: int| 0 <= j < chunked(s, k).len() - 1 ==> #[trigger] chunked(s, k)[j].len() == k,
    decreases s.len(),
{
    let cs = chunked(s, k);
    if s.len() == 0 {
        assert((0 + k - 1) / (k as int) == 0) by (nonlinear_arith)
            requires
                k > 0,
        ;
    } else if s.len() <= k {
        assert(cs.drop_first() =~= Seq::<Seq<A>>::empty());
        assert(cs.drop_first().flatten() == Seq::<A>::empty());
        assert(cs.subrange(1, 1) =~= Seq::<Seq<A>>::empty());
        assert(total_len(cs.subrange(1, 1)) == 0);
        assert(s + Seq::<A>::empty() =~= s);
        let n = s.len();
        assert((n + k - 1) / (k as int) == 1) by (nonlinear_arith)
            requires
                0 < n <= k,
        ;
    } else {
        let head = s.subrange(0, k as int);
        let tail = s.subrange(k as int, s.len() as int);
        lemma_chunked_partition(tail, k);
        let rest = chunked(tail, k);
        assert(cs[0] == head);
        assert(cs.drop_first() =~= rest);
        assert(cs.subrange(1, cs.len() as int) =~= rest);
        assert(head + tail =~= s);
        assert(cs.flatten() == head + rest.flatten());
        let n = s.len();
        let m = tail.len();
        assert(m == n - k);
        assert((n + k - 1) / (k as int) == (m + k - 1) / (k as int) + 1) by (nonlinear_arith)
            requires
                m == n - k,
                k > 0,
                n > k,
        ;
        assert forall|j: int| 0 <= j < cs.len() implies 0 < #[trigger] cs[j].len() <= k by {
            if j > 0 {
                assert(cs[j] == rest[j - 1]);
            }
        }
        assert forall|j: int| 0 <= j < cs.len() - 1 implies #[trigger] cs[j].len() == k by {
            if j > 0 {
                assert(cs[j] == rest[j - 1]);
            }
        }
    }
}

pub struct BatchRequest {
    pub headers: Vec<String>,
}

impl BatchRequest {
    /// Chunk size for `n` requests.
    pub fn batch_size(n: usize) -> (r: usize)
        ensures
            r as nat == batch_size_spec(n as nat),
            r >= 1,
    {
        if n < 1000 {
            250
        } else {
            n / 1000 + if n % 1000 != 0 { 1 } else { 0 }
        }
    }

    /// `payloads` cut into consecutive chunks of `how_many`, copied.
    pub fn split(payloads: &Vec<Request>, how_many: usize) -> (r: Vec<Vec<Request>>)
        requires
            how_many > 0,
        ensures
            chunks_view(r@) == chunked(requests_view(payloads@), how_many as nat),
    {
        let n = payloads.len();
        let k = how_many;
        let ghost sv = requests_view(payloads@);
        let mut out: Vec<Vec<Request>> = Vec::new();
        let mut start: usize = 0;
        assert(sv.subrange(0, n as int) =~= sv);
        assert(chunks_view(out@) + chunked(sv, k as nat) =~= chunked(sv, k as nat));
        while start < n
            invariant
                n == payloads.len(),
                sv == requests_view(payloads@),
                k > 0,
                start <= n,
                chunks_view(out@) + chunked(sv.subrange(start as int, n as int), k as nat)
                    == chunked(sv, k as nat),
            decreases n - start,
        {
            let end = if n - start > k {
                start + k
            } else {
                n
            };
            let mut chunk: Vec<Request> = Vec::new();
            let mut i = start;
            while i < end
                invariant
                    start <= i <= end <= n,
                    n == payloads.len(),
                    sv == requests_view(payloads@),
                    chunk.len() == i - start,
                    forall|j: int| 0 <= j < chunk.len() ==> #[trigger] chunk@[j]@ == sv[start + j],
                decreases end - i,
            {
                chunk.push(Request::from(&payloads[i]));
                i = i + 1;
            }
            assert(requests_view(chunk@) =~= sv.subrange(start as int, end as int));
            let ghost rest = sv.subrange(start as int, n as int);
            let ghost prev = chunks_view(out@);
            proof {
                if rest.len() <= k {
                    assert(rest =~= sv.subrange(start as int, end as int));
                    assert(sv.subrange(end as int, n as int) =~= Seq::<RequestView>::empty());
                } else {
                    assert(rest.subrange(0, k as int) =~= sv.subrange(start as int, end as int));
                    assert(rest.subrange(k as int, rest.len() as int) =~= sv.subrange(
                        end as int,
                        n as int,
                    ));
                }
            }
            out.push(chunk);
            assert(chunks_view(out@) =~= prev.push(sv.subrange(start as int, end as int)));
            assert(prev + chunked(rest, k as nat) =~= chunks_view(out@) + chunked(
                sv.subrange(end as int, n as int),
                k as nat,
            ));
            start = end;
        }
        assert(sv.subrange(n as int, n as int) =~= Seq::<RequestView>::empty());
        assert(chunks_view(out@) + Seq::<Seq<RequestView>>::empty() =~= chunks_view(out@));
        out
    }

    /// The chunks of a run: `payloads` cut by the run's batch size.
    pub fn partition(payloads: &Vec<Request>) -> (r: Vec<Vec<Request>>)
        ensures
            chunks_view(r@) == chunked(
                requests_view(payloads@),
                batch_size_spec(payloads.len() as nat),
            ),
    {
        let k = Self::batch_size(payloads.len());
        Self::split(payloads, k)
    }
}

} // verus!
