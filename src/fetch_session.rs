//! The decisions of a paginated fetch: which page request to send next, with
//! at most `PARALLEL_REQUESTS` in flight; what to do when one fails; and how
//! the collected entries are handed back.
//!
//! The caller performs the requests and reports each outcome; the session
//! never waits or sends anything itself.

use crate::lastfm::PARALLEL_REQUESTS;
use crate::models::{is_datable, is_now_playing, time_key_of, track_timestamp, Track};
use crate::time::sort_by_time;
use vstd::prelude::*;

verus! {

/// A page is requested at most this many times before the fetch gives up.
pub const MAX_ATTEMPTS: u32 = 5;

/// The wait before the first repeat of a failed request; each later repeat
/// waits twice as long as the one before.
pub const FIRST_RETRY_DELAY_MS: u64 = 500;

/// How long to wait before sending attempt number `attempt` (counted from 0).
pub open spec fn retry_delay(attempt: nat) -> nat
    decreases attempt,
{
    if attempt == 0 {
        0
    } else if attempt == 1 {
        FIRST_RETRY_DELAY_MS as nat
    } else {
        2 * retry_delay((attempt - 1) as nat)
    }
}

fn retry_delay_ms(attempt: u32) -> (r: u64)
    requires
        attempt < MAX_ATTEMPTS,
    ensures
        r == retry_delay(attempt as nat),
{
    proof {
        reveal_with_fuel(retry_delay, 5);
    }
    if attempt == 0 {
        0
    } else if attempt == 1 {
        FIRST_RETRY_DELAY_MS
    } else if attempt == 2 {
        2 * FIRST_RETRY_DELAY_MS
    } else if attempt == 3 {
        4 * FIRST_RETRY_DELAY_MS
    } else {
        8 * FIRST_RETRY_DELAY_MS
    }
}

/// One request to send: the page, which attempt this is (from 0), and how
/// long to wait before sending it.
pub struct PageRequest {
    pub page: i32,
    pub attempt: u32,
    pub delay_ms: u64,
}

/// The state of a paginated fetch.
pub struct FetchSession {
    waiting: Vec<(i32, u32)>,
    in_flight: usize,
    collected: Vec<Track>,
    abandoned: Option<i32>,
}

impl FetchSession {
    /// The requests not yet sent, as page and attempt; the last is sent first.
    pub closed spec fn waiting(&self) -> Seq<(i32, u32)> {
        self.waiting@
    }

    /// How many sent requests have not been answered.
    pub closed spec fn in_flight(&self) -> nat {
        self.in_flight as nat
    }

    /// The entries of every page fetched so far, in the order they arrived.
    pub closed spec fn collected(&self) -> Seq<Track> {
        self.collected@
    }

    /// The first page that failed on every attempt, if any.
    pub closed spec fn abandoned(&self) -> Option<i32> {
        self.abandoned
    }

    pub open spec fn wf(&self) -> bool {
        &&& self.in_flight() <= PARALLEL_REQUESTS
        &&& forall|i: int| 0 <= i < self.waiting().len() ==> #[trigger] self.waiting()[i].1 < MAX_ATTEMPTS
    }

    /// A session that will request each of `pages` once, first attempts all.
    pub fn new(pages: &Vec<i32>) -> (r: FetchSession)
        ensures
            r.wf(),
            r.waiting().len() == pages@.len(),
            forall|i: int| 0 <= i < pages@.len() ==> #[trigger] r.waiting()[i] == (pages@[pages@.len() - 1 - i], 0u32),
            r.in_flight() == 0,
            r.collected().len() == 0,
            r.abandoned() is None,
    {
        let mut waiting: Vec<(i32, u32)> = Vec::new();
        let mut i: usize = pages.len();
        while i > 0
            invariant
                i <= pages@.len(),
                waiting@.len() == pages@.len() - i,
                forall|k: int| 0 <= k < waiting@.len() ==> #[trigger] waiting@[k] == (pages@[pages@.len() - 1 - k], 0u32),
            decreases i,
        {
            i = i - 1;
            waiting.push((pages[i], 0));
        }
        FetchSession { waiting, in_flight: 0, collected: Vec::new(), abandoned: None }
    }

    /// The next request to send, if one may be sent now: none once a page has
    /// been given up, while `PARALLEL_REQUESTS` are in flight, or when nothing waits.
    pub fn next_request(&mut self) -> (r: Option<PageRequest>)
        requires
            old(self).wf(),
        ensures
            final(self).wf(),
            r is Some <==> (old(self).abandoned() is None && old(self).in_flight() < PARALLEL_REQUESTS
                && old(self).waiting().len() > 0),
            r is Some ==> {
                let next = old(self).waiting().last();
                &&& r->0.page == next.0
                &&& r->0.attempt == next.1
                &&& r->0.delay_ms == retry_delay(next.1 as nat)
                &&& final(self).waiting() == old(self).waiting().drop_last()
                &&& final(self).in_flight() == old(self).in_flight() + 1
            },
            r is None ==> final(self).waiting() == old(self).waiting() && final(self).in_flight()
                == old(self).in_flight(),
            final(self).collected() == old(self).collected(),
            final(self).abandoned() == old(self).abandoned(),
    {
        if self.abandoned.is_some() || self.in_flight >= PARALLEL_REQUESTS {
            return None;
        }
        match self.waiting.pop() {
            Some((page, attempt)) => {
                assert(old(self).waiting@[old(self).waiting@.len() - 1].1 < MAX_ATTEMPTS);
                self.in_flight = self.in_flight + 1;
                Some(PageRequest { page, attempt, delay_ms: retry_delay_ms(attempt) })
            },
            None => None,
        }
    }

    /// Records the entries of a page whose request succeeded.
    pub fn page_fetched(&mut self, tracks: Vec<Track>)
        requires
            old(self).wf(),
            old(self).in_flight() > 0,
        ensures
            final(self).wf(),
            final(self).in_flight() == old(self).in_flight() - 1,
            final(self).collected() == old(self).collected() + tracks@,
            final(self).waiting() == old(self).waiting(),
            final(self).abandoned() == old(self).abandoned(),
    {
        let mut tracks = tracks;
        self.collected.append(&mut tracks);
        self.in_flight = self.in_flight - 1;
        assert(self.waiting() == old(self).waiting());
    }

    /// Records that a request failed, in transport or in decoding: the page
    /// waits to be requested again, or, after `MAX_ATTEMPTS` attempts, is given up.
    pub fn page_failed(&mut self, request: &PageRequest)
        requires
            old(self).wf(),
            old(self).in_flight() > 0,
        ensures
            final(self).wf(),
            final(self).in_flight() == old(self).in_flight() - 1,
            final(self).collected() == old(self).collected(),
            request.attempt + 1 < MAX_ATTEMPTS ==> final(self).waiting() == old(self).waiting().push(
                (request.page, (request.attempt + 1) as u32),
            ) && final(self).abandoned() == old(self).abandoned(),
            request.attempt + 1 >= MAX_ATTEMPTS ==> final(self).waiting() == old(self).waiting()
                && final(self).abandoned() == (if old(self).abandoned() is Some {
                old(self).abandoned()
            } else {
                Some(request.page)
            }),
    {
        self.in_flight = self.in_flight - 1;
        if request.attempt < MAX_ATTEMPTS - 1 {
            self.waiting.push((request.page, request.attempt + 1));
            assert forall|i: int| 0 <= i < self.waiting().len() implies #[trigger] self.waiting()[i].1
                < MAX_ATTEMPTS by {
                if i < old(self).waiting().len() {
                    assert(self.waiting()[i] == old(self).waiting()[i]);
                }
            }
        } else if self.abandoned.is_none() {
            self.abandoned = Some(request.page);
            assert(self.waiting() == old(self).waiting());
        } else {
            assert(self.waiting() == old(self).waiting());
        }
    }

    /// Whether nothing is left to send or wait for: every page has answered,
    /// or a page was given up and the requests in flight have answered.
    pub fn is_done(&self) -> (r: bool)
        ensures
            r == (self.in_flight() == 0 && (self.waiting().len() == 0 || self.abandoned() is Some)),
    {
        self.in_flight == 0 && (self.waiting.len() == 0 || self.abandoned.is_some())
    }

    /// The first page given up after `MAX_ATTEMPTS` failed attempts, if any.
    pub fn abandoned_page(&self) -> (r: Option<i32>)
        ensures
            r == self.abandoned(),
    {
        self.abandoned
    }

    /// The entries collected from every fetched page.
    pub fn into_tracks(self) -> (r: Vec<Track>)
        ensures
            r@ == self.collected(),
    {
        self.collected
    }
}

/// An entry that belongs in a fetch's result: it has a date and is not the
/// track being played right now.
pub open spec fn is_kept(t: Track) -> bool {
    !is_now_playing(t) && is_datable(t)
}

/// The result of a fetch from the entries of all its pages: the "now playing"
/// entry and any entry without a date left out, the rest newest-first.
pub fn finish_tracks(tracks: Vec<Track>) -> (r: Vec<Track>)
    ensures
        forall|t: Track| #[trigger]
            r@.to_multiset().count(t) == if is_kept(t) {
                tracks@.to_multiset().count(t)
            } else {
                0
            },
        forall|i: int| 0 <= i < r@.len() ==> #[trigger] is_kept(r@[i]),
        forall|i: int, j: int|
            0 <= i < j < r@.len() ==> track_timestamp(r@[i]) >= track_timestamp(r@[j]),
{
    broadcast use vstd::seq_lib::group_to_multiset_ensures;
    broadcast use vstd::multiset::group_multiset_axioms;

    let ghost orig = tracks@;
    let mut rest = tracks;
    let mut kept: Vec<Track> = Vec::new();
    while rest.len() > 0
        invariant
            forall|t: Track| #[trigger]
                kept@.to_multiset().count(t) + (if is_kept(t) {
                    rest@.to_multiset().count(t)
                } else {
                    0
                }) == if is_kept(t) {
                    orig.to_multiset().count(t)
                } else {
                    0
                },
            forall|i: int| 0 <= i < kept@.len() ==> #[trigger] is_kept(kept@[i]),
        decreases rest@.len(),
    {
        let ghost before = rest@;
        let ghost kept_before = kept@;
        let t = match rest.pop() {
            Some(t) => t,
            None => {
                return kept;
            },
        };
        assert(before =~= rest@.push(t));
        proof {
            vstd::seq_lib::to_multiset_build(rest@, t);
        }
        assert(before.to_multiset() =~= rest@.to_multiset().insert(t));
        if !t.now_playing() && t.has_date() {
            kept.push(t);
            assert(kept@ == kept_before.push(t));
            proof {
                vstd::seq_lib::to_multiset_build(kept_before, t);
            }
            assert(kept@.to_multiset() =~= kept_before.to_multiset().insert(t));
            assert(forall|u: Track| #[trigger]
                kept@.to_multiset().count(u) == kept_before.to_multiset().count(u) + if u == t {
                    1int
                } else {
                    0
                });
        }
    }
    assert(forall|t: Track| #[trigger] rest@.to_multiset().count(t) == 0);
    let mut sorted = kept;
    let ghost pre_sort = sorted@;
    sort_by_time(&mut sorted);
    let ghost s = sorted@;
    assert forall|i: int| 0 <= i < s.len() implies #[trigger] is_kept(s[i]) by {
        assert(s.contains(s[i]));
        assert(s.to_multiset().count(s[i]) > 0);
        assert(pre_sort.to_multiset().count(s[i]) > 0);
        assert(pre_sort.contains(s[i]));
    }
    let mut out: Vec<Track> = Vec::new();
    while sorted.len() > 0
        invariant
            sorted@ == s.subrange(0, sorted@.len() as int),
            sorted@.len() <= s.len(),
            forall|i: int| 0 <= i < s.len() ==> #[trigger] is_kept(s[i]),
            forall|i: int, j: int| 0 <= i < j < s.len() ==> time_key_of(s[i]) <= time_key_of(s[j]),
            forall|t: Track| #[trigger]
                out@.to_multiset().count(t) + sorted@.to_multiset().count(t) == s.to_multiset().count(t),
            forall|i: int| 0 <= i < out@.len() ==> #[trigger] is_kept(out@[i]),
            forall|i: int, j: int|
                0 <= i < j < out@.len() ==> track_timestamp(out@[i]) >= track_timestamp(out@[j]),
            forall|i: int, j: int|
                0 <= i < out@.len() && 0 <= j < sorted@.len() ==> track_timestamp(out@[i])
                    >= track_timestamp(sorted@[j]),
        decreases sorted@.len(),
    {
        let ghost before = sorted@;
        let ghost out_before = out@;
        let t = match sorted.pop() {
            Some(t) => t,
            None => {
                return out;
            },
        };
        assert(before =~= sorted@.push(t));
        assert(t == s[before.len() - 1]);
        assert forall|j: int| 0 <= j < sorted@.len() implies track_timestamp(t) >= track_timestamp(
            #[trigger] sorted@[j],
        ) by {
            assert(sorted@[j] == s[j]);
            assert(is_kept(s[j]));
            assert(time_key_of(s[j]) <= time_key_of(s[before.len() - 1]));
        }
        out.push(t);
        assert(out@ == out_before.push(t));
        proof {
            vstd::seq_lib::to_multiset_build(out_before, t);
            vstd::seq_lib::to_multiset_build(sorted@, t);
        }
        assert(out@.to_multiset() =~= out_before.to_multiset().insert(t));
        assert(before.to_multiset() =~= sorted@.to_multiset().insert(t));
        assert(forall|u: Track| #[trigger]
            out@.to_multiset().count(u) == out_before.to_multiset().count(u) + if u == t {
                1int
            } else {
                0
            });
        assert forall|i: int, j: int|
            0 <= i < out@.len() && 0 <= j < sorted@.len() implies track_timestamp(out@[i])
                >= track_timestamp(sorted@[j]) by {
            if i < out_before.len() {
                assert(out@[i] == out_before[i]);
                assert(before[j] == sorted@[j]);
            }
        }
    }
    assert(forall|t: Track| #[trigger] sorted@.to_multiset().count(t) == 0);
    out
}

} // verus!
