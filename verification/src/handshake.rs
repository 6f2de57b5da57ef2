//! The wait for the terminal's responses to the pages that were drawn.
use crate::drivers::graphics::{accepted, holds_ok, is_accepted, lemma_ok};
use vstd::prelude::*;

verus! {

/// How long to wait for a response, in milliseconds. A command can go without one, and a
/// response that comes at all comes sooner.
pub const RESPONSE_TIMEOUT_MS: u64 = 80;

/// How far a wait for responses has come.
pub struct Progress {
    /// The pages that were drawn, in order.
    pub pages: Seq<usize>,
    /// The number of responses that came.
    pub answered: int,
    /// Whether a response failed to come.
    pub timed_out: bool,
}

/// The start of the wait for the responses to `pages`.
pub open spec fn begin(pages: Seq<usize>) -> Progress {
    Progress { pages, answered: 0, timed_out: false }
}

/// The page whose response is waited for next. Nothing is waited for after a response that
/// failed to come.
pub open spec fn awaited(p: Progress) -> Option<usize> {
    if !p.timed_out && p.answered < p.pages.len() {
        Some(p.pages[p.answered])
    } else {
        None
    }
}

/// The progress after a wait: the response's payload, or `None` if none came.
pub open spec fn advance(p: Progress, payload: Option<Seq<char>>) -> Progress {
    match payload {
        Some(_) => Progress { answered: p.answered + 1, ..p },
        None => Progress { timed_out: true, ..p },
    }
}

/// The page that has to be transferred again after a wait: the terminal turned down to draw
/// it.
pub open spec fn to_transfer(p: Progress, payload: Option<Seq<char>>) -> Option<usize> {
    match payload {
        Some(text) => if accepted(text) {
            None
        } else {
            awaited(p)
        },
        None => None,
    }
}

/// The wait for the responses to the pages that were drawn.
#[derive(Debug)]
pub struct Handshake {
    pages: Vec<usize>,
    answered: usize,
    timed_out: bool,
}

impl View for Handshake {
    type V = Progress;

    closed spec fn view(&self) -> Progress {
        Progress {
            pages: self.pages@,
            answered: self.answered as int,
            timed_out: self.timed_out,
        }
    }
}

impl Handshake {
    #[verifier::type_invariant]
    spec fn in_bounds(self) -> bool {
        self.answered <= self.pages@.len()
    }

    /// Begins to wait for the responses to `pages`.
    pub fn new(pages: Vec<usize>) -> (r: Self)
        ensures
            r@ == begin(pages@),
    {
        Handshake { pages, answered: 0, timed_out: false }
    }

    /// The page whose response is waited for next.
    pub fn awaiting(&self) -> (r: Option<usize>)
        ensures
            r == awaited(self@),
    {
        if !self.timed_out && self.answered < self.pages.len() {
            Some(self.pages[self.answered])
        } else {
            None
        }
    }

    /// Takes note of the payload of the response that came, or that none came in time. Returns
    /// the page that has to be transferred again, if there is one.
    pub fn respond(&mut self, payload: Option<&str>) -> (r: Option<usize>)
        requires
            awaited(old(self)@) is Some,
        ensures
            ({
                let text = match payload {
                    Some(text) => Some(text@),
                    None => None,
                };
                &&& r == to_transfer(old(self)@, text)
                &&& final(self)@ == advance(old(self)@, text)
            }),
    {
        match payload {
            Some(text) => {
                assert(self.answered < self.pages.len());
                let page = self.pages[self.answered];
                self.answered = self.answered + 1;
                if is_accepted(text) {
                    None
                } else {
                    Some(page)
                }
            },
            None => {
                self.timed_out = true;
                None
            },
        }
    }

    /// Whether late responses have to be thrown away, so that they are not taken for those to
    /// the next pages.
    pub fn must_drain(&self) -> (r: bool)
        ensures
            r == self@.timed_out,
    {
        self.timed_out
    }
}

/// The progress after some waits, of which those count that happen at all.
pub open spec fn progress(pages: Seq<usize>, payloads: Seq<Option<Seq<char>>>) -> Progress
    decreases payloads.len(),
{
    if payloads.len() == 0 {
        begin(pages)
    } else {
        let before = progress(pages, payloads.drop_last());
        if awaited(before) is Some {
            advance(before, payloads.last())
        } else {
            before
        }
    }
}

/// The pages that have to be transferred again after some waits.
pub open spec fn transfers(pages: Seq<usize>, payloads: Seq<Option<Seq<char>>>) -> Seq<usize>
    decreases payloads.len(),
{
    if payloads.len() == 0 {
        Seq::empty()
    } else {
        let before = progress(pages, payloads.drop_last());
        let so_far = transfers(pages, payloads.drop_last());
        if awaited(before) is Some {
            match to_transfer(before, payloads.last()) {
                Some(page) => so_far.push(page),
                None => so_far,
            }
        } else {
            so_far
        }
    }
}

proof fn lemma_progress(pages: Seq<usize>, payloads: Seq<Option<Seq<char>>>)
    ensures
        ({
            let p = progress(pages, payloads);
            &&& p.pages == pages
            &&& 0 <= p.answered <= pages.len()
            &&& p.answered + (if p.timed_out {
                1int
            } else {
                0
            }) <= payloads.len()
            &&& p.timed_out ==> p.answered < pages.len()
            &&& awaited(p) is Some ==> p.answered == payloads.len()
            &&& forall|i: int| 0 <= i < p.answered ==> (#[trigger] payloads[i]) is Some
        }),
    decreases payloads.len(),
{
    if payloads.len() > 0 {
        let before = payloads.drop_last();
        lemma_progress(pages, before);
        let p = progress(pages, payloads);
        assert forall|i: int| 0 <= i < p.answered implies (#[trigger] payloads[i]) is Some by {
            if i < before.len() {
                assert(payloads[i] == before[i]);
            }
        }
    }
}

/// The wait ends: with as many waits as there are pages, nothing is waited for any more.
pub proof fn wait_is_bounded(pages: Seq<usize>, payloads: Seq<Option<Seq<char>>>)
    requires
        payloads.len() >= pages.len(),
    ensures
        awaited(progress(pages, payloads)) is None,
{
    lemma_progress(pages, payloads);
}

/// A response that fails to come ends the wait, whatever comes later.
pub proof fn timeout_ends_the_wait(
    pages: Seq<usize>,
    payloads: Seq<Option<Seq<char>>>,
    later: Seq<Option<Seq<char>>>,
)
    requires
        progress(pages, payloads).timed_out,
    ensures
        awaited(progress(pages, payloads + later)) is None,
        progress(pages, payloads + later) == progress(pages, payloads),
        transfers(pages, payloads + later) == transfers(pages, payloads),
    decreases later.len(),
{
    if later.len() == 0 {
        assert(payloads + later =~= payloads);
    } else {
        timeout_ends_the_wait(pages, payloads, later.drop_last());
        assert((payloads + later).drop_last() =~= payloads + later.drop_last());
    }
}

/// Exactly those pages are transferred again whose response came and did not accept them.
pub proof fn refused_pages_are_transferred_again(
    pages: Seq<usize>,
    payloads: Seq<Option<Seq<char>>>,
    page: usize,
)
    ensures
        transfers(pages, payloads).contains(page) <==> exists|i: int|
            0 <= i < progress(pages, payloads).answered && pages[i] == page && !accepted(
                (#[trigger] payloads[i])->0,
            ),
    decreases payloads.len(),
{
    lemma_progress(pages, payloads);
    if payloads.len() == 0 {
        assert(!transfers(pages, payloads).contains(page));
    } else {
        let before = payloads.drop_last();
        let p = progress(pages, before);
        let so_far = transfers(pages, before);
        let all = transfers(pages, payloads);
        refused_pages_are_transferred_again(pages, before, page);
        lemma_progress(pages, before);
        let n = progress(pages, payloads).answered;
        if all.contains(page) {
            let k = choose|k: int| 0 <= k < all.len() && all[k] == page;
            if k < so_far.len() {
                assert(so_far[k] == page);
                let i = choose|i: int|
                    0 <= i < p.answered && pages[i] == page && !accepted(
                        (#[trigger] before[i])->0,
                    );
                assert(payloads[i] == before[i]);
            } else {
                assert(payloads[payloads.len() - 1] == payloads.last());
                assert(pages[p.answered] == page);
                assert(p.answered == payloads.len() - 1);
            }
        }
        if exists|i: int|
            0 <= i < n && pages[i] == page && !accepted((#[trigger] payloads[i])->0) {
            let i = choose|i: int|
                0 <= i < n && pages[i] == page && !accepted((#[trigger] payloads[i])->0);
            if i < p.answered {
                assert(before[i] == payloads[i]);
                assert(so_far.contains(page));
                let k = choose|k: int| 0 <= k < so_far.len() && so_far[k] == page;
                assert(all[k] == page);
            } else {
                assert(i == p.answered && i == payloads.len() - 1);
                assert(all[all.len() - 1] == page);
            }
        }
    }
}

/// The wait begins with the first page, if one was drawn, and with nothing to throw away.
pub proof fn wait_begins_with_the_first_page(
    pages: Vec<usize>,
    h: Handshake,
    r: Option<usize>,
    drain: bool,
)
    requires
        call_ensures(Handshake::new, (pages,), h),
        call_ensures(Handshake::awaiting, (&h,), r),
        call_ensures(Handshake::must_drain, (&h,), drain),
    ensures
        pages@.len() == 0 ==> r is None,
        pages@.len() > 0 ==> r == Some(pages@[0]),
        !drain,
        h@.pages == pages@,
        h@.answered == 0,
{
}

/// A response counts for the page that is waited for: that page is transferred again exactly
/// where no `OK` stands in the response. Then the next page in order is waited for. Where no
/// response comes, no page is transferred again, nothing is waited for any more, and late
/// responses have to be thrown away.
pub proof fn response_counts_for_the_awaited_page(
    h: &mut Handshake,
    before: &Handshake,
    after: &Handshake,
    payload: Option<&str>,
    page: usize,
    r: Option<usize>,
    next: Option<usize>,
    drain: bool,
)
    requires
        *before == *h,
        call_ensures(Handshake::awaiting, (before,), Some(page)),
        call_ensures(Handshake::respond, (h, payload), r),
        *after == *final(h),
        call_ensures(Handshake::awaiting, (after,), next),
        call_ensures(Handshake::must_drain, (after,), drain),
    ensures
        ({
            let (pages, k) = (before@.pages, before@.answered);
            &&& 0 <= k < pages.len() && page == pages[k]
            &&& after@.pages == pages
            &&& match payload {
                Some(text) => {
                    &&& r == if holds_ok(text@) {
                        None
                    } else {
                        Some(page)
                    }
                    &&& after@.answered == k + 1
                    &&& k + 1 < pages.len() ==> next == Some(pages[k + 1])
                    &&& k + 1 == pages.len() ==> next is None
                    &&& !drain
                },
                None => r is None && next is None && drain && after@.answered == k,
            }
        }),
{
    if let Some(text) = payload {
        lemma_ok(text@);
    }
}

/// As long as responses come, they are matched with the pages in order: after as many as there
/// are, the page behind these is waited for, and after a page without a response none is.
pub proof fn pages_are_answered_in_order(pages: Seq<usize>, payloads: Seq<Option<Seq<char>>>)
    requires
        payloads.len() <= pages.len(),
        forall|i: int| 0 <= i < payloads.len() ==> (#[trigger] payloads[i]) is Some,
    ensures
        progress(pages, payloads).pages == pages,
        progress(pages, payloads).answered == payloads.len(),
        !progress(pages, payloads).timed_out,
        payloads.len() < pages.len() ==> {
            &&& awaited(progress(pages, payloads)) == Some(pages[payloads.len() as int])
            &&& progress(pages, payloads.push(None)).timed_out
            &&& awaited(progress(pages, payloads.push(None))) is None
            &&& transfers(pages, payloads.push(None)) == transfers(pages, payloads)
        },
    decreases payloads.len(),
{
    if payloads.len() > 0 {
        let before = payloads.drop_last();
        assert forall|i: int| 0 <= i < before.len() implies (#[trigger] before[i]) is Some by {
            assert(before[i] == payloads[i]);
        }
        pages_are_answered_in_order(pages, before);
        assert(payloads[payloads.len() - 1] is Some);
    }
    assert(payloads.push(None).drop_last() =~= payloads);
}

} // verus!
