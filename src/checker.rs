use vstd::prelude::*;

use crate::client::ClientError;
use crate::record::{PageResponse, Record};
use crate::statistic::{wrap_add, Statistic, StatsModel};

verus! {

/// Least time, in seconds, from the start of one page request to the start
/// of the next for the same term.
pub const PAGE_SPACING_SECS: u64 = 6;

/// Pause, in seconds, after the remote side refused a request as a client error.
pub const RATE_LIMIT_BACKOFF_SECS: u64 = 30;

impl ClientError {
    /// Extra pause before the same page is asked for again.
    pub fn backoff_secs(&self) -> (r: u64)
        ensures
            r == (if *self is RateLimited { RATE_LIMIT_BACKOFF_SECS } else { 0 }),
    {
        match self {
            ClientError::RateLimited(_) => RATE_LIMIT_BACKOFF_SECS,
            _ => 0,
        }
    }
}

/// What the checker does with one page result.
pub enum PageVerdict {
    /// Hand these records on, in this order, then ask for the next page.
    Forward(Vec<Record>),
    /// The page was empty: the term is done.
    Finished,
    /// The request failed: ask for the same page again.
    Retry,
}

/// Records that a page result hands on.
pub open spec fn forwarded_by(r: Result<PageResponse, ClientError>) -> Seq<Record> {
    match r {
        Ok(p) => p.spec_records(),
        Err(_) => Seq::empty(),
    }
}

/// A page with no records ends the term's sequence.
pub open spec fn ends_sequence(r: Result<PageResponse, ClientError>) -> bool {
    match r {
        Ok(p) => p.spec_records().len() == 0,
        Err(_) => false,
    }
}

/// Records handed on over a run of page results, and whether the run has
/// ended; results after the end are not looked at.
pub open spec fn check_run(rs: Seq<Result<PageResponse, ClientError>>) -> (Seq<Record>, bool)
    decreases rs.len(),
{
    if rs.len() == 0 {
        (Seq::empty(), false)
    } else {
        let (f, done) = check_run(rs.drop_last());
        if done {
            (f, done)
        } else {
            (f + forwarded_by(rs.last()), ends_sequence(rs.last()))
        }
    }
}

/// Each page as a successful result.
pub open spec fn as_results(pages: Seq<PageResponse>) -> Seq<Result<PageResponse, ClientError>> {
    pages.map_values(|p: PageResponse| Ok::<PageResponse, ClientError>(p))
}

/// The records of the pages, page after page.
pub open spec fn all_records(pages: Seq<PageResponse>) -> Seq<Record>
    decreases pages.len(),
{
    if pages.len() == 0 {
        Seq::empty()
    } else {
        all_records(pages.drop_last()) + pages.last().spec_records()
    }
}

/// The run of one term through its pages.
pub struct TermCheck {
    term: String,
    term_bytes: usize,
    total_records: usize,
    finished: bool,
    history: Ghost<Seq<Result<PageResponse, ClientError>>>,
}

impl TermCheck {
    pub closed spec fn spec_term(&self) -> Seq<char> {
        self.term@
    }

    /// Length of the term in bytes of UTF-8.
    pub closed spec fn spec_term_bytes(&self) -> nat {
        self.term_bytes as nat
    }

    pub closed spec fn spec_total(&self) -> nat {
        self.total_records as nat
    }

    pub closed spec fn spec_finished(&self) -> bool {
        self.finished
    }

    /// Every page result taken so far, in order.
    pub closed spec fn spec_history(&self) -> Seq<Result<PageResponse, ClientError>> {
        self.history@
    }

    /// Every record handed on so far, in order.
    pub open spec fn spec_forwarded(&self) -> Seq<Record> {
        check_run(self.spec_history()).0
    }

    /// The term is finished exactly when its results so far end the run.
    pub open spec fn wf(&self) -> bool {
        self.spec_finished() == check_run(self.spec_history()).1
    }

    pub fn new(term: &str) -> (r: TermCheck)
        ensures
            r.spec_term() == term@,
            r.spec_term_bytes() == term.len(),
            r.spec_total() == 0,
            r.wf(),
            !r.spec_finished(),
            r.spec_history() == Seq::<Result<PageResponse, ClientError>>::empty(),
    {
        TermCheck {
            term: String::from_str(term),
            term_bytes: term.len(),
            total_records: 0,
            finished: false,
            history: Ghost(Seq::empty()),
        }
    }

    pub fn term(&self) -> (r: &str)
        ensures
            r@ == self.spec_term(),
    {
        self.term.as_str()
    }

    /// Records handed on for this term so far (stops at the largest count).
    pub fn total_records(&self) -> (r: usize)
        ensures
            r == self.spec_total(),
    {
        self.total_records
    }

    pub fn is_finished(&self) -> (r: bool)
        ensures
            r == self.spec_finished(),
    {
        self.finished
    }

    /// Decides what one page result means for the term: its records are
    /// handed on, an empty page ends the term, and a failure counts as an
    /// error and asks for the same page again.
    pub fn on_result(&mut self, result: Result<PageResponse, ClientError>, stats: &mut Statistic) -> (r: PageVerdict)
        requires
            old(self).wf(),
            !old(self).spec_finished(),
        ensures
            final(self).wf(),
            final(self).spec_history() == old(self).spec_history().push(result),
            final(self).spec_term() == old(self).spec_term(),
            final(self).spec_term_bytes() == old(self).spec_term_bytes(),
            final(self).spec_forwarded() == old(self).spec_forwarded() + forwarded_by(result),
            final(self).spec_finished() == ends_sequence(result),
            final(stats).spec_pulse() == old(stats).spec_pulse(),
            match result {
                Ok(p) => {
                    &&& final(stats)@ == old(stats)@
                    &&& if p.spec_records().len() == 0 {
                        &&& r is Finished
                        &&& final(self).spec_total() == old(self).spec_total()
                    } else {
                        &&& r matches PageVerdict::Forward(v) && v@ == p.spec_records()
                        &&& final(self).spec_total() == (if old(self).spec_total() + p.spec_records().len() <= usize::MAX {
                            old(self).spec_total() + p.spec_records().len()
                        } else {
                            usize::MAX as nat
                        })
                    }
                },
                Err(_) => {
                    &&& r is Retry
                    &&& final(self).spec_total() == old(self).spec_total()
                    &&& final(stats)@ == (StatsModel {
                        errors: wrap_add(old(stats)@.errors as int, 1) as nat,
                        ..old(stats)@
                    })
                },
            },
    {
        proof {
            let h = self.history@.push(result);
            assert(h.drop_last() =~= self.history@);
            assert(h.last() == result);
        }
        self.history = Ghost(self.history@.push(result));
        match result {
            Ok(page) => {
                let records = page.into_records();
                if records.len() == 0 {
                    self.finished = true;
                    PageVerdict::Finished
                } else {
                    self.total_records = self.total_records.saturating_add(records.len());
                    PageVerdict::Forward(records)
                }
            },
            Err(_) => {
                stats.increment_errors();
                PageVerdict::Retry
            },
        }
    }

    /// Books a finished term: one more term done, its length in bytes
    /// processed, and the rate refreshed at time `now`.
    pub fn finish(&self, stats: &mut Statistic, now: u64)
        ensures
            final(stats).spec_pulse() == old(stats).spec_pulse(),
            final(stats)@.cur == wrap_add(old(stats)@.cur as int, 1),
            final(stats)@.bytes_processed == wrap_add(
                old(stats)@.bytes_processed as int,
                self.spec_term_bytes() as int,
            ),
            final(stats)@.errors == old(stats)@.errors,
            final(stats)@.max == old(stats)@.max,
            final(stats)@.start_time == old(stats)@.start_time,
            final(stats)@.rate == (match old(stats)@.start_time {
                Some(start) => if now > start {
                    final(stats)@.cur / (now - start) as nat
                } else {
                    old(stats)@.rate
                },
                None => old(stats)@.rate,
            }),
    {
        stats.increment();
        stats.add_bytes_processed(self.term_bytes);
        stats.update_rate(now);
    }
}

/// Driving a term through pages that each hold records, and then an empty
/// page, hands on exactly the records of those pages, each once and in page
/// order, and ends the term only at the empty page. The run is the one a
/// `TermCheck` has taken once `spec_history()` equals `rs`.
pub proof fn lemma_pagination_termination(
    rs: Seq<Result<PageResponse, ClientError>>,
    pages: Seq<PageResponse>,
    end: PageResponse,
)
    requires
        end.spec_records().len() == 0,
        forall|i: int| 0 <= i < pages.len() ==> (#[trigger] pages[i]).spec_records().len() > 0,
        rs == as_results(pages).push(Ok(end)),
    ensures
        check_run(rs) == (all_records(pages), true),
        forall|k: int| 0 <= k < rs.len() ==> !(#[trigger] check_run(rs.take(k))).1,
{
    lemma_pages_run(pages);
    let oks = as_results(pages);
    assert(rs.drop_last() =~= oks);
    assert(oks.take(oks.len() as int) =~= oks);
    assert(all_records(pages) + end.spec_records() =~= all_records(pages));
    let n = pages.len() as int;
    assert(check_run(oks.take(n)) == (all_records(pages.take(n)), false));
    assert(pages.take(n) =~= pages);
    assert(check_run(rs.drop_last()) == (all_records(pages), false));
    assert(rs.last() == Ok::<PageResponse, ClientError>(end));
    assert forall|k: int| 0 <= k < rs.len() implies !(#[trigger] check_run(rs.take(k))).1 by {
        assert(rs.take(k) =~= oks.take(k));
    }
}

proof fn lemma_pages_run(pages: Seq<PageResponse>)
    requires
        forall|i: int| 0 <= i < pages.len() ==> (#[trigger] pages[i]).spec_records().len() > 0,
    ensures
        forall|k: int| 0 <= k <= pages.len() ==> (#[trigger] check_run(
            as_results(pages).take(k),
        )) == (all_records(pages.take(k)), false),
    decreases pages.len(),
{
    let oks = as_results(pages);
    if pages.len() > 0 {
        let init = pages.drop_last();
        assert forall|i: int| 0 <= i < init.len() implies (#[trigger] init[i]).spec_records().len() > 0 by {
            assert(init[i] == pages[i]);
        }
        lemma_pages_run(init);
        let init_oks = as_results(init);
        assert forall|k: int| 0 <= k <= pages.len() implies (#[trigger] check_run(oks.take(k)))
            == (all_records(pages.take(k)), false) by {
            if k < pages.len() {
                assert(oks.take(k) =~= init_oks.take(k));
                assert(pages.take(k) =~= init.take(k));
            } else {
                assert(oks.take(k) =~= oks);
                assert(pages.take(k) =~= pages);
                assert(oks.drop_last() =~= init_oks.take(init.len() as int));
                assert(init.take(init.len() as int) =~= init);
                assert(oks.last() == Ok::<PageResponse, ClientError>(pages.last()));
                assert(pages.last().spec_records().len() > 0);
                let n = init.len() as int;
                assert(check_run(init_oks.take(n)) == (all_records(init.take(n)), false));
                assert(check_run(oks.drop_last()) == (all_records(init), false));
                assert(pages.drop_last() =~= init);
                assert(all_records(pages) == all_records(init) + pages.last().spec_records());
                assert(!ends_sequence(oks.last()));
            }
        }
    } else {
        assert forall|k: int| 0 <= k <= pages.len() implies (#[trigger] check_run(oks.take(k)))
            == (all_records(pages.take(k)), false) by {
            assert(oks.take(k) =~= Seq::<Result<PageResponse, ClientError>>::empty());
            assert(pages.take(k) =~= Seq::<PageResponse>::empty());
        }
    }
}

/// A term fed pages that each hold records and then an empty page has
/// handed on exactly the records of those pages, in page order, and is
/// finished.
pub proof fn lemma_term_check_pages(tc: &TermCheck, pages: Seq<PageResponse>, end: PageResponse)
    requires
        tc.wf(),
        end.spec_records().len() == 0,
        forall|i: int| 0 <= i < pages.len() ==> (#[trigger] pages[i]).spec_records().len() > 0,
        tc.spec_history() == as_results(pages).push(Ok(end)),
    ensures
        tc.spec_forwarded() == all_records(pages),
        tc.spec_finished(),
{
    lemma_pagination_termination(tc.spec_history(), pages, end);
}

} // verus!
