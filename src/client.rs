use vstd::prelude::*;

use crate::record::PageResponse;
use crate::term::{is_ipv4, spec_is_ipv4};
use crate::text::{nat_digits, push_nat, push_str};

verus! {

/// What the transport reported for one page request.
pub enum FetchOutcome {
    /// A success status whose body decoded as a page.
    Page(PageResponse),
    /// A success status whose body did not decode as a page.
    Malformed,
    /// A client-error (4xx) status, such as rate limiting.
    ClientStatus(u16),
    /// Any other error status.
    OtherStatus(u16),
    /// No response was received at all.
    Transport,
}

/// Why one call for a page produced no page.
pub enum ClientError {
    /// The session provider failed; its message is kept.
    Provider(String),
    /// A client-error status: retry the same page after a back-off.
    RateLimited(u16),
    /// Another error status; the session is kept.
    Status(u16),
    /// No response: the session was dropped and is renewed on the next call.
    SessionLost,
    /// The body did not decode as a page.
    Parse,
}

/// What the client needs next before a page can be requested.
#[derive(Clone, Copy, Debug, PartialEq, Eq, Structural)]
pub enum Step {
    /// Obtain a new session from the provider first.
    Renew,
    /// Request the page that `next_url` names.
    Fetch,
}

/// The client's state, as plain values.
pub struct ClientModel {
    pub page: nat,
    pub term: Seq<char>,
    pub expired: bool,
    pub build_id: Option<Seq<char>>,
}

/// Address prefix of the data pages.
pub open spec fn base_url() -> Seq<char> {
    "https://securitytrails.com/_next/data/"@
}

/// Page path of a term: the IP search for an IPv4 address, the keyword search
/// otherwise, both with the page number.
pub open spec fn page_path(term: Seq<char>, page: nat) -> Seq<char> {
    if spec_is_ipv4(term) {
        "ip/"@ + term + ".json?ip="@ + term + "&page="@ + nat_digits(page)
    } else {
        "keyword/"@ + term + ".json?keyword="@ + term + "&page="@ + nat_digits(page)
    }
}

/// Full address of the next page request: under the build id of the last
/// session obtained, or straight under the prefix before any session.
pub open spec fn request_url(m: ClientModel) -> Seq<char> {
    match m.build_id {
        Some(id) => base_url() + id + "/list/"@ + page_path(m.term, m.page),
        None => base_url() + page_path(m.term, m.page),
    }
}

pub open spec fn next_step(m: ClientModel) -> Step {
    if m.expired { Step::Renew } else { Step::Fetch }
}

pub open spec fn page_has_records(o: FetchOutcome) -> bool {
    match o {
        FetchOutcome::Page(p) => p.spec_records().len() > 0,
        _ => false,
    }
}

/// The state after the transport reported `o`: a page with records moves to
/// the next page, a missing response drops the session, anything else
/// changes nothing.
pub open spec fn after_outcome(m: ClientModel, o: FetchOutcome) -> ClientModel {
    if page_has_records(o) {
        ClientModel { page: if m.page < usize::MAX { m.page + 1 } else { m.page }, ..m }
    } else if o is Transport {
        ClientModel { expired: true, ..m }
    } else {
        m
    }
}

/// What one request returns for the outcome `o`.
pub open spec fn outcome_result(o: FetchOutcome) -> Result<PageResponse, ClientError> {
    match o {
        FetchOutcome::Page(p) => Ok(p),
        FetchOutcome::Malformed => Err(ClientError::Parse),
        FetchOutcome::ClientStatus(c) => Err(ClientError::RateLimited(c)),
        FetchOutcome::OtherStatus(c) => Err(ClientError::Status(c)),
        FetchOutcome::Transport => Err(ClientError::SessionLost),
    }
}

/// The state after the provider answered: a build id makes the session valid.
pub open spec fn after_renewal(m: ClientModel, r: Result<String, String>) -> ClientModel {
    match r {
        Ok(id) => ClientModel { expired: false, build_id: Some(id@), ..m },
        Err(_) => m,
    }
}

/// The state after the outcomes `os`, in order.
pub open spec fn after_outcomes(m: ClientModel, os: Seq<FetchOutcome>) -> ClientModel
    decreases os.len(),
{
    if os.len() == 0 {
        m
    } else {
        after_outcome(after_outcomes(m, os.drop_last()), os.last())
    }
}

/// Turns one search term into a sequence of page requests, and keeps the
/// session under which they are made.
///
/// The requests themselves, and the session provider, are run by the
/// caller: `next_step` says which of the two is due, `next_url` names the
/// page, and `session_renewed` and `receive` take back what came of them.
pub struct SecTrailClient {
    page: usize,
    data: String,
    expired: bool,
    build_id: Option<String>,
}

impl SecTrailClient {
    pub closed spec fn model(&self) -> ClientModel {
        ClientModel {
            page: self.page as nat,
            term: self.data@,
            expired: self.expired,
            build_id: match self.build_id {
                Some(id) => Some(id@),
                None => None,
            },
        }
    }

    pub open spec fn wf(&self) -> bool {
        self.model().page >= 1
    }

    /// A client with no session and an empty term, at page one.
    pub fn new() -> (r: SecTrailClient)
        ensures
            r.wf(),
            r.model() == (ClientModel {
                page: 1,
                term: Seq::empty(),
                expired: true,
                build_id: None,
            }),
    {
        SecTrailClient { page: 1, data: String::new(), expired: true, build_id: None }
    }

    /// Starts the pages of a new term at page one; the session is kept.
    pub fn new_sequence(&mut self, data: &str)
        ensures
            final(self).wf(),
            final(self).model() == (ClientModel { page: 1, term: data@, ..old(self).model() }),
    {
        self.data = String::from_str(data);
        self.page = 1;
    }

    /// The page number the next request asks for.
    pub fn page(&self) -> (r: usize)
        requires
            self.wf(),
        ensures
            r == self.model().page,
    {
        if self.page > 1 { self.page } else { 1 }
    }

    pub fn is_expired(&self) -> (r: bool)
        ensures
            r == self.model().expired,
    {
        self.expired
    }

    /// Whether a new session is due before the next request.
    pub fn next_step(&self) -> (r: Step)
        ensures
            r == next_step(self.model()),
    {
        if self.expired { Step::Renew } else { Step::Fetch }
    }

    /// Address of the next page request.
    pub fn next_url(&self) -> (r: String)
        requires
            self.wf(),
        ensures
            r@ == request_url(self.model()),
    {
        let term = self.data.as_str();
        let page = self.page();
        let mut url = String::from_str("https://securitytrails.com/_next/data/");
        match &self.build_id {
            Some(id) => {
                push_str(&mut url, id.as_str());
                push_str(&mut url, "/list/");
            },
            None => {},
        }
        if is_ipv4(term) {
            push_str(&mut url, "ip/");
            push_str(&mut url, term);
            push_str(&mut url, ".json?ip=");
            push_str(&mut url, term);
        } else {
            push_str(&mut url, "keyword/");
            push_str(&mut url, term);
            push_str(&mut url, ".json?keyword=");
            push_str(&mut url, term);
        }
        push_str(&mut url, "&page=");
        push_nat(&mut url, page as u64);
        assert(url@ =~= request_url(self.model()));
        url
    }

    /// Takes the provider's answer: a build id makes the session valid; a
    /// failure is handed back as an error and the session stays invalid.
    pub fn session_renewed(&mut self, answer: Result<String, String>) -> (r: Result<(), ClientError>)
        requires
            old(self).wf(),
        ensures
            final(self).wf(),
            final(self).model() == after_renewal(old(self).model(), answer),
            r == (match answer {
                Ok(_) => Ok::<(), ClientError>(()),
                Err(m) => Err(ClientError::Provider(m)),
            }),
    {
        match answer {
            Ok(id) => {
                self.build_id = Some(id);
                self.expired = false;
                Ok(())
            },
            Err(m) => Err(ClientError::Provider(m)),
        }
    }

    /// Takes what the transport reported for the request `next_url` named.
    pub fn receive(&mut self, outcome: FetchOutcome) -> (r: Result<PageResponse, ClientError>)
        requires
            old(self).wf(),
        ensures
            final(self).wf(),
            final(self).model() == after_outcome(old(self).model(), outcome),
            r == outcome_result(outcome),
    {
        match outcome {
            FetchOutcome::Page(p) => {
                if p.as_records().len() > 0 && self.page < usize::MAX {
                    self.page = self.page + 1;
                }
                Ok(p)
            },
            FetchOutcome::Malformed => Err(ClientError::Parse),
            FetchOutcome::ClientStatus(c) => Err(ClientError::RateLimited(c)),
            FetchOutcome::OtherStatus(c) => Err(ClientError::Status(c)),
            FetchOutcome::Transport => {
                self.expired = true;
                Err(ClientError::SessionLost)
            },
        }
    }
}

/// A page is never skipped: while requests fail, every retry asks for the
/// same page as the first attempt, and the session is kept unless no
/// response came back at all.
pub proof fn lemma_retry_without_advance(m: ClientModel, os: Seq<FetchOutcome>)
    requires
        forall|i: int| 0 <= i < os.len() ==> !((#[trigger] os[i]) is Page),
    ensures
        forall|k: int| 0 <= k <= os.len() ==> (#[trigger] after_outcomes(m, os.take(k))).page == m.page,
        forall|k: int| 0 <= k <= os.len() ==> (#[trigger] after_outcomes(m, os.take(k))).term == m.term,
        (forall|i: int| 0 <= i < os.len() ==> !((#[trigger] os[i]) is Transport))
            ==> after_outcomes(m, os) == m,
    decreases os.len(),
{
    if os.len() > 0 {
        let init = os.drop_last();
        lemma_retry_without_advance(m, init);
        assert forall|k: int| 0 <= k <= os.len() implies (#[trigger] after_outcomes(m, os.take(k))).page
            == m.page && after_outcomes(m, os.take(k)).term == m.term by {
            if k < os.len() {
                assert(os.take(k) =~= init.take(k));
            } else {
                assert(os.take(k) =~= os);
                assert(init.take(init.len() as int) =~= init);
                let prev = after_outcomes(m, init.take(init.len() as int));
                assert(prev.page == m.page && prev.term == m.term);
                assert(os.drop_last() =~= init);
                assert(!(os.last() is Page));
                assert(!page_has_records(os.last()));
            }
        }
        if forall|i: int| 0 <= i < os.len() ==> !((#[trigger] os[i]) is Transport) {
            assert forall|i: int| 0 <= i < init.len() implies !((#[trigger] init[i]) is Transport) by {
                assert(init[i] == os[i]);
            }
            assert(!(os.last() is Transport));
            assert(!(os.last() is Page));
        }
    }
}

/// A success after the retries moves on to exactly the next page.
pub proof fn lemma_success_advances(m: ClientModel, o: FetchOutcome)
    requires
        page_has_records(o),
        m.page < usize::MAX,
    ensures
        after_outcome(m, o).page == m.page + 1,
        after_outcome(m, o).expired == m.expired,
{
}

/// A missing response makes the next step a renewal; one successful renewal
/// makes the step after it a request for the same page again; and from a
/// valid session no outcome but a missing response ever asks for another
/// renewal.
pub proof fn lemma_session_renewal(m: ClientModel, id: String, os: Seq<FetchOutcome>)
    requires
        !m.expired,
        forall|i: int| 0 <= i < os.len() ==> !((#[trigger] os[i]) is Transport),
    ensures
        next_step(after_outcome(m, FetchOutcome::Transport)) == Step::Renew,
        after_outcome(m, FetchOutcome::Transport).page == m.page,
        next_step(after_renewal(after_outcome(m, FetchOutcome::Transport), Ok(id))) == Step::Fetch,
        after_renewal(after_outcome(m, FetchOutcome::Transport), Ok(id)).page == m.page,
        forall|k: int| 0 <= k <= os.len() ==> next_step(#[trigger] after_outcomes(m, os.take(k)))
            == Step::Fetch,
{
    lemma_no_transport_keeps_session(m, os);
}

proof fn lemma_no_transport_keeps_session(m: ClientModel, os: Seq<FetchOutcome>)
    requires
        !m.expired,
        forall|i: int| 0 <= i < os.len() ==> !((#[trigger] os[i]) is Transport),
    ensures
        forall|k: int| 0 <= k <= os.len() ==> !(#[trigger] after_outcomes(m, os.take(k))).expired,
    decreases os.len(),
{
    if os.len() > 0 {
        let init = os.drop_last();
        assert forall|i: int| 0 <= i < init.len() implies !((#[trigger] init[i]) is Transport) by {
            assert(init[i] == os[i]);
        }
        lemma_no_transport_keeps_session(m, init);
        assert forall|k: int| 0 <= k <= os.len() implies !(#[trigger] after_outcomes(m, os.take(k))).expired by {
            if k < os.len() {
                assert(os.take(k) =~= init.take(k));
            } else {
                assert(os.take(k) =~= os);
                assert(init.take(init.len() as int) =~= init);
                let prev = after_outcomes(m, init.take(init.len() as int));
                assert(!prev.expired);
                assert(os.drop_last() =~= init);
                assert(!(os.last() is Transport));
            }
        }
    }
}

} // verus!
