use crate::fingerprint::opt_chars;
use vstd::prelude::*;

verus! {

/// The most records asked of the remote source in one page.
pub const PAGE_LIMIT: u64 = 1000;

/// Where a fetch stands.
pub enum Phase {
    /// Pages are still being requested.
    Running,
    /// Every record of the answer is written: the partial entry may be
    /// promoted to the committed entry.
    Committed,
    /// A page failed: the partial entry must not be promoted.
    Aborted,
}

/// A page to ask of the remote source: at most `limit` records, resuming at
/// `token` (none for the first page).
pub struct PageRequest {
    pub limit: u64,
    pub token: Option<String>,
}

/// What the caller does next.
pub enum FetchStep {
    Request(PageRequest),
    Commit,
    Abort,
}

/// The state of one paginated fetch, as the caller sees it.
pub struct FetchView {
    pub max_items: Option<u64>,
    /// How many records have been handed out to be written so far.
    pub delivered: nat,
    /// The continuation token of the next page.
    pub token: Option<Seq<char>>,
    pub phase: Phase,
}

/// Decides, page by page, what to ask of the remote source, how many of the
/// records received to keep, and when the fetch is over.
pub struct FetchDriver {
    max_items: Option<u64>,
    remaining: u64,
    token: Option<String>,
    phase: Phase,
    delivered: Ghost<nat>,
}

/// The size of the next page once `delivered` records are kept.
pub open spec fn page_limit(max_items: Option<u64>, delivered: nat) -> u64 {
    match max_items {
        Some(m) => if m - delivered < PAGE_LIMIT {
            (m - delivered) as u64
        } else {
            PAGE_LIMIT
        },
        None => PAGE_LIMIT,
    }
}

/// How many of `received` records are kept when `delivered` were kept before.
pub open spec fn kept(max_items: Option<u64>, delivered: nat, received: nat) -> nat {
    match max_items {
        Some(m) => if received <= m - delivered {
            received
        } else {
            (m - delivered) as nat
        },
        None => received,
    }
}

/// The fetch is over after a page: the stream is exhausted, or the bound on
/// the number of items is reached.
pub open spec fn finished(max_items: Option<u64>, delivered: nat, next_token: Option<Seq<char>>) -> bool {
    next_token is None || (max_items matches Some(m) && delivered >= m)
}

/// `step` asks for a page of `limit` records that resumes at `token`.
pub open spec fn requests(step: FetchStep, limit: u64, token: Option<Seq<char>>) -> bool {
    match step {
        FetchStep::Request(req) => req.limit == limit && opt_chars(req.token) == token,
        _ => false,
    }
}

/// What holds of every fetch in every state: never more records than asked
/// for, and a running fetch still has room for one more.
pub open spec fn fetch_inv(v: FetchView) -> bool {
    match v.max_items {
        Some(m) => v.delivered <= m && (v.phase is Running ==> v.delivered < m),
        None => true,
    }
}

impl View for FetchDriver {
    type V = FetchView;

    closed spec fn view(&self) -> FetchView {
        FetchView {
            max_items: self.max_items,
            delivered: self.delivered@,
            token: opt_chars(self.token),
            phase: self.phase,
        }
    }
}

impl FetchDriver {
    pub closed spec fn wf(&self) -> bool {
        fetch_inv(self@) && (self.max_items matches Some(m) ==> self.remaining == m
            - self.delivered@)
    }

    fn request(&self) -> (r: FetchStep)
        requires
            self.wf(),
        ensures
            requests(r, page_limit(self@.max_items, self@.delivered), self@.token),
    {
        let limit = match self.max_items {
            Some(_) => if self.remaining < PAGE_LIMIT {
                self.remaining
            } else {
                PAGE_LIMIT
            },
            None => PAGE_LIMIT,
        };
        let token = match &self.token {
            Some(t) => Some(t.clone()),
            None => None,
        };
        FetchStep::Request(PageRequest { limit, token })
    }

    /// Starts a fetch of at most `max_items` records, or of the whole stream.
    /// A bound of zero is answered at once by an empty entry.
    pub fn start(max_items: Option<u64>) -> (r: (FetchDriver, FetchStep))
        ensures
            r.0.wf(),
            fetch_inv(r.0@),
            r.0@.max_items == max_items,
            r.0@.delivered == 0,
            r.0@.token is None,
            max_items == Some(0u64) ==> r.0@.phase is Committed && r.1 is Commit,
            max_items != Some(0u64) ==> r.0@.phase is Running && requests(
                r.1,
                page_limit(max_items, 0),
                None,
            ),
    {
        let remaining = match max_items {
            Some(m) => m,
            None => 0,
        };
        if remaining == 0 && max_items.is_some() {
            let d = FetchDriver {
                max_items,
                remaining,
                token: None,
                phase: Phase::Committed,
                delivered: Ghost(0),
            };
            (d, FetchStep::Commit)
        } else {
            let d = FetchDriver {
                max_items,
                remaining,
                token: None,
                phase: Phase::Running,
                delivered: Ghost(0),
            };
            let step = d.request();
            (d, step)
        }
    }

    /// A page of `received` records arrived, with the token of the page
    /// after it. Returns how many of the records, from the front, to write
    /// and emit, and what to do next: commit when the stream is exhausted or
    /// the bound is reached, else request the following page.
    pub fn on_page(&mut self, received: usize, next_token: Option<String>) -> (r: (
        usize,
        FetchStep,
    ))
        requires
            old(self).wf(),
            old(self)@.phase is Running,
        ensures
            final(self).wf(),
            fetch_inv(final(self)@),
            r.0 == kept(old(self)@.max_items, old(self)@.delivered, received as nat),
            final(self)@.max_items == old(self)@.max_items,
            final(self)@.delivered == old(self)@.delivered + r.0,
            final(self)@.token == opt_chars(next_token),
            finished(final(self)@.max_items, final(self)@.delivered, opt_chars(next_token))
                ==> final(self)@.phase is Committed && r.1 is Commit,
            !finished(final(self)@.max_items, final(self)@.delivered, opt_chars(next_token))
                ==> final(self)@.phase is Running && requests(
                r.1,
                page_limit(final(self)@.max_items, final(self)@.delivered),
                opt_chars(next_token),
            ),
    {
        let keep: usize = match self.max_items {
            Some(_) => if (received as u64) <= self.remaining {
                received
            } else {
                self.remaining as usize
            },
            None => received,
        };
        if self.max_items.is_some() {
            self.remaining = self.remaining - keep as u64;
        }
        self.delivered = Ghost(self.delivered@ + keep as nat);
        let exhausted = next_token.is_none();
        self.token = next_token;
        if exhausted || (self.max_items.is_some() && self.remaining == 0) {
            self.phase = Phase::Committed;
            (keep, FetchStep::Commit)
        } else {
            let step = self.request();
            (keep, step)
        }
    }

    /// A page could not be fetched: the whole fetch is abandoned and its
    /// partial entry is never committed.
    pub fn on_failure(&mut self) -> (r: FetchStep)
        requires
            old(self).wf(),
            old(self)@.phase is Running,
        ensures
            final(self).wf(),
            fetch_inv(final(self)@),
            r is Abort,
            final(self)@.phase is Aborted,
            final(self)@.max_items == old(self)@.max_items,
            final(self)@.delivered == old(self)@.delivered,
            final(self)@.token == old(self)@.token,
    {
        self.phase = Phase::Aborted;
        FetchStep::Abort
    }

    pub fn phase(&self) -> (r: &Phase)
        ensures
            *r == self@.phase,
    {
        &self.phase
    }
}

} // verus!
