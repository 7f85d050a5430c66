//! The callback listener: a state machine that captures exactly one
//! provider redirect, extracts the authorization code from the query
//! string, and validates the returned state against the expected one.
//!
//! The machine itself is pure: the embedding HTTP server binds the
//! loopback socket when the machine starts listening, feeds it each
//! incoming request, and releases the socket when the outcome is taken.

use crate::login::StateString;
use vstd::prelude::*;

verus! {

/// The terminal result of one listener run.
pub enum CallbackOutcome {
    /// A state-matched redirect carrying this authorization code.
    Code(String),
    /// The redirect carried a state other than the expected one.
    StateMismatch,
    /// A state-matched redirect without an authorization code.
    ListenerError,
}

/// The listener's lifecycle: it produces exactly one outcome, and accepts
/// no further request after that.
pub enum ListenerPhase {
    Idle,
    Listening,
    Resolved(CallbackOutcome),
    Closed,
}

/// The reply the embedding HTTP server sends for one request.
#[derive(PartialEq, Eq, Structural)]
pub enum CallbackResponse {
    /// The matching callback request: answered with a confirmation page.
    Received,
    /// Any other request: answered with HTTP 404.
    NotFound,
}

/// The number of leading characters of a query string that belong to its
/// first `&`-separated segment.
pub open spec fn seg_len(q: Seq<char>) -> nat
    decreases q.len(),
{
    if q.len() == 0 || q[0] == '&' {
        0
    } else {
        1 + seg_len(q.skip(1))
    }
}

/// The number of leading characters of a segment that belong to its key:
/// everything before the first `=` (or the whole segment without one).
pub open spec fn key_len(q: Seq<char>) -> nat
    decreases q.len(),
{
    if q.len() == 0 || q[0] == '&' || q[0] == '=' {
        0
    } else {
        1 + key_len(q.skip(1))
    }
}

/// The value of the first `key=value` pair of the query string whose key
/// equals `key`; a pair without `=` carries the empty value; `None` when
/// no segment has that key.
pub open spec fn query_lookup(q: Seq<char>, key: Seq<char>) -> Option<Seq<char>>
    decreases q.len(),
{
    let sl = seg_len(q);
    let kl = key_len(q);
    if q.take(kl as int) == key {
        Some(
            if kl < sl {
                q.subrange(kl as int + 1, sl as int)
            } else {
                Seq::empty()
            },
        )
    } else if sl >= q.len() {
        None
    } else {
        query_lookup(q.skip(sl as int + 1), key)
    }
}

/// The key span never passes the segment end, and the segment never
/// passes the end of the string.
proof fn lemma_spans_bounded(q: Seq<char>)
    ensures
        key_len(q) <= seg_len(q) <= q.len(),
    decreases q.len(),
{
    if q.len() == 0 || q[0] == '&' {
    } else {
        lemma_spans_bounded(q.skip(1));
    }
}

/// A scan that stopped at `n` because every earlier character is neither
/// `&` nor the end found exactly the first segment's length.
proof fn lemma_seg_len_at(q: Seq<char>, n: int)
    requires
        0 <= n <= q.len(),
        forall|k: int| 0 <= k < n ==> q[k] != '&',
        n < q.len() ==> q[n] == '&',
    ensures
        seg_len(q) == n,
    decreases n,
{
    if q.len() == 0 || q[0] == '&' {
    } else {
        lemma_seg_len_at(q.skip(1), n - 1);
    }
}

/// The analogous fact for the key span, which also stops at `=`.
proof fn lemma_key_len_at(q: Seq<char>, n: int)
    requires
        0 <= n <= q.len(),
        forall|k: int| 0 <= k < n ==> q[k] != '&' && q[k] != '=',
        n < q.len() ==> q[n] == '&' || q[n] == '=',
    ensures
        key_len(q) == n,
    decreases n,
{
    if q.len() == 0 || q[0] == '&' || q[0] == '=' {
    } else {
        lemma_key_len_at(q.skip(1), n - 1);
    }
}

/// Character count of the first query segment, by scanning for `&`.
fn segment_len(q: &str) -> (r: usize)
    ensures
        r as int == seg_len(q@),
{
    let n = q.unicode_len();
    let mut i: usize = 0;
    while i < n
        invariant
            i <= n,
            n as int == q@.len(),
            forall|k: int| 0 <= k < i ==> q@[k] != '&',
        decreases n - i,
    {
        let c = q.get_char(i);
        if c == '&' {
            proof {
                lemma_seg_len_at(q@, i as int);
            }
            return i;
        }
        i = i + 1;
    }
    proof {
        lemma_seg_len_at(q@, n as int);
    }
    n
}

/// Character count of the first segment's key, by scanning for `&` or `=`.
fn key_span(q: &str) -> (r: usize)
    ensures
        r as int == key_len(q@),
{
    let n = q.unicode_len();
    let mut i: usize = 0;
    while i < n
        invariant
            i <= n,
            n as int == q@.len(),
            forall|k: int| 0 <= k < i ==> q@[k] != '&' && q@[k] != '=',
        decreases n - i,
    {
        let c = q.get_char(i);
        if c == '&' || c == '=' {
            proof {
                lemma_key_len_at(q@, i as int);
            }
            return i;
        }
        i = i + 1;
    }
    proof {
        lemma_key_len_at(q@, n as int);
    }
    n
}

/// String slice equality by contents.
fn str_eq(a: &str, b: &str) -> (r: bool)
    ensures
        r == (a@ == b@),
{
    let x = a.to_owned();
    let y = b.to_owned();
    x == y
}

/// Extracts the value of the first query parameter named `key`, exactly as
/// `query_lookup` describes.
pub fn lookup_param(q: &str, key: &str) -> (r: Option<String>)
    ensures
        r matches Some(v) ==> query_lookup(q@, key@) == Some(v@),
        r is None ==> query_lookup(q@, key@) is None,
    decreases q@.len(),
{
    let n = q.unicode_len();
    let sl = segment_len(q);
    let kl = key_span(q);
    proof {
        lemma_spans_bounded(q@);
    }
    let this_key = q.substring_char(0, kl);
    proof {
        assert(this_key@ == q@.take(kl as int));
    }
    if str_eq(this_key, key) {
        if kl < sl {
            let v = q.substring_char(kl + 1, sl);
            Some(v.to_owned())
        } else {
            Some(String::new())
        }
    } else if sl == n {
        None
    } else {
        let rest = q.substring_char(sl + 1, n);
        proof {
            assert(rest@ =~= q@.skip(sl as int + 1));
        }
        lookup_param(rest, key)
    }
}

/// What the machine resolves to for a matched callback request with this
/// query string, given the expected state: a mismatched or missing state
/// is a `StateMismatch`, a matching state without a code is a
/// `ListenerError`, and a matching state with a code yields that code.
pub open spec fn outcome_matches(o: CallbackOutcome, query: Seq<char>, expected: Seq<char>) -> bool {
    match o {
        CallbackOutcome::Code(c) => query_lookup(query, "state"@) == Some(expected) && query_lookup(
            query,
            "code"@,
        ) == Some(c@),
        CallbackOutcome::StateMismatch => !(query_lookup(query, "state"@) == Some(expected)),
        CallbackOutcome::ListenerError => query_lookup(query, "state"@) == Some(expected)
            && query_lookup(query, "code"@) is None,
    }
}

/// One callback listener per login attempt: the loopback address, the
/// callback path, the expected state, and the machine's phase.
pub struct CallbackListener {
    pub host: [u8; 4],
    pub port: u16,
    pub uri: String,
    pub state: StateString,
    pub phase: ListenerPhase,
}

impl CallbackListener {
    /// The machine holds a concrete expected state: by the time the
    /// listener exists, the attempt's state string has been materialized.
    pub open spec fn wf(&self) -> bool {
        self.state matches StateString::Custom(_)
    }

    /// The state string the redirect must return.
    pub open spec fn expected_state(&self) -> Seq<char> {
        match self.state {
            StateString::Custom(s) => s@,
            StateString::Standard => Seq::empty(),
        }
    }

    /// The listener's address and expectations, which no transition
    /// changes.
    pub open spec fn same_config(a: Self, b: Self) -> bool {
        &&& a.host@ == b.host@
        &&& a.port == b.port
        &&& a.uri@ == b.uri@
        &&& a.state == b.state
    }

    /// A listener for one attempt, not yet bound.
    pub fn new(host: [u8; 4], port: u16, uri: &str, state: StateString) -> (r: CallbackListener)
        requires
            state matches StateString::Custom(_),
        ensures
            r.wf(),
            r.phase is Idle,
            r.host@ == host@,
            r.port == port,
            r.uri@ == uri@,
            r.state == state,
    {
        CallbackListener { host, port, uri: uri.to_owned(), state, phase: ListenerPhase::Idle }
    }

    /// Starts listening; the embedding server binds the loopback socket
    /// exactly at this transition.
    pub fn start(&mut self)
        requires
            old(self).phase is Idle,
        ensures
            final(self).phase is Listening,
            Self::same_config(*old(self), *final(self)),
    {
        self.phase = ListenerPhase::Listening;
    }

    /// Feeds one incoming HTTP request to the machine. Only the first
    /// `GET` on the callback path resolves it; every other request, and
    /// every request after resolution, is answered with 404 and changes
    /// nothing.
    pub fn handle_request(&mut self, method: &str, path: &str, query: &str) -> (r: CallbackResponse)
        requires
            old(self).wf(),
        ensures
            final(self).wf(),
            Self::same_config(*old(self), *final(self)),
            !(old(self).phase is Listening) ==> r == CallbackResponse::NotFound
                && final(self).phase == old(self).phase,
            old(self).phase is Listening && !(method@ == "GET"@ && path@ == old(self).uri@)
                ==> r == CallbackResponse::NotFound && final(self).phase is Listening,
            old(self).phase is Listening && method@ == "GET"@ && path@ == old(self).uri@
                ==> r == CallbackResponse::Received
                && (final(self).phase matches ListenerPhase::Resolved(o)
                && outcome_matches(o, query@, old(self).expected_state())),
            r == CallbackResponse::NotFound ==> final(self).phase == old(self).phase,
            r == CallbackResponse::Received ==> old(self).phase is Listening
                && (final(self).phase matches ListenerPhase::Resolved(o)
                && outcome_matches(o, query@, old(self).expected_state())),
    {
        match &self.phase {
            ListenerPhase::Listening => {},
            _ => {
                return CallbackResponse::NotFound;
            },
        }
        let is_get = str_eq(method, "GET");
        let on_path = str_eq(path, self.uri.as_str());
        if !(is_get && on_path) {
            return CallbackResponse::NotFound;
        }
        let expected: &str = match &self.state {
            StateString::Custom(v) => v.as_str(),
            StateString::Standard => "",
        };
        let outcome = match lookup_param(query, "state") {
            None => CallbackOutcome::StateMismatch,
            Some(st) => {
                if !str_eq(st.as_str(), expected) {
                    CallbackOutcome::StateMismatch
                } else {
                    match lookup_param(query, "code") {
                        Some(code) => CallbackOutcome::Code(code),
                        None => CallbackOutcome::ListenerError,
                    }
                }
            },
        };
        self.phase = ListenerPhase::Resolved(outcome);
        CallbackResponse::Received
    }

    /// Whether the machine is still waiting for its callback.
    pub fn is_listening(&self) -> (r: bool)
        ensures
            r == (self.phase is Listening),
    {
        match &self.phase {
            ListenerPhase::Listening => true,
            _ => false,
        }
    }

    /// Retrieves the single outcome; the listener closes, and the
    /// embedding server releases the socket unconditionally at this
    /// transition. Before resolution there is nothing to take.
    pub fn take_outcome(&mut self) -> (r: Option<CallbackOutcome>)
        ensures
            Self::same_config(*old(self), *final(self)),
            old(self).phase matches ListenerPhase::Resolved(o) ==> r == Some(o)
                && final(self).phase is Closed,
            !(old(self).phase matches ListenerPhase::Resolved(_)) ==> r is None && final(self).phase
                == old(self).phase,
    {
        let mut ph = ListenerPhase::Closed;
        core::mem::swap(&mut self.phase, &mut ph);
        match ph {
            ListenerPhase::Resolved(o) => Some(o),
            other => {
                self.phase = other;
                None
            },
        }
    }
}

} // verus!
