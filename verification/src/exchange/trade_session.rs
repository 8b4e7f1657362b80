//! One session of the trading websocket: when commands go over the socket, when
//! over REST, and what becomes of the requests that wait when it drops.

use vstd::prelude::*;

use crate::exchange::gate_trade;
use crate::exchange::gate_trade::{
    ApiReply, OutstandingView, Pending, ReplyView, TradeCommand, TradeView,
};
use crate::exchange::json;
use crate::exchange::json::{Json, JsonView};
use crate::order::model::{ExecResponse, ExecResult, ResponseView};
use crate::time;
use crate::time::{Duration, Instant};
use crate::types::TickGrid;
use crate::util;
use crate::util::Backoff;

verus! {

/// First delay before a new connection (milliseconds).
pub const FIRST_DELAY_MS: u64 = 500;

/// Longest delay before a new connection (seconds).
pub const LONGEST_DELAY_SECS: u64 = 30;

/// Time allowed for the login (seconds).
pub const LOGIN_SECS: u64 = 10;

/// Where a session stands.
#[derive(Debug, Clone, Copy, PartialEq, Eq, Structural)]
pub enum Phase {
    /// No socket; a new connection is tried after a delay.
    Down,
    /// The login was sent.
    LoggingIn,
    /// Logged in.
    Live,
}

/// Where a command goes.
#[derive(Debug)]
pub enum Route {
    Rest,
    Socket(Json),
}

/// What a frame means for the session.
#[derive(Debug)]
pub enum Incoming {
    /// Nothing.
    Ignored,
    /// The login was accepted: the session is live, which is to be published.
    LoggedIn,
    /// The login was rejected: the socket is to be closed.
    Rejected,
    /// The final answer to the request of this name.
    Reply(String, ApiReply),
}

/// What a frame means, as plain values.
pub ghost enum IncomingView {
    Ignored,
    LoggedIn,
    Rejected,
    Reply(Seq<char>, ReplyView),
}

impl View for Incoming {
    type V = IncomingView;

    open spec fn view(&self) -> IncomingView {
        match *self {
            Incoming::Ignored => IncomingView::Ignored,
            Incoming::LoggedIn => IncomingView::LoggedIn,
            Incoming::Rejected => IncomingView::Rejected,
            Incoming::Reply(id, r) => IncomingView::Reply(id@, r@),
        }
    }
}

/// A session of the trading websocket.
#[derive(Debug, Clone)]
pub struct TradeSession {
    pub phase: Phase,
    pub pending: Pending,
    pub backoff: Backoff,
}

/// A session as plain values.
pub ghost struct SessionView {
    pub phase: Phase,
    pub pending: Seq<OutstandingView>,
    pub backoff: Backoff,
}

impl View for TradeSession {
    type V = SessionView;

    open spec fn view(&self) -> SessionView {
        SessionView { phase: self.phase, pending: self.pending@, backoff: self.backoff }
    }
}

impl SessionView {
    /// Only a live session has requests that wait, and delays stay in bounds.
    pub open spec fn wf(self) -> bool {
        &&& self.phase != Phase::Live ==> self.pending.len() == 0
        &&& self.backoff.cur.nanos <= self.backoff.max.nanos
        &&& self.backoff.max == time::spec_from_secs(LONGEST_DELAY_SECS)
    }

    /// The session before its first connection.
    pub open spec fn fresh() -> SessionView {
        SessionView {
            phase: Phase::Down,
            pending: seq![],
            backoff: Backoff {
                cur: time::spec_from_millis(FIRST_DELAY_MS),
                max: time::spec_from_secs(LONGEST_DELAY_SECS),
            },
        }
    }

    /// The session without a socket, the delay before the next attempt grown.
    pub open spec fn down(self) -> SessionView {
        SessionView {
            phase: Phase::Down,
            pending: seq![],
            backoff: Backoff {
                cur: Duration {
                    nanos: util::grown_delay(self.backoff.cur, self.backoff.max) as u128,
                },
                max: self.backoff.max,
            },
        }
    }

    /// What a frame means, and the session after it.
    pub open spec fn received(self, v: JsonView) -> (SessionView, IncomingView) {
        match self.phase {
            Phase::Down => (self, IncomingView::Ignored),
            Phase::LoggingIn => match gate_trade::login_verdict(v) {
                Some(true) => (
                    SessionView {
                        phase: Phase::Live,
                        backoff: Backoff {
                            cur: time::spec_from_millis(FIRST_DELAY_MS),
                            max: self.backoff.max,
                        },
                        ..self
                    },
                    IncomingView::LoggedIn,
                ),
                Some(false) => (self, IncomingView::Rejected),
                None => (self, IncomingView::Ignored),
            },
            Phase::Live => match gate_trade::api_reply(v) {
                Some((id, reply)) => (self, IncomingView::Reply(id, reply)),
                None => (self, IncomingView::Ignored),
            },
        }
    }
}

/// A command goes over the socket: the session is live and the websocket API
/// takes commands of its kind.
pub open spec fn takes(
    s: SessionView,
    contract: Seq<char>,
    grid: TickGrid,
    c: TradeView,
) -> bool {
    s.phase == Phase::Live && gate_trade::api_param(contract, grid, c.cmd, c.side) is Some
}

impl TradeSession {
    /// A session before its first connection.
    pub fn new() -> (r: TradeSession)
        ensures
            r@ == SessionView::fresh(),
            r@.wf(),
    {
        let r = TradeSession {
            phase: Phase::Down,
            pending: Pending::new(),
            backoff: Backoff::new(
                Duration::from_millis(FIRST_DELAY_MS),
                Duration::from_secs(LONGEST_DELAY_SECS),
            ),
        };
        assert(r@.pending =~= seq![]);
        r
    }

    /// A socket is open and the login was sent.
    pub fn connected(&mut self)
        requires
            old(self)@.wf(),
            old(self)@.phase == Phase::Down,
        ensures
            final(self)@.wf(),
            final(self)@ == (SessionView { phase: Phase::LoggingIn, ..old(self)@ }),
    {
        self.phase = Phase::LoggingIn;
    }

    /// Reads a frame.
    pub fn receive(&mut self, v: &Json) -> (r: Incoming)
        requires
            old(self)@.wf(),
        ensures
            final(self)@.wf(),
            (final(self)@, r@) == old(self)@.received(v@),
    {
        match self.phase {
            Phase::Down => Incoming::Ignored,
            Phase::LoggingIn => match gate_trade::login_outcome(v) {
                Some(accepted) => if accepted {
                    self.phase = Phase::Live;
                    self.backoff.reset();
                    Incoming::LoggedIn
                } else {
                    Incoming::Rejected
                },
                None => Incoming::Ignored,
            },
            Phase::Live => match gate_trade::parse_api_response(v) {
                Some((id, reply)) => Incoming::Reply(id, reply),
                None => Incoming::Ignored,
            },
        }
    }

    /// Where a command goes: over REST while the session is not live, and always
    /// where the websocket API does not take it.
    pub fn route(&self, contract: &str, grid: &TickGrid, tc: &TradeCommand, time: i64) -> (r: Route)
        requires
            grid.wf(),
            gate_trade::writable(tc.cmd@, *grid),
        ensures
            match r {
                Route::Socket(j) => {
                    &&& takes(self@, contract@, *grid, tc@)
                    &&& json::whole(j@)
                    &&& gate_trade::api_param(contract@, *grid, tc@.cmd, tc@.side) matches Some(
                        (channel, param),
                    ) && j@ == gate_trade::api_frame(time, channel, tc@.cmd.req(), param)
                },
                Route::Rest => !takes(self@, contract@, *grid, tc@),
            },
    {
        match self.phase {
            Phase::Live => match gate_trade::api_request(contract, grid, &tc.cmd, tc.side, time) {
                Some(j) => Route::Socket(j),
                None => Route::Rest,
            },
            _ => Route::Rest,
        }
    }

    /// A command went over the socket and waits for its answer.
    pub fn sent(&mut self, tc: TradeCommand, now: Instant)
        requires
            old(self)@.wf(),
            old(self)@.phase == Phase::Live,
        ensures
            final(self)@.wf(),
            final(self)@ == (SessionView {
                pending: gate_trade::without(old(self)@.pending, tc@.cmd.req()).push(
                    OutstandingView { req_id: tc@.cmd.req(), cmd: tc@, since: now },
                ),
                ..old(self)@
            }),
    {
        let id = tc.cmd.req_id().to_string();
        self.pending.insert(id.as_str(), tc, now);
    }

    /// The result of a request is known. Answers to what does not wait are
    /// dropped.
    pub fn resolve(&mut self, req_id: &str, result: ExecResult, at: Instant) -> (r: Option<
        ExecResponse,
    >)
        requires
            old(self)@.wf(),
        ensures
            final(self)@.wf(),
            final(self)@ == (SessionView {
                pending: gate_trade::without(old(self)@.pending, req_id@),
                ..old(self)@
            }),
            match r {
                Some(x) => gate_trade::place_of(old(self)@.pending, req_id@) matches Some(i) && x@
                    == (ResponseView {
                    req_id: req_id@,
                    result: gate_trade::relabelled(result@, old(self)@.pending[i].cmd.cmd),
                    at,
                }),
                None => gate_trade::place_of(old(self)@.pending, req_id@) is None,
            },
    {
        self.pending.answer(req_id, result, at)
    }

    /// Gives up on requests that have waited for too long.
    pub fn sweep(&mut self, now: Instant) -> (r: Vec<ExecResponse>)
        requires
            old(self)@.wf(),
        ensures
            final(self)@.wf(),
            final(self)@ == (SessionView {
                pending: gate_trade::swept(old(self)@.pending, now).0,
                ..old(self)@
            }),
            gate_trade::response_views(r@) == gate_trade::swept(old(self)@.pending, now).1,
    {
        self.pending.expire(now)
    }

    /// There is no socket (any more): what waits is answered as unknown. The
    /// result says when to connect again; where the session was live, that it is
    /// down is to be published.
    pub fn lost(&mut self, at: Instant) -> (r: (Vec<ExecResponse>, Duration, bool))
        requires
            old(self)@.wf(),
        ensures
            final(self)@.wf(),
            final(self)@ == old(self)@.down(),
            gate_trade::response_views(r.0@) == old(self)@.pending.map_values(
                |o: OutstandingView| gate_trade::unknown(o.req_id, "ws disconnected"@, at),
            ),
            r.1 == old(self)@.backoff.cur,
            r.2 == (old(self)@.phase == Phase::Live),
    {
        let was_live = match self.phase {
            Phase::Live => true,
            _ => false,
        };
        let out = self.pending.drain(at);
        let delay = self.backoff.next();
        self.phase = Phase::Down;
        assert(self@.pending =~= seq![]);
        (out, delay, was_live)
    }
}

/// A session that lost its socket leaves no request unanswered, and sends no
/// command over the socket before it has logged in again.
pub proof fn a_lost_session_starts_over(
    s: SessionView,
    contract: Seq<char>,
    grid: TickGrid,
    c: TradeView,
)
    requires
        s.wf(),
    ensures
        s.down().pending.len() == 0,
        !takes(s.down(), contract, grid, c),
        s.backoff.cur.nanos <= s.down().backoff.cur.nanos <= s.backoff.max.nanos,
{
}

/// Acks and frames about other things change nothing and answer nothing.
pub proof fn acks_answer_nothing(s: SessionView, v: JsonView)
    requires
        s.phase == Phase::Live,
        v.flag("ack"@),
    ensures
        s.received(v) == (s, IncomingView::Ignored),
{
}

/// Queries and cancel-alls never go over the socket.
pub proof fn queries_go_over_rest(
    s: SessionView,
    contract: Seq<char>,
    grid: TickGrid,
    c: TradeView,
)
    requires
        c.cmd is Query || c.cmd is CancelAll,
    ensures
        !takes(s, contract, grid, c),
{
}

} // verus!
