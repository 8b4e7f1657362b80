//! Compare the desired quote set with our live orders and emit the minimal set
//! of exchange commands:
//!
//! - dangerous orders (beyond the safety bound) are repriced or cancelled
//!   first, even for a one-tick breach;
//! - safe orders only move once the target has drifted by the re-quote
//!   threshold, or on any change when the side must follow tightly;
//! - size-only changes keep the price: decreases are always applied, increases
//!   only beyond the size tolerance;
//! - a slot without an order is filled when the quote set contains it.

use vstd::prelude::*;

use crate::config;
use crate::order::lifecycle;
use crate::order::lifecycle::ManagerView;
use crate::order::manager;
use crate::order::manager::OrderManager;
use crate::order::model;
use crate::order::model::{CommandView, ExecCommand, LocalOrder, OrderView, Tif, MAX_CONTRACTS};
use crate::strategy::quote::{Quote, SideBounds};
use crate::time::Instant;
use crate::types::{Purpose, Side, Ticks};

verus! {

#[derive(Debug, Clone, Copy)]
pub struct ReconcileParams<'a> {
    pub bounds: SideBounds,
    pub follow_tight_buy: bool,
    pub follow_tight_sell: bool,
    pub cfg: &'a config::Quoting,
    /// Native amend (true) or cancel and re-create with fresh prices (false).
    pub use_amend: bool,
    /// Local ids of the orders whose wanted size exceeds the remaining one by
    /// more than the size tolerance.
    pub grown: &'a Vec<u64>,
}

pub struct ReconcileReport {
    pub commands: Vec<ExecCommand>,
    pub dangerous: usize,
    pub repriced: usize,
    pub resized: usize,
    pub placed: usize,
    pub cancelled: usize,
    pub kept: usize,
}

/// The quote wanted for a slot: the last one that names it.
pub open spec fn wanted(desired: Seq<Quote>, side: Side, layer: u8) -> Option<Quote>
    decreases desired.len(),
{
    if desired.len() == 0 {
        None
    } else if desired.last().side == side && desired.last().layer == layer {
        Some(desired.last())
    } else {
        wanted(desired.drop_last(), side, layer)
    }
}

/// What is done with one live order.
pub ghost enum Move {
    /// Nothing to compare with.
    Skip,
    /// The slot is not wanted, is wanted for another purpose, or holds another
    /// order already.
    Cancel,
    /// New price and size.
    Reprice(Ticks, i64),
    /// Same price, new size.
    Resize(Ticks, i64),
    Keep,
}

/// Distance between two prices.
pub open spec fn distance(a: Ticks, b: Ticks) -> int {
    if a >= b {
        a - b
    } else {
        b - a
    }
}

/// Progress of a reconcile pass.
pub ghost struct Pass {
    pub book: ManagerView,
    pub taken: Set<(Side, u8)>,
    pub danger: Seq<CommandView>,
    pub other: Seq<CommandView>,
    pub dangerous: nat,
    pub repriced: nat,
    pub resized: nat,
    pub cancelled: nat,
    pub kept: nat,
}

/// The parameters of a pass as plain values.
pub ghost struct Rules {
    pub bounds: SideBounds,
    pub follow_tight_buy: bool,
    pub follow_tight_sell: bool,
    pub inner_ticks: i64,
    pub outer_ticks: i64,
    pub use_amend: bool,
    pub grown: Seq<u64>,
}

impl<'a> View for ReconcileParams<'a> {
    type V = Rules;

    open spec fn view(&self) -> Rules {
        Rules {
            bounds: self.bounds,
            follow_tight_buy: self.follow_tight_buy,
            follow_tight_sell: self.follow_tight_sell,
            inner_ticks: self.cfg.inner_requote_ticks,
            outer_ticks: self.cfg.outer_requote_ticks,
            use_amend: self.use_amend,
            grown: self.grown@,
        }
    }
}

impl Rules {
    /// The order stands beyond its safety bound.
    pub open spec fn in_danger(self, o: OrderView) -> bool {
        o.price matches Some(p) && self.bounds.dangerous(o.side, o.purpose, p)
    }

    pub open spec fn follows(self, side: Side) -> bool {
        match side {
            Side::Buy => self.follow_tight_buy,
            Side::Sell => self.follow_tight_sell,
        }
    }

    pub open spec fn threshold(self, layer: u8) -> i64 {
        if layer == 0 {
            self.inner_ticks
        } else {
            self.outer_ticks
        }
    }

    /// What is done with an order, given the quote wanted for its slot and
    /// whether the slot is taken by an earlier order.
    pub open spec fn decide(self, o: OrderView, want: Option<Quote>, taken: bool) -> Move {
        match (o.price, want) {
            (None, _) => Move::Skip,
            (Some(_), None) => Move::Cancel,
            (Some(price), Some(q)) => {
                let moved = distance(q.price, price);
                if q.purpose != o.purpose || taken {
                    Move::Cancel
                } else if self.in_danger(o) || moved >= self.threshold(o.layer) || (self.follows(
                    o.side,
                ) && moved >= 1) {
                    Move::Reprice(q.price, q.size)
                } else if q.size < o.remaining() || (q.size > o.remaining()
                    && self.grown.contains(o.id)) {
                    Move::Resize(price, q.size)
                } else {
                    Move::Keep
                }
            },
        }
    }
}

impl Pass {
    pub open spec fn start(book: ManagerView) -> Pass {
        Pass {
            book,
            taken: Set::empty(),
            danger: seq![],
            other: seq![],
            dangerous: 0,
            repriced: 0,
            resized: 0,
            cancelled: 0,
            kept: 0,
        }
    }

    /// A command filed among the dangerous ones or the others.
    pub open spec fn filed(self, c: Option<CommandView>, danger: bool) -> Pass {
        if danger {
            Pass { danger: self.danger + lifecycle::listed(c), ..self }
        } else {
            Pass { other: self.other + lifecycle::listed(c), ..self }
        }
    }

    pub open spec fn cancelling(self, id: u64, danger: bool, now: Instant) -> Pass {
        let (book, c) = self.book.cancel(id, now);
        Pass { book, ..self }.filed(c, danger)
    }

    /// A new price and size by amend, or a cancel where amends are not used.
    pub open spec fn changing(
        self,
        rules: Rules,
        id: u64,
        price: Ticks,
        size: i64,
        danger: bool,
        now: Instant,
    ) -> Pass {
        if rules.use_amend {
            let (book, c) = self.book.amend(id, price, size, now);
            Pass { book, ..self }.filed(c, danger)
        } else {
            self.cancelling(id, danger, now)
        }
    }

    /// One live order dealt with. It counts as dangerous if it is, also where
    /// another order holds its slot.
    pub open spec fn step(self, rules: Rules, o: OrderView, desired: Seq<Quote>, now: Instant) -> Pass {
        let key = (o.side, o.layer);
        let want = wanted(desired, o.side, o.layer);
        let taken = self.taken.contains(key);
        let danger = rules.in_danger(o);
        let base = Pass {
            taken: if want is Some && o.price is Some {
                self.taken.insert(key)
            } else {
                self.taken
            },
            dangerous: if danger {
                self.dangerous + 1
            } else {
                self.dangerous
            },
            ..self
        };
        match rules.decide(o, want, taken) {
            Move::Skip => self,
            Move::Cancel => Pass { cancelled: self.cancelled + 1, ..base }.cancelling(
                o.id,
                danger,
                now,
            ),
            Move::Reprice(price, size) => Pass { repriced: self.repriced + 1, ..base }.changing(
                rules,
                o.id,
                price,
                size,
                danger,
                now,
            ),
            Move::Resize(price, size) => Pass { resized: self.resized + 1, ..base }.changing(
                rules,
                o.id,
                price,
                size,
                danger,
                now,
            ),
            Move::Keep => Pass { kept: self.kept + 1, ..base },
        }
    }

    /// All live orders dealt with, one after the other.
    pub open spec fn steps(
        self,
        rules: Rules,
        live: Seq<OrderView>,
        desired: Seq<Quote>,
        now: Instant,
    ) -> Pass
        decreases live.len(),
    {
        if live.len() == 0 {
            self
        } else {
            self.steps(rules, live.drop_last(), desired, now).step(
                rules,
                live.last(),
                desired,
                now,
            )
        }
    }
}

/// The quote at `i` is placed: it is the one wanted for its slot, the slot is
/// free, and there is something to place.
pub open spec fn is_missing(desired: Seq<Quote>, taken: Set<(Side, u8)>, i: int) -> bool {
    let q = desired[i];
    &&& q.size > 0
    &&& !taken.contains((q.side, q.layer))
    &&& forall|j: int|
        i < j < desired.len() ==> (#[trigger] desired[j]).side != q.side || desired[j].layer
            != q.layer
}

/// New orders for the missing slots among the first `n` quotes.
pub open spec fn placements(
    book: ManagerView,
    desired: Seq<Quote>,
    taken: Set<(Side, u8)>,
    n: int,
    now: Instant,
    now_ms: i64,
) -> (ManagerView, Seq<CommandView>)
    decreases n,
{
    if n <= 0 {
        (book, seq![])
    } else {
        let (b, cmds) = placements(book, desired, taken, n - 1, now, now_ms);
        let q = desired[n - 1];
        if is_missing(desired, taken, n - 1) {
            let (c, cmd) = b.place(
                q.side,
                q.purpose,
                q.layer,
                Some(q.price),
                q.size,
                Tif::Poc,
                now,
                now_ms,
            );
            (c, cmds.push(cmd))
        } else {
            (b, cmds)
        }
    }
}

/// Outcome of a reconcile pass as plain values.
pub ghost struct ReportView {
    pub commands: Seq<CommandView>,
    pub dangerous: nat,
    pub repriced: nat,
    pub resized: nat,
    pub placed: nat,
    pub cancelled: nat,
    pub kept: nat,
}

impl View for ReconcileReport {
    type V = ReportView;

    open spec fn view(&self) -> ReportView {
        ReportView {
            commands: model::command_views(self.commands@),
            dangerous: self.dangerous as nat,
            repriced: self.repriced as nat,
            resized: self.resized as nat,
            placed: self.placed as nat,
            cancelled: self.cancelled as nat,
            kept: self.kept as nat,
        }
    }
}

/// The whole pass: live orders first, then the missing slots; the commands of
/// dangerous orders come before all others.
pub open spec fn reconciled(
    book: ManagerView,
    desired: Seq<Quote>,
    rules: Rules,
    now: Instant,
    now_ms: i64,
) -> (ManagerView, ReportView) {
    let pass = Pass::start(book).steps(
        rules,
        lifecycle::slot_orders(book.orders),
        desired,
        now,
    );
    let (after, placed) = placements(
        pass.book,
        desired,
        pass.taken,
        desired.len() as int,
        now,
        now_ms,
    );
    (
        after,
        ReportView {
            commands: pass.danger + pass.other + placed,
            dangerous: pass.dangerous,
            repriced: pass.repriced,
            resized: pass.resized,
            placed: placed.len(),
            cancelled: pass.cancelled,
            kept: pass.kept,
        },
    )
}

/// A live order and the quote that wants it larger.
#[derive(Debug, Clone, Copy, PartialEq, Eq, Structural)]
pub struct Growth {
    pub id: u64,
    pub remaining: i64,
    pub wanted: i64,
}

/// The live orders whose slot wants more than remains.
pub open spec fn growths(live: Seq<OrderView>, desired: Seq<Quote>) -> Seq<Growth>
    decreases live.len(),
{
    if live.len() == 0 {
        seq![]
    } else {
        let head = growths(live.drop_last(), desired);
        let o = live.last();
        match wanted(desired, o.side, o.layer) {
            Some(q) if q.size > o.remaining() => head.push(
                Growth { id: o.id, remaining: o.remaining() as i64, wanted: q.size },
            ),
            _ => head,
        }
    }
}

fn find_wanted(desired: &Vec<Quote>, side: Side, layer: u8) -> (r: Option<Quote>)
    ensures
        r == wanted(desired@, side, layer),
{
    let mut n: usize = desired.len();
    assert(desired@.take(n as int) =~= desired@);
    while n > 0
        invariant
            n <= desired.len(),
            wanted(desired@, side, layer) == wanted(desired@.take(n as int), side, layer),
        decreases n,
    {
        proof {
            assert(desired@.take(n as int).drop_last() =~= desired@.take(n - 1));
            assert(desired@.take(n as int).last() == desired@[n - 1]);
        }
        let q = desired[n - 1];
        if q.side == side && q.layer == layer {
            return Some(q);
        }
        n = n - 1;
    }
    None
}

/// The live orders whose slot wants more than remains, for the caller to hold
/// against the size tolerance.
pub fn size_growths(mgr: &OrderManager, desired: &Vec<Quote>) -> (r: Vec<Growth>)
    requires
        mgr@.wf(),
    ensures
        r@ == growths(lifecycle::slot_orders(mgr@.orders), desired@),
{
    let live = mgr.slots();
    let ghost views = lifecycle::slot_orders(mgr@.orders);
    let mut r: Vec<Growth> = Vec::new();
    let mut i: usize = 0;
    assert(views.take(0) =~= seq![]);
    proof {
        lifecycle::lemma_chosen_valid(
            mgr@.orders,
            |o: OrderView| o.active() && o.layer != u8::MAX,
        );
    }
    while i < live.len()
        invariant
            i <= live.len(),
            views == live@.map_values(|o: &LocalOrder| o@),
            forall|k: int| 0 <= k < views.len() ==> (#[trigger] views[k]).valid(),
            r@ == growths(views.take(i as int), desired@),
        decreases live.len() - i,
    {
        let o = live[i];
        assert(views[i as int] == o@);
        if let Some(q) = find_wanted(desired, o.side, o.layer) {
            let remaining: i64 = o.remaining();
            if q.size > remaining {
                r.push(Growth { id: o.id, remaining, wanted: q.size });
            }
        }
        i = i + 1;
        proof {
            assert(views.take(i as int).drop_last() =~= views.take(i - 1));
            assert(views.take(i as int).last() == views[i - 1]);
        }
    }
    assert(views.take(i as int) =~= views);
    r
}

/// The fields of a live order that a pass compares, as they were at its start.
#[derive(Clone, Copy)]
struct Live {
    id: u64,
    side: Side,
    layer: u8,
    purpose: Purpose,
    price: Option<Ticks>,
    remaining: i64,
}

impl Live {
    spec fn of(self, o: OrderView) -> bool {
        &&& self.id == o.id
        &&& self.side == o.side
        &&& self.layer == o.layer
        &&& self.purpose == o.purpose
        &&& self.price == o.price
        &&& self.remaining == o.remaining()
    }
}

fn live_slots(mgr: &OrderManager) -> (r: Vec<Live>)
    requires
        mgr@.wf(),
    ensures
        r.len() == lifecycle::slot_orders(mgr@.orders).len(),
        forall|k: int|
            0 <= k < r.len() ==> (#[trigger] r@[k]).of(lifecycle::slot_orders(mgr@.orders)[k]),
        r.len() <= mgr@.orders.len(),
{
    let live = mgr.slots();
    let ghost views = lifecycle::slot_orders(mgr@.orders);
    proof {
        lifecycle::lemma_chosen_valid(
            mgr@.orders,
            |o: OrderView| o.active() && o.layer != u8::MAX,
        );
    }
    let mut r: Vec<Live> = Vec::new();
    let mut i: usize = 0;
    while i < live.len()
        invariant
            i <= live.len(),
            r.len() == i,
            views == live@.map_values(|o: &LocalOrder| o@),
            forall|k: int| 0 <= k < views.len() ==> (#[trigger] views[k]).valid(),
            forall|k: int| 0 <= k < i ==> (#[trigger] r@[k]).of(views[k]),
        decreases live.len() - i,
    {
        let o = live[i];
        assert(views[i as int] == o@);
        r.push(
            Live {
                id: o.id,
                side: o.side,
                layer: o.layer,
                purpose: o.purpose,
                price: o.price,
                remaining: o.remaining(),
            },
        );
        i = i + 1;
    }
    r
}

/// A pass under way.
struct Progress {
    taken: Vec<(Side, u8)>,
    danger: Vec<ExecCommand>,
    other: Vec<ExecCommand>,
    dangerous: usize,
    repriced: usize,
    resized: usize,
    cancelled: usize,
    kept: usize,
}

impl Progress {
    spec fn of(self, book: ManagerView, p: Pass) -> bool {
        &&& book == p.book
        &&& forall|k: (Side, u8)| #[trigger] p.taken.contains(k) == self.taken@.contains(k)
        &&& model::command_views(self.danger@) == p.danger
        &&& model::command_views(self.other@) == p.other
        &&& self.dangerous == p.dangerous
        &&& self.repriced == p.repriced
        &&& self.resized == p.resized
        &&& self.cancelled == p.cancelled
        &&& self.kept == p.kept
    }

    /// No counter exceeds the number of orders seen.
    spec fn counted(self, n: int) -> bool {
        self.dangerous <= n && self.repriced <= n && self.resized <= n && self.cancelled <= n
            && self.kept <= n
    }

    fn is_taken(&self, side: Side, layer: u8) -> (r: bool)
        ensures
            r == self.taken@.contains((side, layer)),
    {
        let mut i: usize = 0;
        while i < self.taken.len()
            invariant
                i <= self.taken.len(),
                forall|j: int| 0 <= j < i ==> self.taken@[j] != (side, layer),
            decreases self.taken.len() - i,
        {
            if self.taken[i].0 == side && self.taken[i].1 == layer {
                assert(self.taken@[i as int] == (side, layer));
                return true;
            }
            i = i + 1;
        }
        false
    }

    fn take(&mut self, side: Side, layer: u8)
        ensures
            forall|k: (Side, u8)| #[trigger]
                final(self).taken@.contains(k) == (old(self).taken@.contains(k) || k == (
                    side,
                    layer,
                )),
            final(self).danger == old(self).danger,
            final(self).other == old(self).other,
            final(self).dangerous == old(self).dangerous,
            final(self).repriced == old(self).repriced,
            final(self).resized == old(self).resized,
            final(self).cancelled == old(self).cancelled,
            final(self).kept == old(self).kept,
    {
        let ghost was = self.taken@;
        self.taken.push((side, layer));
        proof {
            assert forall|k: (Side, u8)| #[trigger] self.taken@.contains(k) == (was.contains(k)
                || k == (side, layer)) by {
                if was.contains(k) {
                    let i = was.index_of(k);
                    assert(self.taken@[i] == k);
                }
                assert(self.taken@[was.len() as int] == (side, layer));
                if self.taken@.contains(k) {
                    let i = self.taken@.index_of(k);
                    assert(self.taken@[i] == k);
                    if i < was.len() {
                        assert(was[i] == k);
                    }
                }
            }
        }
    }

    /// Files the command of an order, if there is one.
    fn file(&mut self, c: Option<ExecCommand>, danger: bool)
        ensures
            final(self).taken == old(self).taken,
            final(self).dangerous == old(self).dangerous,
            final(self).repriced == old(self).repriced,
            final(self).resized == old(self).resized,
            final(self).cancelled == old(self).cancelled,
            final(self).kept == old(self).kept,
            model::command_views(final(self).danger@) == (if danger {
                model::command_views(old(self).danger@) + lifecycle::listed(
                    manager::opt_command(c),
                )
            } else {
                model::command_views(old(self).danger@)
            }),
            model::command_views(final(self).other@) == (if danger {
                model::command_views(old(self).other@)
            } else {
                model::command_views(old(self).other@) + lifecycle::listed(manager::opt_command(c))
            }),
    {
        if let Some(c) = c {
            if danger {
                self.danger.push(c);
                assert(model::command_views(self.danger@) =~= model::command_views(
                    old(self).danger@,
                ) + seq![c@]);
            } else {
                self.other.push(c);
                assert(model::command_views(self.other@) =~= model::command_views(old(self).other@)
                    + seq![c@]);
            }
        } else {
            assert(model::command_views(self.danger@) + seq![] =~= model::command_views(
                self.danger@,
            ));
            assert(model::command_views(self.other@) + seq![] =~= model::command_views(
                self.other@,
            ));
        }
    }
}

fn held(ids: &Vec<u64>, id: u64) -> (r: bool)
    ensures
        r == ids@.contains(id),
{
    let mut i: usize = 0;
    while i < ids.len()
        invariant
            i <= ids.len(),
            forall|j: int| 0 <= j < i ==> ids@[j] != id,
        decreases ids.len() - i,
    {
        if ids[i] == id {
            return true;
        }
        i = i + 1;
    }
    false
}

/// Cancels an order and files the command.
fn cancel_slot(mgr: &mut OrderManager, pr: &mut Progress, id: u64, danger: bool, now: Instant)
    requires
        old(mgr)@.wf(),
        old(mgr)@.next_req < u64::MAX,
    ensures
        final(mgr)@.wf(),
        forall|p: Pass| #[trigger]
            old(pr).of(old(mgr)@, p) ==> final(pr).of(final(mgr)@, p.cancelling(id, danger, now)),
        final(mgr)@.next_req == old(mgr)@.next_req + 1,
        final(mgr)@.next_id == old(mgr)@.next_id,
        final(mgr)@.orders.len() == old(mgr)@.orders.len(),
        forall|n: int| old(pr).counted(n) ==> #[trigger] final(pr).counted(n),
{
    proof {
        lifecycle::lemma_cancel(mgr@, id, now);
    }
    let c = mgr.cancel(id, now);
    pr.file(c, danger);
}

/// Amends an order, or cancels it where amends are not used, and files the
/// command.
fn change_slot(
    mgr: &mut OrderManager,
    pr: &mut Progress,
    p: &ReconcileParams<'_>,
    id: u64,
    price: Ticks,
    size: i64,
    danger: bool,
    now: Instant,
)
    requires
        old(mgr)@.wf(),
        old(mgr)@.next_req < u64::MAX,
        size <= MAX_CONTRACTS,
    ensures
        final(mgr)@.wf(),
        forall|s: Pass| #[trigger]
            old(pr).of(old(mgr)@, s) ==> final(pr).of(
                final(mgr)@,
                s.changing(p@, id, price, size, danger, now),
            ),
        final(mgr)@.next_req <= old(mgr)@.next_req + 1,
        final(mgr)@.next_id == old(mgr)@.next_id,
        final(mgr)@.orders.len() == old(mgr)@.orders.len(),
        forall|n: int| old(pr).counted(n) ==> #[trigger] final(pr).counted(n),
{
    proof {
        lifecycle::lemma_cancel(mgr@, id, now);
        lifecycle::lemma_amend(mgr@, id, price, size, now);
    }
    let c = if p.use_amend {
        mgr.amend(id, price, size, now)
    } else {
        mgr.cancel(id, now)
    };
    pr.file(c, danger);
}

/// Deals with one live order.
fn reconcile_order(
    mgr: &mut OrderManager,
    pr: &mut Progress,
    o: Live,
    desired: &Vec<Quote>,
    p: &ReconcileParams<'_>,
    now: Instant,
    Ghost(n): Ghost<int>,
)
    requires
        old(mgr)@.wf(),
        old(mgr)@.next_req < u64::MAX,
        forall|i: int| 0 <= i < desired.len() ==> (#[trigger] desired@[i]).size <= MAX_CONTRACTS,
        old(pr).counted(n),
        0 <= n < usize::MAX,
    ensures
        final(mgr)@.wf(),
        forall|s: Pass, v: OrderView|
            #![trigger old(pr).of(old(mgr)@, s), o.of(v)]
            old(pr).of(old(mgr)@, s) && o.of(v) ==> final(pr).of(
                final(mgr)@,
                s.step(p@, v, desired@, now),
            ),
        final(mgr)@.next_req <= old(mgr)@.next_req + 1,
        final(mgr)@.next_id == old(mgr)@.next_id,
        final(mgr)@.orders.len() == old(mgr)@.orders.len(),
        final(pr).counted(n + 1),
{
    let price: i64 = match o.price {
        Some(price) => price,
        None => return ,
    };
    let dangerous = p.bounds.is_dangerous(o.side, o.purpose, price);
    let want = find_wanted(desired, o.side, o.layer);
    let ghost pr0 = *pr;
    let ghost mgr0 = mgr@;
    match want {
        None => {
            if dangerous {
                pr.dangerous = pr.dangerous + 1;
            }
            pr.cancelled = pr.cancelled + 1;
            proof {
                assert forall|s: Pass, v: OrderView|
                    #![trigger pr0.of(mgr0, s), o.of(v)]
                    pr0.of(mgr0, s) && o.of(v) implies pr.of(
                    mgr0,
                    Pass {
                        cancelled: s.cancelled + 1,
                        dangerous: if dangerous {
                            s.dangerous + 1
                        } else {
                            s.dangerous
                        },
                        ..s
                    },
                ) by {}
            }
            cancel_slot(mgr, pr, o.id, dangerous, now);
        },
        Some(q) => {
            let was_taken = pr.is_taken(o.side, o.layer);
            pr.take(o.side, o.layer);
            let ghost pr1 = *pr;
            if q.purpose != o.purpose || was_taken {
                if dangerous {
                    pr.dangerous = pr.dangerous + 1;
                }
                pr.cancelled = pr.cancelled + 1;
                proof {
                    assert forall|s: Pass, v: OrderView|
                        #![trigger pr0.of(mgr0, s), o.of(v)]
                        pr0.of(mgr0, s) && o.of(v) implies pr.of(
                        mgr0,
                        Pass {
                            taken: s.taken.insert((o.side, o.layer)),
                            cancelled: s.cancelled + 1,
                            dangerous: if dangerous {
                                s.dangerous + 1
                            } else {
                                s.dangerous
                            },
                            ..s
                        },
                    ) by {}
                }
                cancel_slot(mgr, pr, o.id, dangerous, now);
                return ;
            }
            let diff: i128 = if q.price >= price {
                q.price as i128 - price as i128
            } else {
                price as i128 - q.price as i128
            };
            let follow = match o.side {
                Side::Buy => p.follow_tight_buy,
                Side::Sell => p.follow_tight_sell,
            };
            let threshold: i64 = if o.layer == 0 {
                p.cfg.inner_requote_ticks
            } else {
                p.cfg.outer_requote_ticks
            };
            assert(q.size <= MAX_CONTRACTS) by {
                lemma_wanted(desired@, o.side, o.layer);
            }
            if dangerous || diff >= threshold as i128 || (follow && diff >= 1) {
                if dangerous {
                    pr.dangerous = pr.dangerous + 1;
                }
                pr.repriced = pr.repriced + 1;
                proof {
                    assert forall|s: Pass, v: OrderView|
                        #![trigger pr0.of(mgr0, s), o.of(v)]
                        pr0.of(mgr0, s) && o.of(v) implies pr.of(
                        mgr0,
                        Pass {
                            taken: s.taken.insert((o.side, o.layer)),
                            repriced: s.repriced + 1,
                            dangerous: if dangerous {
                                s.dangerous + 1
                            } else {
                                s.dangerous
                            },
                            ..s
                        },
                    ) by {}
                }
                change_slot(mgr, pr, p, o.id, q.price, q.size, dangerous, now);
            } else if q.size < o.remaining || (q.size > o.remaining && held(p.grown, o.id)) {
                pr.resized = pr.resized + 1;
                proof {
                    assert forall|s: Pass, v: OrderView|
                        #![trigger pr0.of(mgr0, s), o.of(v)]
                        pr0.of(mgr0, s) && o.of(v) implies pr.of(
                        mgr0,
                        Pass {
                            taken: s.taken.insert((o.side, o.layer)),
                            resized: s.resized + 1,
                            ..s
                        },
                    ) by {}
                }
                change_slot(mgr, pr, p, o.id, price, q.size, false, now);
            } else {
                pr.kept = pr.kept + 1;
            }
        },
    }
}

/// A wanted quote is one of the desired ones.
pub(crate) proof fn lemma_wanted(desired: Seq<Quote>, side: Side, layer: u8)
    ensures
        wanted(desired, side, layer) matches Some(q) ==> desired.contains(q) && q.side == side
            && q.layer == layer,
    decreases desired.len(),
{
    if desired.len() > 0 {
        lemma_wanted(desired.drop_last(), side, layer);
        assert(desired.last() == desired[desired.len() - 1]);
        if let Some(q) = wanted(desired.drop_last(), side, layer) {
            let i = desired.drop_last().index_of(q);
            assert(desired[i] == q);
        }
    }
}

fn is_last_of_slot(desired: &Vec<Quote>, i: usize) -> (r: bool)
    requires
        i < desired.len(),
    ensures
        r == (forall|j: int|
            i < j < desired.len() ==> (#[trigger] desired@[j]).side != desired@[i as int].side
                || desired@[j].layer != desired@[i as int].layer),
{
    let mut k: usize = i + 1;
    while k < desired.len()
        invariant
            i < k <= desired.len(),
            forall|j: int|
                i < j < k ==> (#[trigger] desired@[j]).side != desired@[i as int].side
                    || desired@[j].layer != desired@[i as int].layer,
        decreases desired.len() - k,
    {
        if desired[k].side == desired[i].side && desired[k].layer == desired[i].layer {
            return false;
        }
        k = k + 1;
    }
    true
}

/// Places an order for every wanted slot that is not taken.
fn place_missing(
    mgr: &mut OrderManager,
    pr: &Progress,
    desired: &Vec<Quote>,
    now: Instant,
    now_ms: i64,
    Ghost(taken): Ghost<Set<(Side, u8)>>,
) -> (cmds: Vec<ExecCommand>)
    requires
        old(mgr)@.wf(),
        old(mgr)@.room(desired.len() as int),
        forall|i: int| 0 <= i < desired.len() ==> (#[trigger] desired@[i]).size <= MAX_CONTRACTS,
        forall|k: (Side, u8)| #[trigger] taken.contains(k) == pr.taken@.contains(k),
    ensures
        final(mgr)@.wf(),
        (final(mgr)@, model::command_views(cmds@)) == placements(
            old(mgr)@,
            desired@,
            taken,
            desired.len() as int,
            now,
            now_ms,
        ),
        final(mgr)@.next_req <= old(mgr)@.next_req + desired.len(),
        final(mgr)@.next_id <= old(mgr)@.next_id + desired.len(),
        final(mgr)@.orders.len() <= old(mgr)@.orders.len() + desired.len(),
{
    let mut cmds: Vec<ExecCommand> = Vec::new();
    let mut i: usize = 0;
    assert(model::command_views(cmds@) =~= seq![]);
    while i < desired.len()
        invariant
            i <= desired.len(),
            mgr@.wf(),
            old(mgr)@.room(desired.len() as int),
            mgr@.next_req <= old(mgr)@.next_req + i,
            mgr@.next_id <= old(mgr)@.next_id + i,
            mgr@.orders.len() <= old(mgr)@.orders.len() + i,
            forall|k: int| 0 <= k < desired.len() ==> (#[trigger] desired@[k]).size
                <= MAX_CONTRACTS,
            forall|k: (Side, u8)| #[trigger] taken.contains(k) == pr.taken@.contains(k),
            (mgr@, model::command_views(cmds@)) == placements(
                old(mgr)@,
                desired@,
                taken,
                i as int,
                now,
                now_ms,
            ),
        decreases desired.len() - i,
    {
        let q = desired[i];
        let free = !pr.is_taken(q.side, q.layer);
        assert(free == !taken.contains((q.side, q.layer)));
        if free && q.size > 0 && is_last_of_slot(desired, i) {
            let ghost before = cmds@;
            let (_, cmd) = mgr.place(
                q.side,
                q.purpose,
                q.layer,
                Some(q.price),
                q.size,
                Tif::Poc,
                now,
                now_ms,
            );
            cmds.push(cmd);
            assert(model::command_views(cmds@) =~= model::command_views(before).push(cmd@));
        }
        i = i + 1;
    }
    cmds
}

/// Reconciles our live orders with the desired quotes.
pub fn reconcile(
    mgr: &mut OrderManager,
    desired: &Vec<Quote>,
    p: ReconcileParams<'_>,
    now: Instant,
    now_ms: i64,
) -> (rep: ReconcileReport)
    requires
        old(mgr)@.wf(),
        old(mgr)@.room(old(mgr)@.orders.len() + desired.len()),
        forall|i: int| 0 <= i < desired.len() ==> (#[trigger] desired@[i]).size <= MAX_CONTRACTS,
    ensures
        (final(mgr)@, rep@) == reconciled(old(mgr)@, desired@, p@, now, now_ms),
        final(mgr)@.wf(),
        final(mgr)@.next_req <= old(mgr)@.next_req + old(mgr)@.orders.len() + desired.len(),
        final(mgr)@.next_id <= old(mgr)@.next_id + desired.len(),
        final(mgr)@.orders.len() <= old(mgr)@.orders.len() + desired.len(),
{
    let ghost book = mgr@;
    let live = live_slots(mgr);
    let ghost views = lifecycle::slot_orders(book.orders);
    let mut pr = Progress {
        taken: Vec::new(),
        danger: Vec::new(),
        other: Vec::new(),
        dangerous: 0,
        repriced: 0,
        resized: 0,
        cancelled: 0,
        kept: 0,
    };
    proof {
        assert(model::command_views(pr.danger@) =~= seq![]);
        assert(model::command_views(pr.other@) =~= seq![]);
        assert(pr.of(book, Pass::start(book)));
        assert(views.take(0) =~= seq![]);
    }
    let mut i: usize = 0;
    while i < live.len()
        invariant
            i <= live.len(),
            live.len() == views.len(),
            live.len() <= book.orders.len(),
            book.room(book.orders.len() + desired.len()),
            mgr@.wf(),
            mgr@.next_req <= book.next_req + i,
            mgr@.next_id == book.next_id,
            mgr@.orders.len() == book.orders.len(),
            forall|k: int| 0 <= k < live.len() ==> (#[trigger] live@[k]).of(views[k]),
            forall|k: int| 0 <= k < desired.len() ==> (#[trigger] desired@[k]).size
                <= MAX_CONTRACTS,
            pr.counted(i as int),
            pr.of(mgr@, Pass::start(book).steps(p@, views.take(i as int), desired@, now)),
        decreases live.len() - i,
    {
        let o = live[i];
        assert(o.of(views[i as int]));
        reconcile_order(mgr, &mut pr, o, desired, &p, now, Ghost(i as int));
        i = i + 1;
        proof {
            assert(views.take(i as int).drop_last() =~= views.take(i - 1));
            assert(views.take(i as int).last() == views[i - 1]);
        }
    }
    assert(views.take(i as int) =~= views);
    let ghost pass = Pass::start(book).steps(p@, views, desired@, now);
    let mut placed = place_missing(mgr, &pr, desired, now, now_ms, Ghost(pass.taken));
    let n: usize = placed.len();
    let mut commands: Vec<ExecCommand> = Vec::new();
    let ghost d = pr.danger@;
    let ghost o = pr.other@;
    let ghost w = placed@;
    commands.append(&mut pr.danger);
    commands.append(&mut pr.other);
    commands.append(&mut placed);
    proof {
        assert(commands@ =~= d + o + w);
        assert(model::command_views(commands@) =~= model::command_views(d)
            + model::command_views(o) + model::command_views(w));
    }
    ReconcileReport {
        commands,
        dangerous: pr.dangerous,
        repriced: pr.repriced,
        resized: pr.resized,
        placed: n,
        cancelled: pr.cancelled,
        kept: pr.kept,
    }
}

} // verus!
