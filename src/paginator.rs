//! Splitting a range into bounded windows, bisecting the windows whose batch
//! was too large, and merging what the windows fetched in range order.
//!
//! The paginator decides; the caller fetches. Each round the caller asks for
//! the pending windows, fetches them (concurrently if it likes), and hands the
//! outcomes back in the same order.
use vstd::prelude::*;

use crate::error::AMMError;

verus! {

/// The half-open range `[from, to)` of indices or blocks that one batch covers.
#[derive(Debug, Clone, Copy, PartialEq, Eq, Structural)]
pub struct Window {
    pub from: u64,
    pub to: u64,
}

impl Window {
    /// The last block of the window, for calls whose upper bound is inclusive.
    pub fn last(&self) -> (r: u64)
        requires
            self.from < self.to,
        ensures
            r == self.to - 1,
    {
        self.to - 1
    }

    /// How many indices the window holds.
    pub fn len(&self) -> (r: u64)
        requires
            self.from <= self.to,
        ensures
            r == self.to - self.from,
    {
        self.to - self.from
    }
}

/// The windows `[start, start + step)`, `[start + step, start + 2 step)`, ...
/// that cover `[start, end)`, the last one clipped to `end`.
pub open spec fn plan(start: u64, end: u64, step: u64) -> Seq<Window>
    decreases end - start,
{
    if step == 0 || start >= end {
        Seq::empty()
    } else {
        let next = if start + step < end {
            (start + step) as u64
        } else {
            end
        };
        seq![Window { from: start, to: next }] + plan(next, end, step)
    }
}

/// Consecutive non-empty windows that cover exactly `[from, to)`.
pub open spec fn covers(ws: Seq<Window>, from: int, to: int) -> bool
    decreases ws.len(),
{
    if ws.len() == 0 {
        from == to
    } else {
        ws[0].from == from && ws[0].from < ws[0].to && covers(ws.drop_first(), ws[0].to as int, to)
    }
}

/// Every window is at most `step` long.
pub open spec fn bounded_by(ws: Seq<Window>, step: nat) -> bool {
    forall|i: int| 0 <= i < ws.len() ==> ws[i].to - ws[i].from <= step
}

/// Plans the windows over `[start, end)`.
pub fn plan_windows(start: u64, end: u64, step: u64) -> (r: Vec<Window>)
    requires
        step > 0,
    ensures
        r@ == plan(start, end, step),
{
    let mut out: Vec<Window> = Vec::new();
    let mut cur = start;
    while cur < end
        invariant
            step > 0,
            out@ + plan(cur, end, step) == plan(start, end, step),
        decreases end - cur,
    {
        let next = if end - cur > step {
            cur + step
        } else {
            end
        };
        let ghost before = out@;
        out.push(Window { from: cur, to: next });
        proof {
            assert(plan(cur, end, step) == seq![Window { from: cur, to: next }] + plan(
                next,
                end,
                step,
            ));
            assert(before + plan(cur, end, step) == out@ + plan(next, end, step));
        }
        cur = next;
    }
    proof {
        assert(out@ + plan(cur, end, step) == out@);
    }
    out
}

/// The number of indices that the windows hold together.
pub open spec fn total_len(ws: Seq<Window>) -> int
    decreases ws.len(),
{
    if ws.len() == 0 {
        0
    } else {
        (ws[0].to - ws[0].from) + total_len(ws.drop_first())
    }
}

/// Windows that cover `[from, to)` hold `to - from` indices together.
pub proof fn lemma_covers_total(ws: Seq<Window>, from: int, to: int)
    requires
        covers(ws, from, to),
    ensures
        total_len(ws) == to - from,
    decreases ws.len(),
{
    if ws.len() > 0 {
        lemma_covers_total(ws.drop_first(), ws[0].to as int, to);
    }
}

/// The plan over `[start, end)` covers it exactly, with windows of at most
/// `step` indices: fetching every window and counting what each returns
/// counts every index once.
pub proof fn lemma_plan_covers(start: u64, end: u64, step: u64)
    requires
        step > 0,
        start <= end,
    ensures
        covers(plan(start, end, step), start as int, end as int),
        bounded_by(plan(start, end, step), step as nat),
        total_len(plan(start, end, step)) == end - start,
    decreases end - start,
{
    if start < end {
        let next = if start + step < end {
            (start + step) as u64
        } else {
            end
        };
        lemma_plan_covers(next, end, step);
        let ws = plan(start, end, step);
        assert(ws.drop_first() == plan(next, end, step));
        assert forall|i: int| 0 <= i < ws.len() implies ws[i].to - ws[i].from <= step by {
            if i > 0 {
                assert(ws[i] == plan(next, end, step)[i - 1]);
            }
        }
    }
    lemma_covers_total(plan(start, end, step), start as int, end as int);
}

/// Where a window stands.
#[derive(Debug)]
pub enum SlotState<T> {
    /// Not fetched yet.
    Pending,
    /// Fetched, with what came back.
    Done(Vec<T>),
    /// Failed for good.
    Failed(AMMError),
}

/// One window, how many times it has been split, and where it stands.
#[derive(Debug)]
pub struct Slot<T> {
    pub window: Window,
    pub depth: u32,
    pub state: SlotState<T>,
}

/// The slots' windows, in order.
pub open spec fn windows_of<T>(slots: Seq<Slot<T>>) -> Seq<Window> {
    slots.map_values(|s: Slot<T>| s.window)
}

/// How many slots wait for a fetch.
pub open spec fn pending_count<T>(slots: Seq<Slot<T>>) -> nat
    decreases slots.len(),
{
    if slots.len() == 0 {
        0
    } else {
        (if slots[0].state is Pending {
            1nat
        } else {
            0nat
        }) + pending_count(slots.drop_first())
    }
}

/// The pending windows, in order.
pub open spec fn pending_windows_of<T>(slots: Seq<Slot<T>>) -> Seq<Window>
    decreases slots.len(),
{
    if slots.len() == 0 {
        Seq::empty()
    } else if slots[0].state is Pending {
        seq![slots[0].window] + pending_windows_of(slots.drop_first())
    } else {
        pending_windows_of(slots.drop_first())
    }
}

/// Whether a too-large window may still be split: it holds two indices or
/// more and has been split fewer than `max_depth` times.
pub open spec fn splittable<T>(s: Slot<T>, max_depth: u32) -> bool {
    s.window.to - s.window.from >= 2 && s.depth < max_depth
}

/// Where a window is split: its midpoint, rounded down.
pub open spec fn midpoint(w: Window) -> u64 {
    (w.from + (w.to - w.from) / 2) as u64
}

/// Bisection ends: both halves of a window of two indices or more are
/// non-empty and strictly shorter than the window, so repeated halving
/// reaches windows of one index.
pub proof fn lemma_halves_shrink(w: Window)
    requires
        w.to - w.from >= 2,
    ensures
        w.from < midpoint(w) < w.to,
        midpoint(w) - w.from < w.to - w.from,
        w.to - midpoint(w) < w.to - w.from,
{
}

/// What one outcome makes of a pending slot: the items it fetched; two
/// pending halves when the batch was too large and the window can be split;
/// else a failure.
pub open spec fn settle<T>(s: Slot<T>, o: Result<Vec<T>, AMMError>, max_depth: u32) -> Seq<
    Slot<T>,
> {
    match o {
        Ok(v) => seq![Slot { window: s.window, depth: s.depth, state: SlotState::Done(v) }],
        Err(e) => if e is GasOrSizeError && splittable(s, max_depth) {
            seq![
                Slot {
                    window: Window { from: s.window.from, to: midpoint(s.window) },
                    depth: (s.depth + 1) as u32,
                    state: SlotState::Pending,
                },
                Slot {
                    window: Window { from: midpoint(s.window), to: s.window.to },
                    depth: (s.depth + 1) as u32,
                    state: SlotState::Pending,
                },
            ]
        } else {
            seq![Slot { window: s.window, depth: s.depth, state: SlotState::Failed(e) }]
        },
    }
}

/// The slots after one round: the pending slots take the outcomes in order,
/// the others stay as they are.
pub open spec fn apply_outcomes<T>(
    slots: Seq<Slot<T>>,
    outcomes: Seq<Result<Vec<T>, AMMError>>,
    max_depth: u32,
) -> Seq<Slot<T>>
    decreases slots.len(),
{
    if slots.len() == 0 {
        Seq::empty()
    } else if slots[0].state is Pending {
        settle(slots[0], outcomes[0], max_depth) + apply_outcomes(
            slots.drop_first(),
            outcomes.drop_first(),
            max_depth,
        )
    } else {
        seq![slots[0]] + apply_outcomes(slots.drop_first(), outcomes, max_depth)
    }
}

/// What the slots add up to once none is pending: every item in window
/// order, or the failure of the first failed window.
pub open spec fn merged<T>(slots: Seq<Slot<T>>) -> Result<Seq<T>, AMMError>
    decreases slots.len(),
{
    if slots.len() == 0 {
        Ok(Seq::empty())
    } else {
        match slots[0].state {
            SlotState::Done(v) => match merged(slots.drop_first()) {
                Ok(rest) => Ok(v@ + rest),
                Err(e) => Err(e),
            },
            SlotState::Failed(e) => Err(e),
            SlotState::Pending => merged(slots.drop_first()),
        }
    }
}

/// Every item of the fetched windows, in window order.
pub open spec fn fetched_items<T>(slots: Seq<Slot<T>>) -> Seq<T>
    decreases slots.len(),
{
    if slots.len() == 0 {
        Seq::empty()
    } else {
        match slots[0].state {
            SlotState::Done(v) => v@ + fetched_items(slots.drop_first()),
            _ => fetched_items(slots.drop_first()),
        }
    }
}

/// The failed windows with their failures, in window order.
pub open spec fn failures<T>(slots: Seq<Slot<T>>) -> Seq<(Window, AMMError)>
    decreases slots.len(),
{
    if slots.len() == 0 {
        Seq::empty()
    } else {
        match slots[0].state {
            SlotState::Failed(e) => seq![(slots[0].window, e)] + failures(slots.drop_first()),
            _ => failures(slots.drop_first()),
        }
    }
}

/// With no failed window the strict merge succeeds with the items that the
/// tolerant one keeps; with one, the strict merge fails with the first
/// failure.
pub proof fn lemma_strict_and_tolerant_merge<T>(slots: Seq<Slot<T>>)
    ensures
        failures(slots).len() == 0 ==> merged(slots) == Ok::<Seq<T>, AMMError>(
            fetched_items(slots),
        ),
        failures(slots).len() > 0 ==> merged(slots) == Err::<Seq<T>, AMMError>(
            failures(slots)[0].1,
        ),
    decreases slots.len(),
{
    if slots.len() > 0 {
        lemma_strict_and_tolerant_merge(slots.drop_first());
    }
}

/// The fresh slots of a plan: every window pending, none split.
pub open spec fn fresh<T>(ws: Seq<Window>) -> Seq<Slot<T>> {
    ws.map_values(|w: Window| Slot { window: w, depth: 0, state: SlotState::Pending })
}

/// The windows of a range and where each stands.
pub struct Paginator<T> {
    pub start: u64,
    pub end: u64,
    pub max_depth: u32,
    pub slots: Vec<Slot<T>>,
}

impl<T> Paginator<T> {
    /// The slots cover the range exactly.
    pub open spec fn wf(&self) -> bool {
        covers(windows_of(self.slots@), self.start as int, self.end as int)
    }

    /// Plans `[start, end)` in windows of `step`, all pending.
    pub fn new(start: u64, end: u64, step: u64, max_depth: u32) -> (r: Paginator<T>)
        requires
            step > 0,
            start <= end,
        ensures
            r.start == start,
            r.end == end,
            r.max_depth == max_depth,
            r.slots@ == fresh::<T>(plan(start, end, step)),
            r.wf(),
    {
        let ws = plan_windows(start, end, step);
        let mut slots: Vec<Slot<T>> = Vec::new();
        let mut i: usize = 0;
        while i < ws.len()
            invariant
                i <= ws.len(),
                slots@ == fresh::<T>(ws@.take(i as int)),
            decreases ws.len() - i,
        {
            slots.push(Slot { window: ws[i], depth: 0, state: SlotState::Pending });
            proof {
                assert(ws@.take(i + 1) == ws@.take(i as int).push(ws@[i as int]));
                assert(slots@ =~= fresh::<T>(ws@.take(i + 1)));
            }
            i = i + 1;
        }
        proof {
            assert(ws@.take(ws.len() as int) == ws@);
            lemma_plan_covers(start, end, step);
            assert(windows_of(slots@) =~= ws@);
        }
        Paginator { start, end, max_depth, slots }
    }

    /// The windows that still wait for a fetch, in range order.
    pub fn pending_windows(&self) -> (r: Vec<Window>)
        ensures
            r@ == pending_windows_of(self.slots@),
            r@.len() == pending_count(self.slots@),
    {
        let mut out: Vec<Window> = Vec::new();
        let mut j: usize = 0;
        proof {
            assert(self.slots@.skip(0) == self.slots@);
        }
        while j < self.slots.len()
            invariant
                j <= self.slots.len(),
                out@ + pending_windows_of(self.slots@.skip(j as int)) == pending_windows_of(
                    self.slots@,
                ),
                out@.len() + pending_count(self.slots@.skip(j as int)) == pending_count(
                    self.slots@,
                ),
            decreases self.slots.len() - j,
        {
            let ghost rest = self.slots@.skip(j as int);
            proof {
                assert(rest.drop_first() == self.slots@.skip(j + 1));
            }
            match self.slots[j].state {
                SlotState::Pending => {
                    let ghost before = out@;
                    out.push(self.slots[j].window);
                    proof {
                        assert(before + pending_windows_of(rest) == out@ + pending_windows_of(
                            rest.drop_first(),
                        ));
                    }
                },
                _ => {},
            }
            j = j + 1;
        }
        proof {
            assert(self.slots@.skip(self.slots.len() as int).len() == 0);
            assert(out@ + pending_windows_of(self.slots@.skip(self.slots.len() as int)) == out@);
        }
        out
    }

    /// Whether no window waits for a fetch.
    pub fn is_finished(&self) -> (r: bool)
        ensures
            r == (pending_count(self.slots@) == 0),
    {
        let windows = self.pending_windows();
        windows.len() == 0
    }
    /// Hands back the outcomes of the pending windows, in the order that
    /// `pending_windows` gave them. A window that fetched holds its items; one
    /// whose batch was too large is split at its midpoint into two pending
    /// halves, while it holds two indices or more and has been split fewer than
    /// `max_depth` times; any other failure is final.
    pub fn record(&mut self, outcomes: Vec<Result<Vec<T>, AMMError>>)
        requires
            old(self).wf(),
            outcomes@.len() == pending_count(old(self).slots@),
        ensures
            final(self).slots@ == apply_outcomes(
                old(self).slots@,
                outcomes@,
                old(self).max_depth,
            ),
            final(self).start == old(self).start,
            final(self).end == old(self).end,
            final(self).max_depth == old(self).max_depth,
            final(self).wf(),
    {
        let mut rest: Vec<Slot<T>> = Vec::new();
        std::mem::swap(&mut rest, &mut self.slots);
        let mut outs = outcomes;
        let mut done: Vec<Slot<T>> = Vec::new();
        let ghost orig = rest@;
        let ghost orig_out = outs@;
        let max_depth = self.max_depth;
        proof {
            lemma_apply_covers(orig, orig_out, max_depth, self.start as int, self.end as int);
        }
        while rest.len() > 0
            invariant
                done@ + apply_outcomes(rest@, outs@, max_depth) == apply_outcomes(
                    orig,
                    orig_out,
                    max_depth,
                ),
                outs@.len() == pending_count(rest@),
            decreases rest.len(),
        {
            let ghost r0 = rest@;
            let ghost o0 = outs@;
            let ghost d0 = done@;
            let s = rest.remove(0);
            proof {
                assert(rest@ == r0.drop_first());
            }
            let window = s.window;
            let depth = s.depth;
            match s.state {
                SlotState::Pending => {
                    let o = outs.remove(0);
                    proof {
                        assert(outs@ == o0.drop_first());
                    }
                    match o {
                        Ok(v) => {
                            done.push(Slot { window, depth, state: SlotState::Done(v) });
                        },
                        Err(e) => {
                            let splits = e.is_too_large() && window.from < window.to
                                && window.to - window.from >= 2 && depth < max_depth;
                            if splits {
                                let mid = window.from + (window.to - window.from) / 2;
                                done.push(
                                    Slot {
                                        window: Window { from: window.from, to: mid },
                                        depth: depth + 1,
                                        state: SlotState::Pending,
                                    },
                                );
                                done.push(
                                    Slot {
                                        window: Window { from: mid, to: window.to },
                                        depth: depth + 1,
                                        state: SlotState::Pending,
                                    },
                                );
                            } else {
                                done.push(Slot { window, depth, state: SlotState::Failed(e) });
                            }
                        },
                    }
                    proof {
                        assert(done@ =~= d0 + settle(r0[0], o0[0], max_depth));
                    }
                },
                other => {
                    done.push(Slot { window, depth, state: other });
                    proof {
                        assert(done@ =~= d0 + seq![r0[0]]);
                    }
                },
            }
            proof {
                assert(done@ + apply_outcomes(rest@, outs@, max_depth) =~= d0 + apply_outcomes(
                    r0,
                    o0,
                    max_depth,
                ));
            }
        }
        proof {
            assert(done@ + apply_outcomes(rest@, outs@, max_depth) =~= done@);
        }
        self.slots = done;
    }

    /// Every item that the windows fetched, in range order, or the failure
    /// of the first window that failed.
    pub fn merge(self) -> (r: Result<Vec<T>, AMMError>)
        requires
            pending_count(self.slots@) == 0,
        ensures
            r is Ok ==> merged(self.slots@) == Ok::<Seq<T>, AMMError>(r->Ok_0@),
            r is Err ==> merged(self.slots@) == Err::<Seq<T>, AMMError>(r->Err_0),
    {
        let ghost orig = self.slots@;
        let mut rest = self.slots;
        proof {
            assert(rest@ == orig);
        }
        let mut acc: Vec<T> = Vec::new();
        while rest.len() > 0
            invariant
                orig == self.slots@,
                merged(orig) == match merged(rest@) {
                    Ok(m) => Ok(acc@ + m),
                    Err(e) => Err(e),
                },
            decreases rest.len(),
        {
            let ghost r0 = rest@;
            let s = rest.remove(0);
            proof {
                assert(rest@ == r0.drop_first());
            }
            match s.state {
                SlotState::Done(v) => {
                    let ghost a0 = acc@;
                    let mut items = v;
                    acc.append(&mut items);
                    proof {
                        match merged(rest@) {
                            Ok(m) => {
                                assert(a0 + (v@ + m) =~= acc@ + m);
                            },
                            Err(_) => {},
                        }
                    }
                },
                SlotState::Failed(e) => {
                    proof {
                        assert(merged(r0) == Err::<Seq<T>, AMMError>(e));
                        assert(merged(orig) == Err::<Seq<T>, AMMError>(e));
                    }
                    return Err(e);
                },
                SlotState::Pending => {},
            }
        }
        proof {
            assert(acc@ + Seq::<T>::empty() =~= acc@);
        }
        Ok(acc)
    }
    /// Every item of the windows that fetched, in range order, together
    /// with the windows that failed and why: a failed window is skipped
    /// rather than failing the whole range.
    pub fn merge_tolerant(self) -> (r: (Vec<T>, Vec<(Window, AMMError)>))
        requires
            pending_count(self.slots@) == 0,
        ensures
            r.0@ == fetched_items(self.slots@),
            r.1@ == failures(self.slots@),
    {
        let ghost orig = self.slots@;
        let mut rest = self.slots;
        let mut items: Vec<T> = Vec::new();
        let mut failed: Vec<(Window, AMMError)> = Vec::new();
        while rest.len() > 0
            invariant
                orig == self.slots@,
                fetched_items(orig) == items@ + fetched_items(rest@),
                failures(orig) == failed@ + failures(rest@),
            decreases rest.len(),
        {
            let ghost r0 = rest@;
            let ghost i0 = items@;
            let ghost f0 = failed@;
            let s = rest.remove(0);
            proof {
                assert(rest@ == r0.drop_first());
            }
            let window = s.window;
            match s.state {
                SlotState::Done(v) => {
                    let mut fetched = v;
                    items.append(&mut fetched);
                    proof {
                        assert(i0 + (v@ + fetched_items(rest@)) =~= items@ + fetched_items(rest@));
                    }
                },
                SlotState::Failed(e) => {
                    failed.push((window, e));
                    proof {
                        assert(f0 + (seq![(window, e)] + failures(rest@)) =~= failed@ + failures(
                            rest@,
                        ));
                    }
                },
                SlotState::Pending => {},
            }
        }
        proof {
            assert(items@ + Seq::<T>::empty() =~= items@);
            assert(failed@ + Seq::<(Window, AMMError)>::empty() =~= failed@);
        }
        (items, failed)
    }
}

/// Joining windows that cover `[a, m)` to windows that cover `[m, b)` covers
/// `[a, b)`.
pub proof fn lemma_covers_concat(xs: Seq<Window>, ys: Seq<Window>, a: int, m: int, b: int)
    requires
        covers(xs, a, m),
        covers(ys, m, b),
    ensures
        covers(xs + ys, a, b),
    decreases xs.len(),
{
    if xs.len() == 0 {
        assert(xs + ys =~= ys);
    } else {
        lemma_covers_concat(xs.drop_first(), ys, xs[0].to as int, m, b);
        assert((xs + ys).drop_first() =~= xs.drop_first() + ys);
    }
}

proof fn lemma_windows_of_concat<T>(xs: Seq<Slot<T>>, ys: Seq<Slot<T>>)
    ensures
        windows_of(xs + ys) =~= windows_of(xs) + windows_of(ys),
{
}

/// A round keeps the range covered: the settled slots' windows cover what the
/// slots' windows covered before.
pub proof fn lemma_apply_covers<T>(
    slots: Seq<Slot<T>>,
    outcomes: Seq<Result<Vec<T>, AMMError>>,
    max_depth: u32,
    from: int,
    to: int,
)
    requires
        covers(windows_of(slots), from, to),
        outcomes.len() >= pending_count(slots),
    ensures
        covers(windows_of(apply_outcomes(slots, outcomes, max_depth)), from, to),
    decreases slots.len(),
{
    if slots.len() > 0 {
        let s = slots[0];
        let rest = slots.drop_first();
        assert(windows_of(slots).drop_first() =~= windows_of(rest));
        assert(windows_of(slots)[0] == s.window);
        let head = if s.state is Pending {
            settle(s, outcomes[0], max_depth)
        } else {
            seq![s]
        };
        let outs = if s.state is Pending {
            outcomes.drop_first()
        } else {
            outcomes
        };
        lemma_apply_covers(rest, outs, max_depth, s.window.to as int, to);
        let hw = windows_of(head);
        assert(s.window.from == from && s.window.from < s.window.to);
        if hw.len() == 2 {
            let mid = midpoint(s.window);
            assert(s.window.from < mid < s.window.to);
            assert(hw[0] == Window { from: s.window.from, to: mid });
            assert(hw[1] == Window { from: mid, to: s.window.to });
            let tail = hw.drop_first();
            assert(tail[0] == hw[1]);
            assert(tail.drop_first() =~= Seq::<Window>::empty());
            assert(covers(tail.drop_first(), s.window.to as int, s.window.to as int));
            assert(covers(tail, mid as int, s.window.to as int));
            assert(covers(hw, from, s.window.to as int));
        } else {
            assert(hw.len() == 1);
            assert(hw[0] == s.window);
            assert(hw.drop_first() =~= Seq::<Window>::empty());
            assert(covers(hw.drop_first(), s.window.to as int, s.window.to as int));
            assert(covers(hw, from, s.window.to as int));
        }
        assert(covers(hw, from, s.window.to as int));
        lemma_covers_concat(hw, windows_of(apply_outcomes(rest, outs, max_depth)), from,
            s.window.to as int, to);
        lemma_windows_of_concat(head, apply_outcomes(rest, outs, max_depth));
    }
}

/// Every slot fetched exactly as many items as its window holds.
pub open spec fn fully_fetched<T>(slots: Seq<Slot<T>>) -> bool {
    forall|i: int|
        0 <= i < slots.len() ==> (#[trigger] slots[i]).state is Done
            && slots[i].state->Done_0@.len() == slots[i].window.to - slots[i].window.from
}

/// When slots cover `[from, to)` and each fetched one item per index of its
/// window, the merge succeeds with `to - from` items.
pub proof fn lemma_full_fetch_count<T>(slots: Seq<Slot<T>>, from: int, to: int)
    requires
        covers(windows_of(slots), from, to),
        fully_fetched(slots),
    ensures
        merged(slots) is Ok,
        merged(slots)->Ok_0.len() == to - from,
    decreases slots.len(),
{
    if slots.len() > 0 {
        let rest = slots.drop_first();
        assert(windows_of(slots).drop_first() =~= windows_of(rest));
        assert(windows_of(slots)[0] == slots[0].window);
        assert forall|i: int| 0 <= i < rest.len() implies (#[trigger] rest[i]).state is Done
            && rest[i].state->Done_0@.len() == rest[i].window.to - rest[i].window.from by {
            assert(rest[i] == slots[i + 1]);
        }
        lemma_full_fetch_count(rest, slots[0].window.to as int, to);
        assert(slots[0].state is Done);
    } else {
        assert(windows_of(slots).len() == 0);
    }
}

/// All slots wait for a fetch.
pub open spec fn all_pending<T>(slots: Seq<Slot<T>>) -> bool {
    forall|i: int| 0 <= i < slots.len() ==> (#[trigger] slots[i]).state is Pending
}

/// A slot after a successful fetch of `v`.
pub open spec fn fetched<T>(s: Slot<T>, v: Vec<T>) -> Slot<T> {
    Slot { window: s.window, depth: s.depth, state: SlotState::Done(v) }
}

proof fn lemma_pending_count_all<T>(slots: Seq<Slot<T>>)
    requires
        all_pending(slots),
    ensures
        pending_count(slots) == slots.len(),
    decreases slots.len(),
{
    if slots.len() > 0 {
        let rest = slots.drop_first();
        assert(all_pending(slots));
        assert forall|i: int| 0 <= i < rest.len() implies (#[trigger] rest[i]).state is Pending by {
            assert(rest[i] == slots[i + 1]);
        }
        lemma_pending_count_all(rest);
    }
}

/// A round in which every pending window fetched: each slot holds what its
/// own fetch returned, in the same order.
pub proof fn lemma_apply_all_fetched<T>(
    slots: Seq<Slot<T>>,
    outcomes: Seq<Result<Vec<T>, AMMError>>,
    max_depth: u32,
)
    requires
        all_pending(slots),
        outcomes.len() == slots.len(),
        forall|i: int| 0 <= i < outcomes.len() ==> (#[trigger] outcomes[i]) is Ok,
    ensures
        apply_outcomes(slots, outcomes, max_depth).len() == slots.len(),
        forall|i: int|
            0 <= i < slots.len() ==> #[trigger] apply_outcomes(slots, outcomes, max_depth)[i]
                == fetched(slots[i], outcomes[i]->Ok_0),
    decreases slots.len(),
{
    if slots.len() > 0 {
        let rest = slots.drop_first();
        let orest = outcomes.drop_first();
        assert forall|i: int| 0 <= i < rest.len() implies (#[trigger] rest[i]).state is Pending by {
            assert(rest[i] == slots[i + 1]);
        }
        assert forall|i: int| 0 <= i < orest.len() implies (#[trigger] orest[i]) is Ok by {
            assert(orest[i] == outcomes[i + 1]);
        }
        lemma_apply_all_fetched(rest, orest, max_depth);
        assert(slots[0].state is Pending);
        assert(outcomes[0] is Ok);
        let r = apply_outcomes(slots, outcomes, max_depth);
        assert(r == settle(slots[0], outcomes[0], max_depth) + apply_outcomes(
            rest,
            orest,
            max_depth,
        ));
        assert forall|i: int| 0 <= i < slots.len() implies #[trigger] r[i] == fetched(
            slots[i],
            outcomes[i]->Ok_0,
        ) by {
            if i > 0 {
                assert(r[i] == apply_outcomes(rest, orest, max_depth)[i - 1]);
                assert(rest[i - 1] == slots[i]);
                assert(orest[i - 1] == outcomes[i]);
            }
        }
    }
}

/// Paginating `[start, end)` with no failure: when every window of the plan
/// fetches one item per index, the merge holds `end - start` items.
pub proof fn lemma_paginate_without_failures<T>(
    start: u64,
    end: u64,
    step: u64,
    max_depth: u32,
    outcomes: Seq<Result<Vec<T>, AMMError>>,
)
    requires
        step > 0,
        start <= end,
        outcomes.len() == plan(start, end, step).len(),
        forall|i: int|
            0 <= i < outcomes.len() ==> (#[trigger] outcomes[i]) is Ok && outcomes[i]->Ok_0@.len()
                == plan(start, end, step)[i].to - plan(start, end, step)[i].from,
    ensures
        pending_count(fresh::<T>(plan(start, end, step))) == outcomes.len(),
        merged(apply_outcomes(fresh::<T>(plan(start, end, step)), outcomes, max_depth)) is Ok,
        merged(apply_outcomes(fresh::<T>(plan(start, end, step)), outcomes, max_depth))->Ok_0.len()
            == end - start,
{
    let ws = plan(start, end, step);
    let slots = fresh::<T>(ws);
    lemma_plan_covers(start, end, step);
    assert(windows_of(slots) =~= ws);
    assert forall|i: int| 0 <= i < outcomes.len() implies (#[trigger] outcomes[i]) is Ok by {}
    lemma_pending_count_all(slots);
    lemma_apply_all_fetched(slots, outcomes, max_depth);
    let after = apply_outcomes(slots, outcomes, max_depth);
    lemma_apply_covers(slots, outcomes, max_depth, start as int, end as int);
    assert forall|i: int| 0 <= i < after.len() implies (#[trigger] after[i]).state is Done
        && after[i].state->Done_0@.len() == after[i].window.to - after[i].window.from by {
        assert(after[i] == fetched(slots[i], outcomes[i]->Ok_0));
    }
    lemma_full_fetch_count(after, start as int, end as int);
}

/// A too-large batch in one window of a round bisects that window alone:
/// the slots before it and after it hold what their own fetches returned,
/// and the window is replaced by its two halves, both pending and split once
/// more.
pub proof fn lemma_bisect_isolated<T>(
    slots: Seq<Slot<T>>,
    outcomes: Seq<Result<Vec<T>, AMMError>>,
    max_depth: u32,
    k: int,
)
    requires
        all_pending(slots),
        outcomes.len() == slots.len(),
        0 <= k < slots.len(),
        outcomes[k] is Err && outcomes[k]->Err_0 is GasOrSizeError,
        splittable(slots[k], max_depth),
        forall|i: int| 0 <= i < outcomes.len() && i != k ==> (#[trigger] outcomes[i]) is Ok,
    ensures
        apply_outcomes(slots, outcomes, max_depth).len() == slots.len() + 1,
        forall|i: int|
            0 <= i < k ==> #[trigger] apply_outcomes(slots, outcomes, max_depth)[i] == fetched(
                slots[i],
                outcomes[i]->Ok_0,
            ),
        apply_outcomes(slots, outcomes, max_depth)[k] == (Slot::<T> {
            window: Window { from: slots[k].window.from, to: midpoint(slots[k].window) },
            depth: (slots[k].depth + 1) as u32,
            state: SlotState::Pending,
        }),
        apply_outcomes(slots, outcomes, max_depth)[k + 1] == (Slot::<T> {
            window: Window { from: midpoint(slots[k].window), to: slots[k].window.to },
            depth: (slots[k].depth + 1) as u32,
            state: SlotState::Pending,
        }),
        forall|i: int|
            k < i < slots.len() ==> #[trigger] apply_outcomes(slots, outcomes, max_depth)[i + 1]
                == fetched(slots[i], outcomes[i]->Ok_0),
    decreases slots.len(),
{
    let rest = slots.drop_first();
    let orest = outcomes.drop_first();
    let r = apply_outcomes(slots, outcomes, max_depth);
    assert(slots[0].state is Pending);
    assert(r == settle(slots[0], outcomes[0], max_depth) + apply_outcomes(rest, orest, max_depth));
    assert forall|i: int| 0 <= i < rest.len() implies (#[trigger] rest[i]).state is Pending by {
        assert(rest[i] == slots[i + 1]);
    }
    if k == 0 {
        assert forall|i: int| 0 <= i < orest.len() implies (#[trigger] orest[i]) is Ok by {
            assert(orest[i] == outcomes[i + 1]);
        }
        lemma_apply_all_fetched(rest, orest, max_depth);
        assert forall|i: int| k < i < slots.len() implies #[trigger] r[i + 1] == fetched(
            slots[i],
            outcomes[i]->Ok_0,
        ) by {
            assert(r[i + 1] == apply_outcomes(rest, orest, max_depth)[i - 1]);
            assert(rest[i - 1] == slots[i]);
            assert(orest[i - 1] == outcomes[i]);
        }
    } else {
        assert forall|i: int| 0 <= i < orest.len() && i != k - 1 implies (
        #[trigger] orest[i]) is Ok by {
            assert(orest[i] == outcomes[i + 1]);
        }
        assert(rest[k - 1] == slots[k]);
        assert(orest[k - 1] == outcomes[k]);
        lemma_bisect_isolated(rest, orest, max_depth, k - 1);
        assert(outcomes[0] is Ok);
        assert forall|i: int| 0 <= i < k implies #[trigger] r[i] == fetched(
            slots[i],
            outcomes[i]->Ok_0,
        ) by {
            if i > 0 {
                assert(r[i] == apply_outcomes(rest, orest, max_depth)[i - 1]);
                assert(rest[i - 1] == slots[i]);
                assert(orest[i - 1] == outcomes[i]);
            }
        }
        assert(r[k] == apply_outcomes(rest, orest, max_depth)[k - 1]);
        assert(r[k + 1] == apply_outcomes(rest, orest, max_depth)[k]);
        assert forall|i: int| k < i < slots.len() implies #[trigger] r[i + 1] == fetched(
            slots[i],
            outcomes[i]->Ok_0,
        ) by {
            assert(r[i + 1] == apply_outcomes(rest, orest, max_depth)[i]);
            assert(rest[i - 1] == slots[i]);
            assert(orest[i - 1] == outcomes[i]);
        }
    }
}

proof fn lemma_pending_windows_none<T>(xs: Seq<Slot<T>>)
    requires
        forall|i: int| 0 <= i < xs.len() ==> !((#[trigger] xs[i]).state is Pending),
    ensures
        pending_windows_of(xs) == Seq::<Window>::empty(),
    decreases xs.len(),
{
    if xs.len() > 0 {
        let rest = xs.drop_first();
        assert forall|i: int| 0 <= i < rest.len() implies !((
        #[trigger] rest[i]).state is Pending) by {
            assert(rest[i] == xs[i + 1]);
        }
        lemma_pending_windows_none(rest);
        assert(!(xs[0].state is Pending));
    }
}

proof fn lemma_pending_windows_pair<T>(xs: Seq<Slot<T>>, k: int)
    requires
        0 <= k,
        k + 1 < xs.len(),
        xs[k].state is Pending,
        xs[k + 1].state is Pending,
        forall|i: int|
            0 <= i < xs.len() && i != k && i != k + 1 ==> !((#[trigger] xs[i]).state is Pending),
    ensures
        pending_windows_of(xs) == seq![xs[k].window, xs[k + 1].window],
    decreases xs.len(),
{
    let rest = xs.drop_first();
    if k == 0 {
        let tail = rest.drop_first();
        assert forall|i: int| 0 <= i < tail.len() implies !((
        #[trigger] tail[i]).state is Pending) by {
            assert(tail[i] == xs[i + 2]);
        }
        lemma_pending_windows_none(tail);
        assert(rest[0] == xs[1]);
        assert(pending_windows_of(rest) == seq![xs[1].window] + Seq::<Window>::empty());
        assert(pending_windows_of(xs) =~= seq![xs[0].window, xs[1].window]);
    } else {
        assert forall|i: int|
            0 <= i < rest.len() && i != k - 1 && i != k implies !((
            #[trigger] rest[i]).state is Pending) by {
            assert(rest[i] == xs[i + 1]);
        }
        assert(rest[k - 1] == xs[k]);
        assert(rest[k] == xs[k + 1]);
        lemma_pending_windows_pair(rest, k - 1);
        assert(!(xs[0].state is Pending));
    }
}

/// After a round in which one window was too large and every other window
/// fetched, the next round requests exactly the two halves of that window,
/// and no other window.
pub proof fn lemma_bisect_requests_halves<T>(
    slots: Seq<Slot<T>>,
    outcomes: Seq<Result<Vec<T>, AMMError>>,
    max_depth: u32,
    k: int,
)
    requires
        all_pending(slots),
        outcomes.len() == slots.len(),
        0 <= k < slots.len(),
        outcomes[k] is Err && outcomes[k]->Err_0 is GasOrSizeError,
        splittable(slots[k], max_depth),
        forall|i: int| 0 <= i < outcomes.len() && i != k ==> (#[trigger] outcomes[i]) is Ok,
    ensures
        pending_windows_of(apply_outcomes(slots, outcomes, max_depth)) == seq![
            Window { from: slots[k].window.from, to: midpoint(slots[k].window) },
            Window { from: midpoint(slots[k].window), to: slots[k].window.to },
        ],
{
    lemma_bisect_isolated(slots, outcomes, max_depth, k);
    let r = apply_outcomes(slots, outcomes, max_depth);
    assert forall|i: int|
        0 <= i < r.len() && i != k && i != k + 1 implies !((#[trigger] r[i]).state is Pending) by {
        if i < k {
            assert(r[i] == fetched(slots[i], outcomes[i]->Ok_0));
        } else {
            assert(r[(i - 1) + 1] == fetched(slots[i - 1], outcomes[i - 1]->Ok_0));
        }
    }
    lemma_pending_windows_pair(r, k);
}

/// Every window fetched exactly the values that `g` gives its indices, in
/// index order.
pub open spec fn fetched_as<T>(slots: Seq<Slot<T>>, g: spec_fn(int) -> T) -> bool {
    forall|i: int|
        0 <= i < slots.len() ==> (#[trigger] slots[i]).state is Done && slots[i].state->Done_0@
            == Seq::new(
            (slots[i].window.to - slots[i].window.from) as nat,
            |j: int| g(slots[i].window.from + j),
        )
}

/// Slots that cover `[from, to)` and fetched the values of `g` merge into the
/// values of every index from `from` to `to`, in index order.
pub proof fn lemma_fetched_in_order<T>(
    slots: Seq<Slot<T>>,
    from: int,
    to: int,
    g: spec_fn(int) -> T,
)
    requires
        covers(windows_of(slots), from, to),
        fetched_as(slots, g),
    ensures
        from <= to,
        merged(slots) == Ok::<Seq<T>, AMMError>(Seq::new((to - from) as nat, |j: int| g(from + j))),
    decreases slots.len(),
{
    if slots.len() > 0 {
        let rest = slots.drop_first();
        let w = slots[0].window;
        assert(windows_of(slots).drop_first() =~= windows_of(rest));
        assert(windows_of(slots)[0] == w);
        assert forall|i: int| 0 <= i < rest.len() implies (#[trigger] rest[i]).state is Done
            && rest[i].state->Done_0@ == Seq::new(
            (rest[i].window.to - rest[i].window.from) as nat,
            |j: int| g(rest[i].window.from + j),
        ) by {
            assert(rest[i] == slots[i + 1]);
        }
        lemma_fetched_in_order(rest, w.to as int, to, g);
        assert(slots[0].state is Done);
        let v = slots[0].state->Done_0;
        assert(v@ == Seq::new((w.to - w.from) as nat, |j: int| g(w.from + j)));
        assert(v@ + Seq::new((to - w.to) as nat, |j: int| g(w.to + j)) =~= Seq::new(
            (to - from) as nat,
            |j: int| g(from + j),
        ));
    } else {
        assert(windows_of(slots).len() == 0);
        assert(Seq::<T>::empty() =~= Seq::new((to - from) as nat, |j: int| g(from + j)));
    }
}

/// However many rounds a run took and however many windows it split on the
/// way, once every window of the paginator fetched the values of its
/// indices, the merge holds the value of every index of the range once, in
/// index order: `end - start` items.
pub proof fn lemma_run_in_order<T>(p: Paginator<T>, g: spec_fn(int) -> T)
    requires
        p.wf(),
        fetched_as(p.slots@, g),
    ensures
        merged(p.slots@) == Ok::<Seq<T>, AMMError>(
            Seq::new((p.end - p.start) as nat, |j: int| g(p.start + j)),
        ),
        merged(p.slots@)->Ok_0.len() == p.end - p.start,
{
    lemma_fetched_in_order(p.slots@, p.start as int, p.end as int, g);
}

} // verus!
