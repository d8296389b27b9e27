//! Go Back / Go Forward (newest entry last): the stepping rules of a
//! session's page navigation, with no UI or storage in them.

use vstd::prelude::*;

verus! {

/// How far back Go Back reaches before it starts dropping entries.
pub const NAV_MAX: usize = 50;

/// The two stacks, newest entry last.
pub struct NavHistory {
    pub back: Vec<i32>,
    pub forward: Vec<i32>,
}

/// The stacks as sequences: (back, forward).
pub struct NavModel {
    pub back: Seq<i32>,
    pub forward: Seq<i32>,
}

impl View for NavHistory {
    type V = NavModel;

    open spec fn view(&self) -> NavModel {
        NavModel { back: self.back@, forward: self.forward@ }
    }
}

/// A move from one page to another: `from` goes onto the back stack (when it
/// is a page, and not the page being moved to), the oldest entry falls off
/// past [`NAV_MAX`], and the forward branch is dropped.
pub open spec fn spec_record(h: NavModel, from: i32, to: i32) -> NavModel {
    let back = if from > 0 && from != to {
        let pushed = h.back.push(from);
        if pushed.len() > NAV_MAX { pushed.drop_first() } else { pushed }
    } else {
        h.back
    };
    NavModel { back, forward: Seq::empty() }
}

/// Pop entries off `s` until one is live: what is left, and the live entry
/// (none when every entry was dead, and then nothing is left).
pub open spec fn pop_live(s: Seq<i32>, live: spec_fn(i32) -> bool) -> (Seq<i32>, Option<i32>)
    decreases s.len(),
{
    if s.len() == 0 {
        (s, None)
    } else if live(s.last()) {
        (s.drop_last(), Some(s.last()))
    } else {
        pop_live(s.drop_last(), live)
    }
}

/// One step back (or forward): the newest live page of that stack, skipping
/// (and dropping) pages deleted since they were recorded; the page being
/// left goes onto the opposite stack when it is a live page and not already
/// its newest entry.
pub open spec fn spec_step(h: NavModel, forward: bool, current: i32, live: spec_fn(i32) -> bool) -> (
    NavModel,
    Option<i32>,
) {
    let from = if forward { h.forward } else { h.back };
    let to = if forward { h.back } else { h.forward };
    let (rest, target) = pop_live(from, live);
    let to2 = if target is Some && current > 0 && live(current) && (to.len() == 0 || to.last()
        != current) {
        to.push(current)
    } else {
        to
    };
    let h2 = if forward {
        NavModel { back: to2, forward: rest }
    } else {
        NavModel { back: rest, forward: to2 }
    };
    (h2, target)
}

/// `live` answers as `p` does.
pub open spec fn answers_as<F: Fn(i32) -> bool>(live: F, p: spec_fn(i32) -> bool) -> bool {
    &&& forall|i: i32| call_requires(live, (i,))
    &&& forall|i: i32, r: bool| call_ensures(live, (i,), r) ==> r == p(i)
}

impl Default for NavHistory {
    /// Empty stacks.
    fn default() -> (r: Self)
        ensures
            r@.back == Seq::<i32>::empty(),
            r@.forward == Seq::<i32>::empty(),
    {
        NavHistory { back: Vec::new(), forward: Vec::new() }
    }
}

impl NavHistory {
    /// Empty stacks.
    pub fn new() -> (r: Self)
        ensures
            r@.back == Seq::<i32>::empty(),
            r@.forward == Seq::<i32>::empty(),
    {
        NavHistory { back: Vec::new(), forward: Vec::new() }
    }

    /// A user-initiated move from one page to another. A new navigation
    /// drops the forward branch, the way a browser does.
    pub fn record(&mut self, from: i32, to: i32)
        ensures
            final(self)@ == spec_record(old(self)@, from, to),
    {
        if from > 0 && from != to {
            self.back.push(from);
            if self.back.len() > NAV_MAX {
                self.back.remove(0);
            }
        }
        self.forward.clear();
        proof {
            let want = spec_record(old(self)@, from, to);
            assert(self@.back =~= want.back);
            assert(self@.forward =~= want.forward);
        }
    }

    /// Step one page back (or forward), skipping pages deleted since they
    /// were recorded, and push `current` onto the opposite stack. `live`
    /// answers "does this page still exist?"; for every predicate it answers
    /// as, the step is [`spec_step`].
    pub fn step<F: Fn(i32) -> bool>(&mut self, forward: bool, current: i32, live: F) -> (r: Option<i32>)
        requires
            forall|i: i32| call_requires(live, (i,)),
        ensures
            forall|p: spec_fn(i32) -> bool|
                answers_as(live, p) ==> #[trigger] spec_step(old(self)@, forward, current, p) == (
                    final(self)@,
                    r,
                ),
    {
        let ghost h0 = self@;
        let mut from: Vec<i32> = Vec::new();
        let mut to: Vec<i32> = Vec::new();
        if forward {
            std::mem::swap(&mut from, &mut self.forward);
            std::mem::swap(&mut to, &mut self.back);
        } else {
            std::mem::swap(&mut from, &mut self.back);
            std::mem::swap(&mut to, &mut self.forward);
        }
        let ghost from0 = from@;
        let ghost to0 = to@;
        // The entries popped so far were all dead; `pop_live` of what is left
        // is `pop_live` of what there was.
        let mut target: Option<i32> = None;
        loop
            invariant_except_break
                target == None::<i32>,
                forall|p: spec_fn(i32) -> bool|
                    answers_as(live, p) ==> #[trigger] pop_live(from0, p) == pop_live(from@, p),
            invariant
                forall|i: i32| call_requires(live, (i,)),
            ensures
                forall|p: spec_fn(i32) -> bool|
                    answers_as(live, p) ==> #[trigger] pop_live(from0, p) == (from@, target),
            decreases from@.len(),
        {
            let ghost before = from@;
            match from.pop() {
                Some(id) => {
                    let ok = live(id);
                    if ok {
                        proof {
                            assert forall|p: spec_fn(i32) -> bool| answers_as(live, p) implies #[trigger] pop_live(
                                from0,
                                p,
                            ) == (from@, Some(id)) by {
                                assert(pop_live(before, p) == pop_live(from0, p));
                            }
                        }
                        target = Some(id);
                        break;
                    }
                    proof {
                        assert forall|p: spec_fn(i32) -> bool| answers_as(live, p) implies #[trigger] pop_live(
                            from0,
                            p,
                        ) == pop_live(from@, p) by {
                            assert(pop_live(before, p) == pop_live(from0, p));
                        }
                    }
                },
                None => {
                    proof {
                        assert forall|p: spec_fn(i32) -> bool| answers_as(live, p) implies #[trigger] pop_live(
                            from0,
                            p,
                        ) == (from@, None::<i32>) by {
                            assert(pop_live(before, p) == pop_live(from0, p));
                        }
                    }
                    break;
                },
            }
        }
        let ghost rest = from@;
        if target.is_some() && current > 0 && live(current) && (to.len() == 0 || to[to.len() - 1] != current) {
            to.push(current);
        }
        if forward {
            self.forward = from;
            self.back = to;
        } else {
            self.back = from;
            self.forward = to;
        }
        target
    }
}


// ---- laws ----

/// Back retraces: right after a move from a live page `from` to `to`, Go
/// Back from `to` lands on `from`.
pub proof fn lemma_back_retraces(h: NavModel, from: i32, to: i32, live: spec_fn(i32) -> bool)
    requires
        from > 0,
        from != to,
        live(from),
    ensures
        spec_step(spec_record(h, from, to), false, to, live).1 == Some(from),
{
    let h2 = spec_record(h, from, to);
    assert(h2.back.last() == from);
}

proof fn lemma_pop_live_found(s: Seq<i32>, live: spec_fn(i32) -> bool)
    ensures
        pop_live(s, live).1 matches Some(t) ==> live(t) && s.contains(t),
        pop_live(s, live).1 is None ==> pop_live(s, live).0.len() == 0,
        pop_live(s, live).0.len() <= s.len(),
    decreases s.len(),
{
    if s.len() > 0 {
        if !live(s.last()) {
            lemma_pop_live_found(s.drop_last(), live);
            let t = pop_live(s, live).1;
            if t is Some {
                let k = choose|k: int| 0 <= k < s.drop_last().len() && s.drop_last()[k] == t->0;
                assert(s[k] == t->0);
            }
        } else {
            assert(s[s.len() - 1] == s.last());
        }
    }
}

/// Deleted pages are skipped, not opened: a step only ever lands on a live
/// page, and one that was on the stack it stepped along.
pub proof fn lemma_step_lands_on_live(
    h: NavModel,
    forward: bool,
    current: i32,
    live: spec_fn(i32) -> bool,
)
    ensures
        spec_step(h, forward, current, live).1 matches Some(t) ==> live(t) && (if forward {
            h.forward
        } else {
            h.back
        }).contains(t),
{
    lemma_pop_live_found(if forward { h.forward } else { h.back }, live);
}

/// Go Forward undoes Go Back (and Go Back undoes Go Forward): after a step
/// away from a live page `current` that landed somewhere, the opposite step
/// from where it landed, with the same pages alive, lands on `current`
/// again. This is [`NavHistory::step`] applied twice, through its contract.
pub proof fn lemma_step_rewinds(h: NavModel, forward: bool, current: i32, live: spec_fn(i32) -> bool)
    requires
        current > 0,
        live(current),
        spec_step(h, forward, current, live).1 is Some,
    ensures
        spec_step(
            spec_step(h, forward, current, live).0,
            !forward,
            spec_step(h, forward, current, live).1->0,
            live,
        ).1 == Some(current),
{
    let h2 = spec_step(h, forward, current, live).0;
    let opposite = if forward { h2.back } else { h2.forward };
    assert(opposite.len() > 0 && opposite.last() == current);
}

/// A new navigation drops the forward branch: right after a move, Go
/// Forward has nowhere to go.
pub proof fn lemma_record_drops_forward(
    h: NavModel,
    from: i32,
    to: i32,
    current: i32,
    live: spec_fn(i32) -> bool,
)
    ensures
        spec_record(h, from, to).forward.len() == 0,
        spec_step(spec_record(h, from, to), true, current, live).1 is None,
{
}

/// The first open records nothing (a move from no page, or to the same
/// page, leaves the back stack as it was), and the back stack never grows
/// past [`NAV_MAX`].
pub proof fn lemma_record_bounded(h: NavModel, from: i32, to: i32)
    requires
        h.back.len() <= NAV_MAX,
    ensures
        spec_record(h, from, to).back.len() <= NAV_MAX,
        from <= 0 || from == to ==> spec_record(h, from, to).back == h.back,
{
}

} // verus!
