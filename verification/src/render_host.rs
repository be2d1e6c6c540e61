//! The render host: the registry of renderers, each woken with the slot
//! appearances the controller reports changed and stepped while it animates.
use vstd::prelude::*;

use crate::render::{
    deliveries, delivery, emitted, slot_of_appearance, Activity, RenderController,
    Renderer, Slot, SlotAppearance,
};
use crate::state::DeviceState;

verus! {

/// Opaque handle to a registered renderer, assigned by the render host.
#[derive(Debug, Clone, Copy, PartialEq, Eq, Structural)]
pub struct RenderToken(pub u64);

struct Entry {
    token: RenderToken,
    activity: Activity,
    renderer: Box<dyn Renderer>,
}

/// The first position of `t` in `tokens`.
pub open spec fn first_index(tokens: Seq<u64>, t: u64) -> Option<int>
    decreases tokens.len(),
{
    if tokens.len() == 0 {
        None
    } else if tokens[0] == t {
        Some(0)
    } else {
        match first_index(tokens.drop_first(), t) {
            Some(i) => Some(i + 1),
            None => None,
        }
    }
}

/// Render host: the central controller and the renderer registry.
pub struct Render {
    controller: RenderController,
    renderers: Vec<Entry>,
    next_token: u64,
}

impl Render {
    /// Tokens are handed out in increasing order and never reused.
    #[verifier::type_invariant]
    closed spec fn tokens_ordered(&self) -> bool {
        &&& forall|i: int, j: int|
            0 <= i < j < self.renderers@.len() ==> self.renderers@[i].token.0
                < self.renderers@[j].token.0
        &&& forall|i: int| 0 <= i < self.renderers@.len() ==> self.renderers@[i].token.0 < self.next_token
    }

    /// The registered renderers' tokens, in registration order.
    pub closed spec fn tokens(&self) -> Seq<u64> {
        self.renderers@.map_values(|e: Entry| e.token.0)
    }

    /// How each registered renderer asked to be driven, in the same order.
    pub closed spec fn activities(&self) -> Seq<Activity> {
        self.renderers@.map_values(|e: Entry| e.activity)
    }

    /// The slots each registered renderer subscribes to, in the same order.
    pub closed spec fn subscriptions(&self) -> Seq<Seq<Slot>> {
        entry_subs(self.renderers@)
    }

    /// Every appearance each registered renderer has been handed, in the
    /// same order.
    pub closed spec fn logs(&self) -> Seq<Seq<(SlotAppearance, u32)>> {
        entry_logs(self.renderers@)
    }

    /// The token the next registration gets.
    pub closed spec fn next_token(&self) -> u64 {
        self.next_token
    }

    /// The state the surface was last synced to.
    pub closed spec fn last_synced(&self) -> Option<DeviceState> {
        self.controller.last_synced()
    }

    pub fn new() -> (r: Self)
        ensures
            r.tokens() == Seq::<u64>::empty(),
            r.activities() == Seq::<Activity>::empty(),
            r.subscriptions() == Seq::<Seq<Slot>>::empty(),
            r.logs() == Seq::<Seq<(SlotAppearance, u32)>>::empty(),
            r.next_token() == 0,
            r.last_synced() is None,
    {
        let r = Render { controller: RenderController::new(), renderers: Vec::new(), next_token: 0 };
        assert(r.tokens() =~= Seq::<u64>::empty());
        assert(r.activities() =~= Seq::<Activity>::empty());
        assert(r.subscriptions() =~= Seq::<Seq<Slot>>::empty());
        assert(r.logs() =~= Seq::<Seq<(SlotAppearance, u32)>>::empty());
        r
    }

    /// The token the next registration gets.
    pub fn peek_token(&self) -> (t: u64)
        ensures
            t == self.next_token(),
    {
        self.next_token
    }

    /// Register a renderer and catch it up with the surface: every slot it
    /// subscribes to that has an appearance is synced in one shot.
    pub fn register(&mut self, renderer: Box<dyn Renderer>, now_ms: u32) -> (token: RenderToken)
        requires
            old(self).next_token() < u64::MAX,
        ensures
            token.0 == old(self).next_token(),
            !old(self).tokens().contains(token.0),
            final(self).next_token() == old(self).next_token() + 1,
            final(self).tokens() == old(self).tokens().push(token.0),
            final(self).activities().len() == old(self).activities().len() + 1,
            final(self).activities().drop_last() == old(self).activities(),
            final(self).subscriptions().len() == old(self).subscriptions().len() + 1,
            final(self).subscriptions().drop_last() == old(self).subscriptions(),
            final(self).logs().len() == old(self).logs().len() + 1,
            final(self).logs().drop_last() == old(self).logs(),
            final(self).last_synced() == old(self).last_synced(),
    {
        proof {
            use_type_invariant(&*self);
            if self.tokens().contains(self.next_token) {
                let k = choose|k: int| 0 <= k < self.tokens().len() && self.tokens()[k] == self.next_token;
                assert(self.renderers@[k].token.0 < self.next_token);
            }
        }
        let token = RenderToken(self.next_token);
        let mut entry = Entry { token, activity: Activity::Idle, renderer };
        let slots = copy_slots(entry.renderer.slots());
        let mut i: usize = 0;
        while i < slots.len()
            invariant
                i <= slots@.len(),
                entry.token == token,
                self.controller == old(self).controller,
                self.renderers == old(self).renderers,
                self.next_token == old(self).next_token,
            decreases slots@.len() - i,
        {
            match self.controller.current(slots[i]) {
                Some(appearance) => {
                    entry.activity = entry.renderer.on_appearance(appearance, now_ms);
                },
                None => {},
            }
            i += 1;
        }
        let ghost before = self.renderers@;
        let mut renderers: Vec<Entry> = Vec::new();
        std::mem::swap(&mut renderers, &mut self.renderers);
        renderers.push(entry);
        self.next_token = self.next_token + 1;
        self.renderers = renderers;
        proof {
            assert(self.renderers@ == before.push(entry));
            assert(self.tokens() =~= old(self).tokens().push(token.0));
            assert(self.activities().drop_last() =~= old(self).activities());
            assert(self.subscriptions() =~= old(self).subscriptions().push(entry.renderer.subscription()));
            assert(self.logs() =~= old(self).logs().push(entry.renderer.received()));
        }
        token
    }

    /// One frame: reconcile `state` against the controller, hand every
    /// changed appearance to the renderers subscribed to its slot, then
    /// step those that animate. Returns whether any renderer still animates.
    pub fn tick(&mut self, state: &DeviceState, now_ms: u32) -> (animating: bool)
        ensures
            final(self).tokens() == old(self).tokens(),
            final(self).next_token() == old(self).next_token(),
            final(self).last_synced() == (if old(self).last_synced() != Some(*state) {
                Some(*state)
            } else {
                old(self).last_synced()
            }),
            animating == final(self).activities().contains(Activity::TimeDriven),
            final(self).subscriptions() == old(self).subscriptions(),
            final(self).logs().len() == old(self).logs().len(),
            forall|i: int|
                0 <= i < old(self).logs().len() ==> #[trigger] final(self).logs()[i] == old(self).logs()[i]
                    + deliveries(old(self).subscriptions()[i], emitted(old(self).last_synced(), *state), now_ms),
    {
        proof {
            use_type_invariant(&*self);
        }
        let ghost subs0 = self.subscriptions();
        let ghost logs0 = self.logs();
        let ghost last0 = self.last_synced();
        let mut changed: Vec<SlotAppearance> = Vec::new();
        let mut controller = RenderController::new();
        std::mem::swap(&mut controller, &mut self.controller);
        controller.reconcile(state, &mut changed);
        self.controller = controller;
        let mut entries: Vec<Entry> = Vec::new();
        std::mem::swap(&mut entries, &mut self.renderers);
        let ghost tokens = entry_tokens(entries@);
        assert(changed@ == emitted(last0, *state)) by {
            assert(Seq::<SlotAppearance>::empty() + emitted(last0, *state) =~= emitted(last0, *state));
        }
        let mut k: usize = 0;
        proof {
            assert forall|i: int| 0 <= i < logs0.len() implies #[trigger] entry_logs(entries@)[i] == logs0[i]
                + deliveries(subs0[i], changed@.take(0), now_ms) by {
                assert(changed@.take(0).len() == 0);
                assert(logs0[i] + Seq::<(SlotAppearance, u32)>::empty() =~= logs0[i]);
            }
        }
        while k < changed.len()
            invariant
                k <= changed@.len(),
                entry_tokens(entries@) == tokens,
                entry_subs(entries@) == subs0,
                entry_logs(entries@).len() == logs0.len(),
                logs0.len() == subs0.len(),
                forall|i: int|
                    0 <= i < logs0.len() ==> #[trigger] entry_logs(entries@)[i] == logs0[i] + deliveries(
                        subs0[i],
                        changed@.take(k as int),
                        now_ms,
                    ),
            decreases changed@.len() - k,
        {
            let appearance = changed[k];
            let ghost before = entries@;
            entries = deliver(entries, appearance, now_ms);
            proof {
                let t = changed@.take(k + 1);
                assert(t.drop_last() =~= changed@.take(k as int));
                assert(t.last() == appearance);
                assert forall|i: int| 0 <= i < logs0.len() implies #[trigger] entry_logs(entries@)[i] == logs0[i]
                    + deliveries(subs0[i], t, now_ms) by {
                    assert(entry_logs(entries@)[i] == delivered_logs(before, appearance, now_ms)[i]);
                    assert(entry_subs(before)[i] == subs0[i]);
                    assert(entry_logs(before)[i] == logs0[i] + deliveries(subs0[i], changed@.take(k as int), now_ms));
                    let d = deliveries(subs0[i], changed@.take(k as int), now_ms);
                    let one = delivery(subs0[i], appearance, now_ms);
                    assert(logs0[i] + d + one =~= logs0[i] + (d + one));
                }
            }
            k += 1;
        }
        assert(changed@.take(k as int) =~= changed@);
        let ghost delivered = entries@;
        let (entries, any) = step_all(entries, now_ms);
        proof {
            lemma_tokens_ordered_carry(old(self).renderers@, entries@, self.next_token);
        }
        self.renderers = entries;
        proof {
            assert(self.tokens() =~= entry_tokens(self.renderers@));
            assert(old(self).tokens() =~= entry_tokens(old(self).renderers@));
            assert(self.activities() =~= entry_activities(self.renderers@));
            assert(self.subscriptions() =~= subs0);
        }
        any
    }

    /// Drop the renderer registered under `token`; unknown tokens are
    /// ignored.
    pub fn unregister(&mut self, token: RenderToken)
        ensures
            match first_index(old(self).tokens(), token.0) {
                Some(i) => {
                    &&& final(self).tokens() == old(self).tokens().remove(i)
                    &&& final(self).activities() == old(self).activities().remove(i)
                    &&& final(self).subscriptions() == old(self).subscriptions().remove(i)
                    &&& final(self).logs() == old(self).logs().remove(i)
                },
                None => {
                    &&& final(self).tokens() == old(self).tokens()
                    &&& final(self).activities() == old(self).activities()
                    &&& final(self).subscriptions() == old(self).subscriptions()
                    &&& final(self).logs() == old(self).logs()
                },
            },
            !final(self).tokens().contains(token.0),
            final(self).next_token() == old(self).next_token(),
            final(self).last_synced() == old(self).last_synced(),
    {
        proof {
            use_type_invariant(&*self);
        }
        let mut i: usize = 0;
        while i < self.renderers.len()
            invariant
                i <= self.renderers@.len(),
                self.renderers@ == old(self).renderers@,
                self.next_token == old(self).next_token,
                self.controller == old(self).controller,
                forall|a: int, b: int|
                    0 <= a < b < self.renderers@.len() ==> self.renderers@[a].token.0
                        < self.renderers@[b].token.0,
                forall|a: int| 0 <= a < self.renderers@.len() ==> self.renderers@[a].token.0 < self.next_token,
                forall|j: int| 0 <= j < i ==> self.renderers@[j].token.0 != token.0,
            decreases self.renderers@.len() - i,
        {
            if self.renderers[i].token == token {
                proof {
                    lemma_first_index_at(self.tokens(), token.0, i as int);
                }
                let ghost before = self.renderers@;
                let mut renderers: Vec<Entry> = Vec::new();
                std::mem::swap(&mut renderers, &mut self.renderers);
                let _gone = renderers.remove(i);
                proof {
                    assert forall|a: int, b: int|
                        0 <= a < b < renderers@.len() implies renderers@[a].token.0 < renderers@[b].token.0 by {
                        let a2 = if a < i { a } else { a + 1 };
                        let b2 = if b < i { b } else { b + 1 };
                        assert(renderers@[a] == before[a2]);
                        assert(renderers@[b] == before[b2]);
                    }
                    assert forall|a: int| 0 <= a < renderers@.len() implies renderers@[a].token.0 < self.next_token by {
                        let a2 = if a < i { a } else { a + 1 };
                        assert(renderers@[a] == before[a2]);
                    }
                }
                self.renderers = renderers;
                proof {
                    assert(self.tokens() =~= old(self).tokens().remove(i as int));
                    assert(self.activities() =~= old(self).activities().remove(i as int));
                    assert(self.subscriptions() =~= old(self).subscriptions().remove(i as int));
                    assert(self.logs() =~= old(self).logs().remove(i as int));
                    assert forall|j: int| 0 <= j < self.renderers@.len() implies self.renderers@[j].token.0 != token.0 by {
                        if j >= i {
                            assert(self.renderers@[j] == before[j + 1]);
                            assert(before[i as int].token.0 < before[j + 1].token.0);
                        } else {
                            assert(self.renderers@[j] == before[j]);
                        }
                    }
                }
                return;
            }
            i += 1;
        }
        proof {
            lemma_first_index_absent(self.tokens(), token.0);
        }
    }
}

impl Default for Render {
    fn default() -> (r: Self)
        ensures
            r.tokens() == Seq::<u64>::empty(),
            r.activities() == Seq::<Activity>::empty(),
            r.subscriptions() == Seq::<Seq<Slot>>::empty(),
            r.logs() == Seq::<Seq<(SlotAppearance, u32)>>::empty(),
            r.next_token() == 0,
            r.last_synced() is None,
    {
        Render::new()
    }
}

proof fn lemma_first_index_at(tokens: Seq<u64>, t: u64, i: int)
    requires
        0 <= i < tokens.len(),
        tokens[i] == t,
        forall|j: int| 0 <= j < i ==> tokens[j] != t,
    ensures
        first_index(tokens, t) == Some(i),
    decreases i,
{
    if i > 0 {
        lemma_first_index_at(tokens.drop_first(), t, i - 1);
    }
}

proof fn lemma_first_index_absent(tokens: Seq<u64>, t: u64)
    requires
        forall|j: int| 0 <= j < tokens.len() ==> tokens[j] != t,
    ensures
        first_index(tokens, t) is None,
    decreases tokens.len(),
{
    if tokens.len() > 0 {
        lemma_first_index_absent(tokens.drop_first(), t);
    }
}

/// The slots a renderer subscribes to, copied out.
fn copy_slots(slots: &[Slot]) -> (v: Vec<Slot>)
    ensures
        v@ == slots@,
{
    let mut v: Vec<Slot> = Vec::new();
    let mut i: usize = 0;
    while i < slots.len()
        invariant
            i <= slots@.len(),
            v@ == slots@.take(i as int),
        decreases slots@.len() - i,
    {
        v.push(slots[i]);
        i += 1;
    }
    assert(slots@.take(i as int) =~= slots@);
    v
}


spec fn entry_tokens(v: Seq<Entry>) -> Seq<u64> {
    v.map_values(|e: Entry| e.token.0)
}

spec fn entry_activities(v: Seq<Entry>) -> Seq<Activity> {
    v.map_values(|e: Entry| e.activity)
}

spec fn entry_subs(v: Seq<Entry>) -> Seq<Seq<Slot>> {
    v.map_values(|e: Entry| e.renderer.subscription())
}

spec fn entry_logs(v: Seq<Entry>) -> Seq<Seq<(SlotAppearance, u32)>> {
    v.map_values(|e: Entry| e.renderer.received())
}

/// Each entry's log after one appearance went round.
spec fn delivered_logs(v: Seq<Entry>, a: SlotAppearance, now_ms: u32) -> Seq<Seq<(SlotAppearance, u32)>> {
    v.map_values(|e: Entry| e.renderer.received() + delivery(e.renderer.subscription(), a, now_ms))
}

/// Entries with the same tokens in the same order keep them ordered.
proof fn lemma_tokens_ordered_carry(before: Seq<Entry>, after: Seq<Entry>, next: u64)
    requires
        entry_tokens(after) == entry_tokens(before),
        forall|i: int, j: int| 0 <= i < j < before.len() ==> before[i].token.0 < before[j].token.0,
        forall|i: int| 0 <= i < before.len() ==> before[i].token.0 < next,
    ensures
        forall|i: int, j: int| 0 <= i < j < after.len() ==> after[i].token.0 < after[j].token.0,
        forall|i: int| 0 <= i < after.len() ==> after[i].token.0 < next,
{
    assert(after.len() == entry_tokens(after).len());
    assert(before.len() == entry_tokens(before).len());
    assert forall|i: int| 0 <= i < after.len() implies after[i].token.0 == before[i].token.0 by {
        assert(entry_tokens(after)[i] == after[i].token.0);
        assert(entry_tokens(before)[i] == before[i].token.0);
    }
}

/// Whether a renderer subscribes to `slot`.
fn subscribes(slots: &[Slot], slot: Slot) -> (r: bool)
    ensures
        r == slots@.contains(slot),
{
    let mut i: usize = 0;
    while i < slots.len()
        invariant
            i <= slots@.len(),
            forall|j: int| 0 <= j < i ==> slots@[j] != slot,
        decreases slots@.len() - i,
    {
        if slots[i] == slot {
            return true;
        }
        i += 1;
    }
    false
}

/// Hand one appearance to every entry subscribed to its slot.
fn deliver(entries: Vec<Entry>, appearance: SlotAppearance, now_ms: u32) -> (r: Vec<Entry>)
    ensures
        entry_tokens(r@) == entry_tokens(entries@),
        entry_subs(r@) == entry_subs(entries@),
        entry_logs(r@) == delivered_logs(entries@, appearance, now_ms),
{
    let slot = appearance.slot();
    let mut rest = entries;
    let mut out: Vec<Entry> = Vec::new();
    let ghost all = entry_tokens(rest@);
    let ghost all_subs = entry_subs(rest@);
    let ghost target = delivered_logs(rest@, appearance, now_ms);
    assert(entry_tokens(out@) + entry_tokens(rest@) =~= all);
    assert(entry_subs(out@) + entry_subs(rest@) =~= all_subs);
    assert(entry_logs(out@) + delivered_logs(rest@, appearance, now_ms) =~= target);
    while rest.len() > 0
        invariant
            entry_tokens(out@) + entry_tokens(rest@) == all,
            entry_subs(out@) + entry_subs(rest@) == all_subs,
            entry_logs(out@) + delivered_logs(rest@, appearance, now_ms) == target,
            slot == slot_of_appearance(appearance),
        decreases rest@.len(),
    {
        let ghost before_rest = rest@;
        let ghost before_out = out@;
        let mut entry = rest.remove(0);
        let ghost first = entry.renderer.received();
        if subscribes(entry.renderer.slots(), slot) {
            entry.activity = entry.renderer.on_appearance(appearance, now_ms);
            proof {
                assert(first.push((appearance, now_ms)) =~= first + seq![(appearance, now_ms)]);
            }
        } else {
            proof {
                assert(first =~= first + Seq::<(SlotAppearance, u32)>::empty());
            }
        }
        proof {
            assert(entry.token == before_rest[0].token);
            assert(entry.renderer.subscription() == before_rest[0].renderer.subscription());
            assert(entry.renderer.received() == delivered_logs(before_rest, appearance, now_ms)[0]);
        }
        out.push(entry);
        proof {
            assert(entry_tokens(out@) =~= entry_tokens(before_out).push(entry.token.0));
            assert(entry_tokens(before_rest) =~= seq![entry.token.0] + entry_tokens(rest@));
            assert(entry_tokens(out@) + entry_tokens(rest@) =~= entry_tokens(before_out) + entry_tokens(before_rest));
            assert(entry_subs(out@) =~= entry_subs(before_out).push(entry.renderer.subscription()));
            assert(entry_subs(before_rest) =~= seq![entry.renderer.subscription()] + entry_subs(rest@));
            assert(entry_subs(out@) + entry_subs(rest@) =~= entry_subs(before_out) + entry_subs(before_rest));
            assert(entry_logs(out@) =~= entry_logs(before_out).push(entry.renderer.received()));
            assert(delivered_logs(before_rest, appearance, now_ms) =~= seq![entry.renderer.received()]
                + delivered_logs(rest@, appearance, now_ms));
            assert(entry_logs(out@) + delivered_logs(rest@, appearance, now_ms) =~= entry_logs(before_out)
                + delivered_logs(before_rest, appearance, now_ms));
        }
    }
    assert(entry_tokens(rest@) =~= Seq::<u64>::empty());
    assert(entry_tokens(out@) + Seq::<u64>::empty() =~= entry_tokens(out@));
    assert(entry_subs(out@) + Seq::<Seq<Slot>>::empty() =~= entry_subs(out@));
    assert(entry_logs(out@) + Seq::<Seq<(SlotAppearance, u32)>>::empty() =~= entry_logs(out@));
    assert(entry_subs(rest@) =~= Seq::<Seq<Slot>>::empty());
    assert(delivered_logs(rest@, appearance, now_ms) =~= Seq::<Seq<(SlotAppearance, u32)>>::empty());
    out
}

/// Step every animating entry once; reports whether any still animates.
fn step_all(entries: Vec<Entry>, now_ms: u32) -> (r: (Vec<Entry>, bool))
    ensures
        entry_tokens(r.0@) == entry_tokens(entries@),
        entry_subs(r.0@) == entry_subs(entries@),
        entry_logs(r.0@) == entry_logs(entries@),
        r.1 == entry_activities(r.0@).contains(Activity::TimeDriven),
{
    let mut rest = entries;
    let mut out: Vec<Entry> = Vec::new();
    let mut any = false;
    let ghost all = entry_tokens(rest@);
    let ghost all_subs = entry_subs(rest@);
    let ghost all_logs = entry_logs(rest@);
    assert(entry_subs(out@) + entry_subs(rest@) =~= all_subs);
    assert(entry_logs(out@) + entry_logs(rest@) =~= all_logs);
    while rest.len() > 0
        invariant
            entry_tokens(out@) + entry_tokens(rest@) == all,
            entry_subs(out@) + entry_subs(rest@) == all_subs,
            entry_logs(out@) + entry_logs(rest@) == all_logs,
            any == entry_activities(out@).contains(Activity::TimeDriven),
        decreases rest@.len(),
    {
        let ghost before_rest = rest@;
        let ghost before_out = out@;
        let mut entry = rest.remove(0);
        if entry.activity == Activity::TimeDriven {
            entry.activity = entry.renderer.step(now_ms);
        }
        if entry.activity == Activity::TimeDriven {
            any = true;
        }
        proof {
            assert(entry.token == before_rest[0].token);
        }
        out.push(entry);
        proof {
            assert(entry_tokens(out@) =~= entry_tokens(before_out).push(entry.token.0));
            assert(entry_tokens(before_rest) =~= seq![entry.token.0] + entry_tokens(rest@));
            assert(entry_tokens(out@) + entry_tokens(rest@) =~= entry_tokens(before_out) + entry_tokens(before_rest));
            assert(entry_activities(out@) =~= entry_activities(before_out).push(entry.activity));
            lemma_contains_push(entry_activities(before_out), entry.activity, Activity::TimeDriven);
            assert(entry_subs(out@) =~= entry_subs(before_out).push(entry.renderer.subscription()));
            assert(entry_subs(before_rest) =~= seq![entry.renderer.subscription()] + entry_subs(rest@));
            assert(entry_subs(out@) + entry_subs(rest@) =~= entry_subs(before_out) + entry_subs(before_rest));
            assert(entry_logs(out@) =~= entry_logs(before_out).push(entry.renderer.received()));
            assert(entry_logs(before_rest) =~= seq![entry.renderer.received()] + entry_logs(rest@));
            assert(entry_logs(out@) + entry_logs(rest@) =~= entry_logs(before_out) + entry_logs(before_rest));
        }
    }
    assert(entry_tokens(rest@) =~= Seq::<u64>::empty());
    assert(entry_tokens(out@) + Seq::<u64>::empty() =~= entry_tokens(out@));
    assert(entry_subs(rest@) =~= Seq::<Seq<Slot>>::empty());
    assert(entry_subs(out@) + Seq::<Seq<Slot>>::empty() =~= entry_subs(out@));
    assert(entry_logs(rest@) =~= Seq::<Seq<(SlotAppearance, u32)>>::empty());
    assert(entry_logs(out@) + Seq::<Seq<(SlotAppearance, u32)>>::empty() =~= entry_logs(out@));
    (out, any)
}

proof fn lemma_contains_push(s: Seq<Activity>, x: Activity, v: Activity)
    ensures
        s.push(x).contains(v) == (s.contains(v) || x == v),
{
    if s.contains(v) {
        let i = choose|i: int| 0 <= i < s.len() && s[i] == v;
        assert(s.push(x)[i] == v);
    }
    if x == v {
        assert(s.push(x)[s.len() as int] == v);
    }
    if s.push(x).contains(v) {
        let i = choose|i: int| 0 <= i < s.push(x).len() && s.push(x)[i] == v;
        if i < s.len() {
            assert(s[i] == v);
        }
    }
}
} // verus!
