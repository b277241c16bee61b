//! The live schedule: one item per rule with its cached next-fire instant,
//! reconciliation against the rules read back from the store, and the
//! per-tick advance that reports which items fired.
//!
//! Reconciliation only adds: an item whose rule has disappeared from the
//! store stays in the schedule for the life of the process.

use vstd::prelude::*;

use crate::instant::Instant;
use crate::instant::MAX_DAY;
use crate::notification::Notification;
use crate::notification::lemma_next_not_past;

verus! {

pub struct ScheduleItem {
    notification: Notification,
    next: Instant,
}

impl ScheduleItem {
    /// The rule the item schedules.
    pub closed spec fn spec_notification(self) -> Notification {
        self.notification
    }

    /// The cached instant at which the rule next fires.
    pub closed spec fn spec_next_fire(self) -> Instant {
        self.next
    }

    /// A well-formed item holds a validated rule and a well-formed next-fire
    /// instant at most a week past the range of clock readings.
    pub open spec fn wf(self) -> bool {
        &&& self.spec_notification().valid()
        &&& self.spec_next_fire().wf()
        &&& self.spec_next_fire().day <= MAX_DAY + 7
    }

    /// Whether the item is due at `now`: strictly past its next-fire
    /// instant.
    pub open spec fn due_at(self, now: Instant) -> bool {
        self.spec_next_fire().as_sec() < now.as_sec()
    }

    /// Builds the item for a rule, with its next-fire instant computed
    /// against `now`.
    pub fn new(notification: Notification, now: &Instant) -> (r: ScheduleItem)
        requires
            notification.valid(),
            now.wf(),
            now.in_range(),
        ensures
            r.spec_notification() == notification,
            r.spec_next_fire() == notification.spec_next(*now),
            r.wf(),
    {
        let next = match notification.next(now) {
            Ok(t) => t,
            Err(_) => vstd::pervasive::unreached(),
        };
        ScheduleItem { notification, next }
    }

    /// Fires the item if it is due at `now` — the caller dispatches on a
    /// `true` result — and recomputes its next occurrence so that the same
    /// occurrence cannot fire twice.
    pub fn advance_if_due(&mut self, now: &Instant) -> (fired: bool)
        requires
            old(self).wf(),
            now.wf(),
            now.in_range(),
        ensures
            fired == old(self).due_at(*now),
            final(self).spec_notification() == old(self).spec_notification(),
            fired ==> final(self).spec_next_fire() == old(self).spec_notification().spec_next(
                *now,
            ),
            !fired ==> *final(self) == *old(self),
            final(self).wf(),
            fired ==> now.as_sec() <= final(self).spec_next_fire().as_sec(),
    {
        if self.next.lt(now) {
            let next = match self.notification.next(now) {
                Ok(t) => t,
                Err(_) => vstd::pervasive::unreached(),
            };
            self.next = next;
            true
        } else {
            false
        }
    }

    /// The identity of the item's rule.
    pub fn get_id(&self) -> (r: usize)
        ensures
            r == self.spec_notification().spec_id(),
    {
        self.notification.get_id()
    }

    /// The item's cached next-fire instant.
    pub fn get_next(&self) -> (r: Instant)
        ensures
            r == self.spec_next_fire(),
    {
        self.next
    }

    /// The title of the item's rule.
    pub fn get_title(&self) -> (r: &str)
        ensures
            r@ == self.spec_notification().spec_title(),
    {
        self.notification.get_title()
    }

    /// The message of the item's rule.
    pub fn get_message(&self) -> (r: &str)
        ensures
            r@ == self.spec_notification().spec_message(),
    {
        self.notification.get_message()
    }
}

/// A due item fires on one advance, and the advance leaves its next-fire
/// instant at or after `now`: an item so refreshed is no longer due at
/// `now`, so a second advance there fires nothing.
pub proof fn lemma_fire_once(item: ScheduleItem, now: Instant)
    requires
        item.wf(),
        now.wf(),
        now.in_range(),
        item.due_at(now),
    ensures
        now.as_sec() <= item.spec_notification().spec_next(now).as_sec(),
        forall|refreshed: ScheduleItem|
            (#[trigger] refreshed.spec_next_fire()) == item.spec_notification().spec_next(now)
                ==> !refreshed.due_at(now),
{
    lemma_next_not_past(item.spec_notification(), now);
}

/// Every rule that reconciliation would add comes from the given rules, so
/// a set of validated rules yields only validated additions.
proof fn lemma_new_rules_valid(items: Seq<ScheduleItem>, rules: Seq<Notification>)
    requires
        forall|i: int| 0 <= i < rules.len() ==> (#[trigger] rules[i]).valid(),
    ensures
        forall|k: int|
            0 <= k < Schedule::spec_new_rules(items, rules).len() ==> (
            #[trigger] Schedule::spec_new_rules(items, rules)[k]).valid(),
    decreases rules.len(),
{
    if rules.len() > 0 {
        assert(forall|i: int|
            0 <= i < rules.drop_last().len() ==> (#[trigger] rules.drop_last()[i]).valid());
        lemma_new_rules_valid(items, rules.drop_last());
        let news = Schedule::spec_new_rules(items, rules);
        let prev = Schedule::spec_new_rules(items, rules.drop_last());
        assert forall|k: int| 0 <= k < news.len() implies (#[trigger] news[k]).valid() by {
            if k < prev.len() {
                assert(news[k] == prev[k]);
            } else {
                assert(news[k] == rules.last());
                assert(rules.last() == rules[rules.len() - 1]);
            }
        }
    }
}

/// Whether `ids` holds `id`.
fn contains_id(ids: &Vec<usize>, id: usize) -> (r: bool)
    ensures
        r == ids@.contains(id),
{
    let mut i: usize = 0;
    while i < ids.len()
        invariant
            i <= ids@.len(),
            forall|k: int| 0 <= k < i ==> #[trigger] ids@[k] != id,
        decreases ids@.len() - i,
    {
        if ids[i] == id {
            proof {
                assert(ids@.contains(id));
            }
            return true;
        }
        i = i + 1;
    }
    proof {
        assert(!ids@.contains(id));
    }
    false
}

pub struct Schedule {
    items: Vec<ScheduleItem>,
}

impl Schedule {
    /// The items, in their stable display order: load order, then order of
    /// reconciliation.
    pub closed spec fn spec_items(self) -> Seq<ScheduleItem> {
        self.items@
    }

    /// Every item of the schedule is well-formed.
    pub open spec fn wf(self) -> bool {
        forall|i: int| 0 <= i < self.spec_items().len() ==> #[trigger] self.spec_items()[i].wf()
    }

    /// Whether some item already schedules the rule with identity `id`.
    pub open spec fn has_id(items: Seq<ScheduleItem>, id: usize) -> bool {
        exists|i: int|
            0 <= i < items.len() && #[trigger] items[i].spec_notification().spec_id() == id
    }

    /// The rules of `rules`, in order, whose identities no item of `items`
    /// schedules yet: what one reconciliation adds.
    pub open spec fn spec_new_rules(items: Seq<ScheduleItem>, rules: Seq<Notification>) -> Seq<
        Notification,
    >
        decreases rules.len(),
    {
        if rules.len() == 0 {
            Seq::empty()
        } else {
            let rest = Self::spec_new_rules(items, rules.drop_last());
            if Self::has_id(items, rules.last().spec_id()) {
                rest
            } else {
                rest.push(rules.last())
            }
        }
    }

    /// Builds the schedule from the full set of rules loaded from the store,
    /// one item per rule, each with its next-fire instant computed against
    /// `now`.
    pub fn initial_schedule(rules: Vec<Notification>, now: &Instant) -> (r: Schedule)
        requires
            forall|i: int| 0 <= i < rules@.len() ==> #[trigger] rules@[i].valid(),
            now.wf(),
            now.in_range(),
        ensures
            r.wf(),
            r.spec_items().len() == rules@.len(),
            forall|i: int|
                0 <= i < rules@.len() ==> {
                    let it = #[trigger] r.spec_items()[i];
                    it.spec_notification() == rules@[i] && it.spec_next_fire()
                        == rules@[i].spec_next(*now)
                },
    {
        let ghost rules_seq = rules@;
        let mut items: Vec<ScheduleItem> = Vec::new();
        let mut rest = rules;
        while rest.len() > 0
            invariant
                now.wf(),
                now.in_range(),
                forall|i: int| 0 <= i < rules_seq.len() ==> #[trigger] rules_seq[i].valid(),
                items@.len() + rest@.len() == rules_seq.len(),
                rest@ == rules_seq.skip(items@.len() as int),
                forall|i: int|
                    0 <= i < items@.len() ==> {
                        let it = #[trigger] items@[i];
                        it.wf() && it.spec_notification() == rules_seq[i] && it.spec_next_fire()
                            == rules_seq[i].spec_next(*now)
                    },
            decreases rest@.len(),
        {
            let ghost done = items@.len() as int;
            let n = rest.remove(0);
            assert(n == rules_seq[done]);
            assert(rest@ =~= rules_seq.skip(done + 1));
            items.push(ScheduleItem::new(n, now));
        }
        Schedule { items }
    }

    /// Folds rules newly present in the store into the live schedule: one
    /// item is appended for each rule whose identity no current item
    /// schedules, in store order, its next-fire instant computed fresh
    /// against `now`. Returns the positions of the appended items, one per
    /// new rule, so the caller announces each exactly once.
    pub fn reconcile(&mut self, rules: Vec<Notification>, now: &Instant) -> (added: Vec<usize>)
        requires
            old(self).wf(),
            forall|i: int| 0 <= i < rules@.len() ==> #[trigger] rules@[i].valid(),
            now.wf(),
            now.in_range(),
        ensures
            final(self).wf(),
            ({
                let news = Self::spec_new_rules(old(self).spec_items(), rules@);
                let n0 = old(self).spec_items().len() as int;
                &&& final(self).spec_items().len() == n0 + news.len()
                &&& forall|i: int|
                    0 <= i < n0 ==> #[trigger] final(self).spec_items()[i] == old(
                        self,
                    ).spec_items()[i]
                &&& forall|k: int|
                    0 <= k < news.len() ==> ({
                        let it = #[trigger] final(self).spec_items()[n0 + k];
                        it.spec_notification() == news[k] && it.spec_next_fire()
                            == news[k].spec_next(*now)
                    })
                &&& added@.len() == news.len()
                &&& forall|k: int| 0 <= k < news.len() ==> #[trigger] added@[k] == n0 + k
            }),
    {
        let ghost items0 = self.items@;
        let ghost rules_seq = rules@;
        let mut ids: Vec<usize> = Vec::new();
        let mut i: usize = 0;
        while i < self.items.len()
            invariant
                self.items@ == items0,
                i <= items0.len(),
                ids@.len() == i as int,
                forall|k: int|
                    0 <= k < i ==> #[trigger] ids@[k] == items0[k].spec_notification().spec_id(),
            decreases items0.len() - i,
        {
            ids.push(self.items[i].get_id());
            i = i + 1;
        }
        let mut added: Vec<usize> = Vec::new();
        let mut rest = rules;
        let ghost mut done: int = 0;
        while rest.len() > 0
            invariant
                now.wf(),
                now.in_range(),
                forall|i: int| 0 <= i < rules_seq.len() ==> #[trigger] rules_seq[i].valid(),
                forall|i: int| 0 <= i < items0.len() ==> #[trigger] items0[i].wf(),
                0 <= done <= rules_seq.len(),
                rest@ == rules_seq.skip(done),
                ids@.len() == items0.len(),
                forall|k: int|
                    0 <= k < items0.len() ==> #[trigger] ids@[k]
                        == items0[k].spec_notification().spec_id(),
                ({
                    let news = Self::spec_new_rules(items0, rules_seq.take(done));
                    &&& self.items@.len() == items0.len() + news.len()
                    &&& forall|i: int|
                        0 <= i < items0.len() ==> #[trigger] self.items@[i] == items0[i]
                    &&& forall|k: int|
                        0 <= k < news.len() ==> ({
                            let it = #[trigger] self.items@[items0.len() + k];
                            it.spec_notification() == news[k] && it.spec_next_fire()
                                == news[k].spec_next(*now)
                        })
                    &&& added@.len() == news.len()
                    &&& forall|k: int|
                        0 <= k < news.len() ==> #[trigger] added@[k] == items0.len() + k
                }),
                forall|i: int| 0 <= i < self.items@.len() ==> #[trigger] self.items@[i].wf(),
            decreases rest@.len(),
        {
            proof {
                assert(rules_seq.skip(done)[0] == rules_seq[done]);
            }
            let ghost news_before = Self::spec_new_rules(items0, rules_seq.take(done));
            let n = rest.remove(0);
            proof {
                assert(n == rules_seq[done]);
                assert(rest@ =~= rules_seq.skip(done + 1));
                assert(rules_seq.take(done + 1).drop_last() =~= rules_seq.take(done));
                assert(rules_seq.take(done + 1).last() == rules_seq[done]);
            }
            let id = n.get_id();
            if !contains_id(&ids, id) {
                proof {
                    if Self::has_id(items0, id) {
                        let w = choose|w: int|
                            0 <= w < items0.len() && items0[w].spec_notification().spec_id() == id;
                        assert(ids@[w] == id);
                        assert(ids@.contains(id));
                    }
                }
                let pos = self.items.len();
                added.push(pos);
                self.items.push(ScheduleItem::new(n, now));
            } else {
                proof {
                    let w = choose|w: int| 0 <= w < ids@.len() && ids@[w] == id;
                    assert(items0[w].spec_notification().spec_id() == id);
                    assert(Self::has_id(items0, id));
                }
            }
            proof {
                done = done + 1;
            }
        }
        proof {
            assert(rules_seq.take(rules_seq.len() as int) =~= rules_seq);
        }
        added
    }

    /// One tick: reconciles against the rules re-read from the store, then
    /// advances every item in display order — so an item added this tick is
    /// still looked at in the same tick. Returns the positions of the items
    /// reconciliation appended and, in increasing order, the positions of
    /// exactly those items that fired, whose rules the caller now
    /// dispatches.
    pub fn run(&mut self, rules: Vec<Notification>, now: &Instant) -> (r: (Vec<usize>, Vec<usize>))
        requires
            old(self).wf(),
            forall|i: int| 0 <= i < rules@.len() ==> #[trigger] rules@[i].valid(),
            now.wf(),
            now.in_range(),
        ensures
            final(self).wf(),
            ({
                let news = Self::spec_new_rules(old(self).spec_items(), rules@);
                let n0 = old(self).spec_items().len() as int;
                let added = r.0;
                let fired = r.1;
                &&& final(self).spec_items().len() == n0 + news.len()
                &&& forall|i: int|
                    0 <= i < n0 ==> (#[trigger] final(self).spec_items()[i]).spec_notification()
                        == old(self).spec_items()[i].spec_notification()
                &&& forall|i: int|
                    0 <= i < n0 && old(self).spec_items()[i].due_at(*now)
                        ==> (#[trigger] final(self).spec_items()[i]).spec_next_fire() == old(
                        self,
                    ).spec_items()[i].spec_notification().spec_next(*now)
                &&& forall|i: int|
                    0 <= i < n0 && !old(self).spec_items()[i].due_at(*now)
                        ==> #[trigger] final(self).spec_items()[i] == old(self).spec_items()[i]
                &&& forall|k: int|
                    0 <= k < news.len() ==> ({
                        let it = #[trigger] final(self).spec_items()[n0 + k];
                        it.spec_notification() == news[k] && it.spec_next_fire()
                            == news[k].spec_next(*now)
                    })
                &&& added@.len() == news.len()
                &&& forall|k: int| 0 <= k < news.len() ==> #[trigger] added@[k] == n0 + k
                &&& forall|k: int|
                    0 <= k < fired@.len() ==> 0 <= #[trigger] fired@[k] < n0 && old(
                        self,
                    ).spec_items()[fired@[k] as int].due_at(*now)
                &&& forall|i: int|
                    0 <= i < n0 && (#[trigger] old(self).spec_items()[i]).due_at(*now)
                        ==> fired@.contains(i as usize)
                &&& forall|k1: int, k2: int|
                    0 <= k1 < k2 < fired@.len() ==> #[trigger] fired@[k1] < #[trigger] fired@[k2]
            }),
    {
        let ghost items0 = self.items@;
        let ghost rules_seq = rules@;
        let ghost n0 = items0.len() as int;
        let added = self.reconcile(rules, now);
        let ghost mid = self.items@;
        let ghost news = Self::spec_new_rules(items0, rules_seq);
        proof {
            lemma_new_rules_valid(items0, rules_seq);
            assert forall|j: int| n0 <= j < mid.len() implies !(#[trigger] mid[j]).due_at(
                *now,
            ) by {
                let k = j - n0;
                assert(mid[n0 + k].spec_next_fire() == news[k].spec_next(*now));
                lemma_next_not_past(news[k], *now);
            }
        }
        let mut fired: Vec<usize> = Vec::new();
        let mut i: usize = 0;
        while i < self.items.len()
            invariant
                now.wf(),
                now.in_range(),
                self.items@.len() == mid.len(),
                i <= mid.len(),
                forall|j: int| 0 <= j < mid.len() ==> (#[trigger] mid[j]).wf(),
                forall|j: int| i <= j < mid.len() ==> #[trigger] self.items@[j] == mid[j],
                forall|j: int|
                    0 <= j < i ==> (#[trigger] self.items@[j]).spec_notification()
                        == mid[j].spec_notification(),
                forall|j: int|
                    0 <= j < i && mid[j].due_at(*now) ==> (#[trigger] self.items@[j]).spec_next_fire()
                        == mid[j].spec_notification().spec_next(*now),
                forall|j: int|
                    0 <= j < i && !mid[j].due_at(*now) ==> #[trigger] self.items@[j] == mid[j],
                forall|j: int| 0 <= j < mid.len() ==> (#[trigger] self.items@[j]).wf(),
                forall|k: int|
                    0 <= k < fired@.len() ==> 0 <= #[trigger] fired@[k] < i && mid[fired@[k] as int].due_at(
                        *now,
                    ),
                forall|j: int|
                    0 <= j < i && (#[trigger] mid[j]).due_at(*now) ==> fired@.contains(j as usize),
                forall|k1: int, k2: int|
                    0 <= k1 < k2 < fired@.len() ==> #[trigger] fired@[k1] < #[trigger] fired@[k2],
            decreases mid.len() - i,
        {
            let f = self.items[i].advance_if_due(now);
            if f {
                let ghost fired0 = fired@;
                fired.push(i);
                proof {
                    assert forall|j: int|
                        0 <= j < i + 1 && (#[trigger] mid[j]).due_at(*now) implies fired@.contains(
                        j as usize,
                    ) by {
                        if j < i {
                            assert(fired0.contains(j as usize));
                            let w = choose|w: int| 0 <= w < fired0.len() && fired0[w] == (j as usize);
                            assert(fired@[w] == (j as usize));
                        } else {
                            assert(fired@[fired@.len() - 1] == (j as usize));
                        }
                    }
                }
            }
            i = i + 1;
        }
        proof {
            assert forall|j: int|
                0 <= j < n0 && (#[trigger] items0[j]).due_at(*now) implies fired@.contains(
                j as usize,
            ) by {
                assert(mid[j] == items0[j]);
                assert(mid[j].due_at(*now));
            }
        }
        (added, fired)
    }

    /// The number of scheduled items.
    pub fn len(&self) -> (r: usize)
        ensures
            r == self.spec_items().len(),
    {
        self.items.len()
    }

    /// The item at position `i` of the display order.
    pub fn get(&self, i: usize) -> (r: &ScheduleItem)
        requires
            i < self.spec_items().len(),
        ensures
            *r == self.spec_items()[i as int],
    {
        &self.items[i]
    }
}

} // verus!
