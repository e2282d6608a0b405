//! A table of values that are dropped once they have not been used for a while.
//!
//! Points in time and spans of time are numbers of nanoseconds; all points count
//! from the same moment.
use vstd::prelude::*;
use crate::addr::SockAddr;

verus! {

/// A value of the table, and when it was last used.
pub struct Slot<S> {
    pub value: S,
    pub last_used: u128,
}

/// More than `timeout` has passed from `last_used` to `now`.
pub open spec fn idle(last_used: u128, timeout: u128, now: u128) -> bool {
    last_used + timeout < now
}

/// Whether more than `timeout` has passed from `last_used` to `now`.
pub fn is_idle(last_used: u128, timeout: u128, now: u128) -> (b: bool)
    ensures
        b == idle(last_used, timeout, now),
        b == (now > last_used + timeout),
{
    now > last_used && now - last_used > timeout
}

/// The entries of `m` that are not idle.
pub open spec fn active_part<K, S>(m: Map<K, Slot<S>>, timeout: u128, now: u128) -> Map<K, Slot<S>> {
    Map::new(
        |k: K| m.dom().contains(k) && !idle(m[k].last_used, timeout, now),
        |k: K| m[k],
    )
}

/// `m`, with the entry of `k`, if there is one, used at `now`.
pub open spec fn touched<K, S>(m: Map<K, Slot<S>>, k: K, now: u128) -> Map<K, Slot<S>> {
    if m.dom().contains(k) {
        m.insert(k, Slot { value: m[k].value, last_used: now })
    } else {
        m
    }
}

/// What a table can be keyed by.
pub(crate) trait Key: View + Sized {
    /// Whether two keys are the same.
    fn same(&self, other: &Self) -> (b: bool)
        ensures
            b == (self@ == other@),
    ;
}

impl Key for String {
    fn same(&self, other: &Self) -> (b: bool) {
        *self == *other
    }
}

impl Key for SockAddr {
    fn same(&self, other: &Self) -> (b: bool) {
        *self == *other
    }
}

pub(crate) struct Entry<K, S> {
    key: K,
    slot: Slot<S>,
}

/// A table of values of type `S`, at most one to a key.
pub(crate) struct Table<K, S> {
    entries: Vec<Entry<K, S>>,
}

impl<K: Key, S> Table<K, S> {
    spec fn holds(self, i: int, k: K::V) -> bool {
        0 <= i < self.entries@.len() && self.entries@[i].key@ == k
    }

    /// No key occurs twice.
    pub closed spec fn wf(self) -> bool {
        forall|i: int, j: int|
            #![trigger self.entries@[i], self.entries@[j]]
            0 <= i < j < self.entries@.len() ==> self.entries@[i].key@ != self.entries@[j].key@
    }

    pub closed spec fn view(self) -> Map<K::V, Slot<S>> {
        Map::new(
            |k: K::V| exists|i: int| self.holds(i, k),
            |k: K::V| self.entries@[choose|i: int| self.holds(i, k)].slot,
        )
    }

    proof fn lemma_holds(self, i: int)
        requires
            self.wf(),
            0 <= i < self.entries@.len(),
        ensures
            self.view().dom().contains(self.entries@[i].key@),
            self.view()[self.entries@[i].key@] == self.entries@[i].slot,
    {
        let k = self.entries@[i].key@;
        assert(self.holds(i, k));
        let j = choose|j: int| self.holds(j, k);
        assert(self.holds(j, k));
        if i != j {
            assert(self.entries@[i].key@ == self.entries@[j].key@);
        }
    }

    pub fn new() -> (t: Self)
        ensures
            t.wf(),
            t.view() == Map::<K::V, Slot<S>>::empty(),
    {
        let t = Table { entries: Vec::new() };
        assert(t.view() =~= Map::<K::V, Slot<S>>::empty());
        t
    }

    fn position(&self, key: &K) -> (at: Option<usize>)
        requires
            self.wf(),
        ensures
            at is Some <==> self.view().dom().contains(key@),
            at matches Some(i) ==> self.holds(i as int, key@),
    {
        let mut i: usize = 0;
        while i < self.entries.len()
            invariant
                self.wf(),
                i <= self.entries@.len(),
                forall|j: int| 0 <= j < i ==> (#[trigger] self.entries@[j]).key@ != key@,
            decreases self.entries@.len() - i,
        {
            if self.entries[i].key.same(key) {
                assert(self.holds(i as int, key@));
                return Some(i);
            }
            i += 1;
        }
        None
    }

    /// The value of `key`.
    pub fn get(&self, key: &K) -> (value: Option<&S>)
        requires
            self.wf(),
        ensures
            value is Some <==> self.view().dom().contains(key@),
            value matches Some(v) ==> *v == self.view()[key@].value,
    {
        match self.position(key) {
            Some(i) => {
                proof {
                    self.lemma_holds(i as int);
                }
                Some(&self.entries[i].slot.value)
            },
            None => None,
        }
    }

    /// Marks the value of `key`, if there is one, as used at `now`; says whether
    /// there is one.
    pub fn touch(&mut self, key: &K, now: u128) -> (found: bool)
        requires
            old(self).wf(),
        ensures
            final(self).wf(),
            found == old(self).view().dom().contains(key@),
            final(self).view() == touched(old(self).view(), key@, now),
    {
        match self.position(key) {
            Some(i) => {
                let ghost before = *self;
                self.entries[i].slot.last_used = now;
                proof {
                    before.lemma_holds(i as int);
                    self.lemma_replaced(before, i as int, self.entries@[i as int].slot);
                }
                true
            },
            None => false,
        }
    }

    /// Gives `key` the value `value`, used at `now`, in place of the value that
    /// it had.
    pub fn insert(&mut self, key: K, value: S, now: u128)
        requires
            old(self).wf(),
        ensures
            final(self).wf(),
            final(self).view() == old(self).view().insert(key@, Slot { value, last_used: now }),
    {
        let ghost before = *self;
        match self.position(&key) {
            Some(i) => {
                self.entries[i].slot = Slot { value, last_used: now };
                proof {
                    self.lemma_replaced(before, i as int, self.entries@[i as int].slot);
                }
            },
            None => {
                let entry = Entry { key, slot: Slot { value, last_used: now } };
                self.entries.push(entry);
                proof {
                    assert forall|i: int, j: int|
                        #![trigger self.entries@[i], self.entries@[j]]
                        0 <= i < j < self.entries@.len() implies self.entries@[i].key@
                        != self.entries@[j].key@ by {
                        assert(self.entries@[i] == before.entries@[i]);
                        before.lemma_holds(i);
                        if j < before.entries@.len() {
                            assert(self.entries@[j] == before.entries@[j]);
                        }
                    }
                    let expected = before.view().insert(key@, Slot { value, last_used: now });
                    let n = before.entries@.len() as int;
                    self.lemma_holds(n);
                    assert forall|k: K::V| #[trigger] self.view().dom().contains(k) implies
                        expected.dom().contains(k) && self.view()[k] == expected[k] by {
                        let i = choose|i: int| self.holds(i, k);
                        self.lemma_holds(i);
                        if i < n {
                            assert(self.entries@[i] == before.entries@[i]);
                            before.lemma_holds(i);
                        }
                    }
                    assert forall|k: K::V| #[trigger] expected.dom().contains(k) implies
                        self.view().dom().contains(k) by {
                        if k != key@ {
                            let i = choose|i: int| before.holds(i, k);
                            assert(self.entries@[i] == before.entries@[i]);
                            assert(self.holds(i, k));
                        }
                    }
                    assert(self.view().dom() =~= expected.dom());
                    assert(self.view() =~= expected);
                }
            },
        }
    }

    proof fn lemma_replaced(self, before: Self, at: int, slot: Slot<S>)
        requires
            before.wf(),
            0 <= at < before.entries@.len(),
            self.entries@ == before.entries@.update(
                at,
                Entry { key: before.entries@[at].key, slot },
            ),
        ensures
            self.wf(),
            self.view() == before.view().insert(before.entries@[at].key@, slot),
    {
        assert forall|i: int| 0 <= i < self.entries@.len() implies (#[trigger] self.entries@[i]).key
            == before.entries@[i].key by {}
        let expected = before.view().insert(before.entries@[at].key@, slot);
        self.lemma_holds(at);
        before.lemma_holds(at);
        assert forall|k: K::V| #[trigger] self.view().dom().contains(k) implies expected.dom().contains(k)
            && self.view()[k] == expected[k] by {
            let i = choose|i: int| self.holds(i, k);
            self.lemma_holds(i);
            before.lemma_holds(i);
        }
        assert forall|k: K::V| #[trigger] expected.dom().contains(k) implies self.view().dom().contains(k) by {
            let i = choose|i: int| before.holds(i, k);
            assert(before.holds(i, k));
            assert(self.holds(i, k));
        }
        assert(self.view().dom() =~= expected.dom());
        assert(self.view() =~= expected);
    }

    /// Drops the entry at `at`, and moves the last one into its place.
    fn drop_at(&mut self, at: usize)
        requires
            old(self).wf(),
            at < old(self).entries@.len(),
        ensures
            final(self).wf(),
            final(self).entries@ == old(self).entries@.update(
                at as int,
                old(self).entries@.last(),
            ).drop_last(),
            final(self).view() == old(self).view().remove(old(self).entries@[at as int].key@),
    {
        let ghost before = *self;
        let ghost n = self.entries@.len() as int;
        let _ = self.entries.swap_remove(at);
        proof {
            assert forall|i: int| 0 <= i < n - 1 implies #[trigger] self.entries@[i] == (if i == at {
                before.entries@[n - 1]
            } else {
                before.entries@[i]
            }) by {}
            assert forall|i: int, j: int|
                #![trigger self.entries@[i], self.entries@[j]]
                0 <= i < j < self.entries@.len() implies self.entries@[i].key@
                != self.entries@[j].key@ by {
                let a = if i == at { n - 1 } else { i };
                let b = if j == at { n - 1 } else { j };
                assert(before.entries@[a].key@ != before.entries@[b].key@);
            }
            let expected = before.view().remove(before.entries@[at as int].key@);
            assert forall|k: K::V| #[trigger] self.view().dom().contains(k) implies expected.dom().contains(k)
                && self.view()[k] == expected[k] by {
                let i = choose|i: int| self.holds(i, k);
                self.lemma_holds(i);
                let a = if i == at { n - 1 } else { i };
                before.lemma_holds(a);
                assert(before.entries@[a].key@ != before.entries@[at as int].key@);
            }
            assert forall|k: K::V| #[trigger] expected.dom().contains(k) implies self.view().dom().contains(
                k,
            ) by {
                let a = choose|a: int| before.holds(a, k);
                assert(before.holds(a, k));
                let i = if a == n - 1 { at as int } else { a };
                assert(self.holds(i, k));
            }
            assert(self.view().dom() =~= expected.dom());
            assert(self.view() =~= expected);
        }
    }

    /// Drops the value of `key`, if there is one.
    pub fn remove(&mut self, key: &K)
        requires
            old(self).wf(),
        ensures
            final(self).wf(),
            final(self).view() == old(self).view().remove(key@),
    {
        match self.position(key) {
            Some(i) => {
                self.drop_at(i);
            },
            None => {
                assert(self.view().remove(key@) =~= self.view());
            },
        }
    }

    /// Drops the values that are idle at `now`.
    pub fn retain_active(&mut self, timeout: u128, now: u128)
        requires
            old(self).wf(),
        ensures
            final(self).wf(),
            final(self).view() == active_part(old(self).view(), timeout, now),
    {
        let ghost all = self.view();
        let mut i: usize = 0;
        while i < self.entries.len()
            invariant
                self.wf(),
                i <= self.entries@.len(),
                self.view().submap_of(all),
                forall|k: K::V| #[trigger]
                    all.dom().contains(k) && !self.view().dom().contains(k) ==> idle(
                        all[k].last_used,
                        timeout,
                        now,
                    ),
                forall|j: int|
                    0 <= j < i ==> !idle((#[trigger] self.entries@[j]).slot.last_used, timeout, now),
            decreases self.entries@.len() - i,
        {
            proof {
                self.lemma_holds(i as int);
            }
            if is_idle(self.entries[i].slot.last_used, timeout, now) {
                self.drop_at(i);
            } else {
                i += 1;
            }
        }
        proof {
            let expected = active_part(all, timeout, now);
            assert forall|k: K::V| #[trigger] self.view().dom().contains(k) implies expected.dom().contains(k)
                && self.view()[k] == expected[k] by {
                let j = choose|j: int| self.holds(j, k);
                self.lemma_holds(j);
            }
            assert(self.view().dom() =~= expected.dom());
            assert(self.view() =~= expected);
        }
    }
}

/// A value is idle exactly when the time since its last use, which is none if
/// that lies ahead of `now`, is more than the timeout.
pub proof fn law_idle_by_elapsed(last_used: u128, timeout: u128, now: u128)
    ensures
        idle(last_used, timeout, now) <==> (if now > last_used {
            now - last_used
        } else {
            0
        }) > timeout,
{
}

/// A use keeps a value for the length of the timeout: a cleanup that comes no
/// later leaves it in place.
pub proof fn law_used_survives_cleanup<K, S>(
    m: Map<K, Slot<S>>,
    k: K,
    timeout: u128,
    used: u128,
    cleanup: u128,
)
    requires
        m.dom().contains(k),
        cleanup <= used + timeout,
    ensures
        active_part(touched(m, k, used), timeout, cleanup).dom().contains(k),
        active_part(touched(m, k, used), timeout, cleanup)[k].value == m[k].value,
{
}

/// A cleanup adds nothing and changes no value that it leaves.
pub proof fn law_cleanup_only_drops<K, S>(m: Map<K, Slot<S>>, timeout: u128, now: u128)
    ensures
        active_part(m, timeout, now).submap_of(m),
{
}

/// Cleaning up on the way changes nothing about what a later cleanup leaves.
/// With `first == second`: a second cleanup at the same time does nothing.
pub proof fn law_cleanup_twice<K, S>(
    m: Map<K, Slot<S>>,
    timeout: u128,
    first: u128,
    second: u128,
)
    requires
        first <= second,
    ensures
        active_part(active_part(m, timeout, first), timeout, second) == active_part(
            m,
            timeout,
            second,
        ),
{
    assert(active_part(active_part(m, timeout, first), timeout, second) =~= active_part(
        m,
        timeout,
        second,
    ));
}

/// A use changes no value, adds none and drops none, and leaves the other
/// entries as they are.
pub proof fn law_use_keeps_values<K, S>(m: Map<K, Slot<S>>, k: K, now: u128)
    ensures
        touched(m, k, now).dom() == m.dom(),
        forall|other: K| #[trigger]
            m.dom().contains(other) ==> touched(m, k, now)[other].value == m[other].value && (other
                != k ==> touched(m, k, now)[other] == m[other]),
{
    assert(touched(m, k, now).dom() =~= m.dom());
}

/// What was put in for a key is what is found for it from then on, whenever it
/// is looked up, until it is replaced or dropped; the other keys are not
/// affected.
pub proof fn law_put_then_found<K, S>(m: Map<K, Slot<S>>, k: K, value: S, put: u128, used: u128)
    ensures
        ({
            let after = touched(m.insert(k, Slot { value, last_used: put }), k, used);
            &&& after.dom().contains(k)
            &&& after[k] == Slot { value, last_used: used }
            &&& forall|other: K| #![trigger after.dom().contains(other)]
                other != k ==> (after.dom().contains(other) <==> m.dom().contains(other))
                    && after[other] == m[other]
        }),
{
}

/// What changes the contents of a table.
pub enum Step<K, S> {
    /// The idle values are dropped.
    Cleanup { now: u128 },
    /// The value of the key is used.
    Use { key: K, now: u128 },
    /// The key is given a value.
    Put { key: K, value: S, now: u128 },
    /// The value of the key is dropped.
    Drop { key: K },
}

/// The contents after one step.
pub open spec fn after<K, S>(m: Map<K, Slot<S>>, timeout: u128, step: Step<K, S>) -> Map<K, Slot<S>> {
    match step {
        Step::Cleanup { now } => active_part(m, timeout, now),
        Step::Use { key, now } => touched(m, key, now),
        Step::Put { key, value, now } => m.insert(key, Slot { value, last_used: now }),
        Step::Drop { key } => m.remove(key),
    }
}

/// The contents after the steps, in their order.
pub open spec fn run<K, S>(m: Map<K, Slot<S>>, timeout: u128, steps: Seq<Step<K, S>>) -> Map<
    K,
    Slot<S>,
>
    decreases steps.len(),
{
    if steps.len() == 0 {
        m
    } else {
        after(run(m, timeout, steps.drop_last()), timeout, steps.last())
    }
}

/// The step neither replaces nor drops the value of `k`, is no cleanup after
/// `until`, and does not put the last use of the value before `since`.
pub open spec fn spares<K, S>(step: Step<K, S>, k: K, since: u128, until: int) -> bool {
    match step {
        Step::Cleanup { now } => now <= until,
        Step::Use { key, now } => key == k ==> since <= now,
        Step::Put { key, .. } => key != k,
        Step::Drop { key } => key != k,
    }
}

/// A value stays for the length of the timeout after any use of it, whatever
/// happens to the other keys meanwhile, unless it is replaced or dropped itself.
pub proof fn law_value_stays<K, S>(
    m: Map<K, Slot<S>>,
    timeout: u128,
    k: K,
    steps: Seq<Step<K, S>>,
)
    requires
        m.dom().contains(k),
        forall|i: int|
            #![trigger steps[i]]
            0 <= i < steps.len() ==> spares(
                steps[i],
                k,
                m[k].last_used,
                m[k].last_used + timeout,
            ),
    ensures
        run(m, timeout, steps).dom().contains(k),
        run(m, timeout, steps)[k].value == m[k].value,
        run(m, timeout, steps)[k].last_used >= m[k].last_used,
    decreases steps.len(),
{
    if steps.len() > 0 {
        let head = steps.drop_last();
        assert forall|i: int| #![trigger head[i]] 0 <= i < head.len() implies spares(
            head[i],
            k,
            m[k].last_used,
            m[k].last_used + timeout,
        ) by {
            assert(head[i] == steps[i]);
        }
        law_value_stays(m, timeout, k, head);
        assert(steps.last() == steps[steps.len() - 1]);
    }
}

/// A value that is not used again is gone after any cleanup that comes later
/// than the timeout allows, whatever happens on the way.
pub proof fn law_unused_is_dropped<K, S>(
    m: Map<K, Slot<S>>,
    timeout: u128,
    k: K,
    steps: Seq<Step<K, S>>,
    cleanup: u128,
)
    requires
        m.dom().contains(k),
        forall|i: int| #![trigger steps[i]] 0 <= i < steps.len() ==> !revives(steps[i], k),
        cleanup > m[k].last_used + timeout,
    ensures
        !run(m, timeout, steps.push(Step::Cleanup { now: cleanup })).dom().contains(k),
{
    lemma_not_revived(m, timeout, k, steps);
    assert(steps.push(Step::Cleanup { now: cleanup }).drop_last() =~= steps);
}

/// The step uses the value of `k` or gives it a new one.
pub open spec fn revives<K, S>(step: Step<K, S>, k: K) -> bool {
    match step {
        Step::Cleanup { .. } => false,
        Step::Use { key, .. } => key == k,
        Step::Put { key, .. } => key == k,
        Step::Drop { .. } => false,
    }
}

proof fn lemma_not_revived<K, S>(
    m: Map<K, Slot<S>>,
    timeout: u128,
    k: K,
    steps: Seq<Step<K, S>>,
)
    requires
        m.dom().contains(k),
        forall|i: int| #![trigger steps[i]] 0 <= i < steps.len() ==> !revives(steps[i], k),
    ensures
        run(m, timeout, steps).dom().contains(k) ==> run(m, timeout, steps)[k] == m[k],
    decreases steps.len(),
{
    if steps.len() > 0 {
        let head = steps.drop_last();
        assert forall|i: int| #![trigger head[i]] 0 <= i < head.len() implies !revives(
            head[i],
            k,
        ) by {
            assert(head[i] == steps[i]);
        }
        lemma_not_revived(m, timeout, k, head);
        assert(!revives(steps[steps.len() - 1], k));
    }
}

/// The step is no cleanup, and neither replaces nor drops the value of `k`.
pub open spec fn leaves<K, S>(step: Step<K, S>, k: K) -> bool {
    match step {
        Step::Cleanup { .. } => false,
        Step::Use { .. } => true,
        Step::Put { key, .. } => key != k,
        Step::Drop { key } => key != k,
    }
}

/// Without a cleanup a value stays however long it goes unused, and whenever it
/// is used, until it is replaced or dropped itself.
pub proof fn law_value_stays_until_cleanup<K, S>(
    m: Map<K, Slot<S>>,
    timeout: u128,
    k: K,
    steps: Seq<Step<K, S>>,
)
    requires
        m.dom().contains(k),
        forall|i: int| #![trigger steps[i]] 0 <= i < steps.len() ==> leaves(steps[i], k),
    ensures
        run(m, timeout, steps).dom().contains(k),
        run(m, timeout, steps)[k].value == m[k].value,
    decreases steps.len(),
{
    if steps.len() > 0 {
        let head = steps.drop_last();
        assert forall|i: int| #![trigger head[i]] 0 <= i < head.len() implies leaves(
            head[i],
            k,
        ) by {
            assert(head[i] == steps[i]);
        }
        law_value_stays_until_cleanup(m, timeout, k, head);
        assert(leaves(steps[steps.len() - 1], k));
    }
}

/// What is done to one key does not touch another: steps that are no cleanups
/// and name other keys leave the entry of `k`, or the lack of one, as it is.
pub proof fn law_keys_are_apart<K, S>(
    m: Map<K, Slot<S>>,
    timeout: u128,
    k: K,
    steps: Seq<Step<K, S>>,
)
    requires
        forall|i: int|
            #![trigger steps[i]]
            0 <= i < steps.len() ==> match steps[i] {
                Step::Cleanup { .. } => false,
                Step::Use { key, .. } => key != k,
                Step::Put { key, .. } => key != k,
                Step::Drop { key } => key != k,
            },
    ensures
        run(m, timeout, steps).dom().contains(k) <==> m.dom().contains(k),
        m.dom().contains(k) ==> run(m, timeout, steps)[k] == m[k],
    decreases steps.len(),
{
    if steps.len() > 0 {
        let head = steps.drop_last();
        assert forall|i: int| #![trigger head[i]] 0 <= i < head.len() implies match head[i] {
            Step::Cleanup { .. } => false,
            Step::Use { key, .. } => key != k,
            Step::Put { key, .. } => key != k,
            Step::Drop { key } => key != k,
        } by {
            assert(head[i] == steps[i]);
        }
        law_keys_are_apart(m, timeout, k, head);
        assert(steps.last() == steps[steps.len() - 1]);
    }
}

/// A cleanup leaves exactly the entries whose last use is not longer ago than the
/// timeout, as they are.
pub proof fn law_cleanup_leaves_recent<K, S>(m: Map<K, Slot<S>>, timeout: u128, now: u128, k: K)
    ensures
        active_part(m, timeout, now).dom().contains(k) <==> m.dom().contains(k) && now
            <= m[k].last_used + timeout,
        active_part(m, timeout, now).dom().contains(k) ==> active_part(m, timeout, now)[k] == m[k],
{
}

/// A use of an entry sets its time, and nothing else; a use of a key that has no
/// entry does nothing.
pub proof fn law_use_sets_time<K, S>(m: Map<K, Slot<S>>, k: K, now: u128)
    ensures
        m.dom().contains(k) ==> touched(m, k, now) == m.insert(
            k,
            Slot { value: m[k].value, last_used: now },
        ),
        !m.dom().contains(k) ==> touched(m, k, now) == m,
{
}

} // verus!
