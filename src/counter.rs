//! Native counter state and the table of counters handed out to the managed
//! side as integer tokens.
//!
//! A token names a counter from `create` until `destroy`. Tokens are issued
//! in increasing order and never issued twice, so a token that was destroyed
//! stays invalid: using it again is reported as `TokenError::InvalidToken`
//! instead of touching freed state.
use std::collections::HashMap;
use vstd::prelude::*;

verus! {

broadcast use vstd::std_specs::hash::group_hash_axioms;

/// A monotonically incrementing count together with the pinned callback that
/// is notified of every new count. Dropping the counter drops the callback,
/// which releases its pin.
pub struct Counter<C> {
    count: i64,
    callback: C,
}

impl<C> Counter<C> {
    /// The current count.
    pub closed spec fn value(&self) -> i64 {
        self.count
    }

    /// The callback that this counter holds.
    pub closed spec fn handle(&self) -> C {
        self.callback
    }

    /// A counter at zero that holds `callback`.
    pub fn new(callback: C) -> (r: Self)
        ensures
            r.value() == 0,
            r.handle() == callback,
    {
        Counter { count: 0, callback }
    }

    /// Adds one to the count and returns the new count, which is the value
    /// that the held callback is to be invoked with.
    pub fn inc(&mut self) -> (r: i64)
        requires
            old(self).value() < i64::MAX,
        ensures
            r == old(self).value() + 1,
            final(self).value() == r,
            final(self).handle() == old(self).handle(),
    {
        self.count = self.count + 1;
        self.count
    }

    /// The current count.
    pub fn count(&self) -> (r: i64)
        ensures
            r == self.value(),
    {
        self.count
    }

    /// The callback that this counter holds.
    pub fn callback(&self) -> (r: &C)
        ensures
            *r == self.handle(),
    {
        &self.callback
    }

    /// Gives up the counter and hands back its callback.
    pub fn into_callback(self) -> (r: C)
        ensures
            r == self.handle(),
    {
        self.callback
    }
}

/// Why an operation on a token was refused.
#[derive(Debug, Clone, Copy, PartialEq, Eq, Structural)]
pub enum TokenError {
    /// The token does not name a live counter: it was never issued, or its
    /// counter was destroyed.
    InvalidToken,
    /// The counter already holds the largest `i64`.
    CountOverflow,
}

/// An operation that the managed side can perform on the table.
pub enum Op {
    Create,
    Increment(u64),
    Destroy(u64),
}

/// The abstract state of a counter table: the next token to issue and the
/// count of each live token.
pub struct RegistryModel {
    pub next: u64,
    pub live: Map<u64, i64>,
}

/// Every live token was issued before `next`.
pub open spec fn model_wf(m: RegistryModel) -> bool {
    forall|t: u64| #[trigger] m.live.contains_key(t) ==> t < m.next
}

/// The state after one operation.
pub open spec fn step(m: RegistryModel, op: Op) -> RegistryModel {
    match op {
        Op::Create => if m.next < u64::MAX {
            RegistryModel { next: (m.next + 1) as u64, live: m.live.insert(m.next, 0) }
        } else {
            m
        },
        Op::Increment(t) => if m.live.contains_key(t) && m.live[t] < i64::MAX {
            RegistryModel { next: m.next, live: m.live.insert(t, (m.live[t] + 1) as i64) }
        } else {
            m
        },
        Op::Destroy(t) => RegistryModel { next: m.next, live: m.live.remove(t) },
    }
}

/// The callback notification that one operation makes: a token and the value
/// that its callback is invoked with.
pub open spec fn notification(m: RegistryModel, op: Op) -> Option<(u64, i64)> {
    match op {
        Op::Increment(t) => if m.live.contains_key(t) && m.live[t] < i64::MAX {
            Some((t, (m.live[t] + 1) as i64))
        } else {
            None
        },
        _ => None,
    }
}

/// Every operation keeps the table's invariant.
pub proof fn lemma_step_wf(m: RegistryModel, op: Op)
    requires
        model_wf(m),
    ensures
        model_wf(step(m, op)),
{
    let s = step(m, op);
    assert forall|t: u64| #[trigger] s.live.contains_key(t) implies t < s.next by {
        match op {
            Op::Create => {
                if m.next < u64::MAX && t != m.next {
                    assert(m.live.contains_key(t));
                }
            },
            Op::Increment(x) => {
                assert(m.live.contains_key(t));
            },
            Op::Destroy(x) => {
                assert(m.live.contains_key(t));
            },
        }
    }
}

/// The state after a sequence of operations, applied in order.
pub open spec fn run(m: RegistryModel, ops: Seq<Op>) -> RegistryModel
    decreases ops.len(),
{
    if ops.len() == 0 {
        m
    } else {
        run(step(m, ops[0]), ops.drop_first())
    }
}

/// The notifications that a sequence of operations makes, in order.
pub open spec fn trace(m: RegistryModel, ops: Seq<Op>) -> Seq<(u64, i64)>
    decreases ops.len(),
{
    if ops.len() == 0 {
        Seq::empty()
    } else {
        let head = match notification(m, ops[0]) {
            Some(n) => seq![n],
            None => Seq::empty(),
        };
        head + trace(step(m, ops[0]), ops.drop_first())
    }
}

/// `n` increments of token `t`.
pub open spec fn increments(t: u64, n: nat) -> Seq<Op> {
    Seq::new(n, |i: int| Op::Increment(t))
}

/// Starting from a live counter at `c`, `n` increments of its token notify
/// that token with `c + 1`, ..., `c + n` in this order and leave it at `c + n`.
pub proof fn lemma_increments_count_up(m: RegistryModel, t: u64, n: nat)
    requires
        m.live.contains_key(t),
        m.live[t] + n <= i64::MAX,
    ensures
        trace(m, increments(t, n)) == Seq::new(n, |i: int| (t, (m.live[t] + i + 1) as i64)),
        run(m, increments(t, n)).live.contains_key(t),
        run(m, increments(t, n)).live[t] == m.live[t] + n,
    decreases n,
{
    if n > 0 {
        let m1 = step(m, Op::Increment(t));
        assert(increments(t, n).drop_first() =~= increments(t, (n - 1) as nat));
        lemma_increments_count_up(m1, t, (n - 1) as nat);
        assert(trace(m, increments(t, n)) =~= Seq::new(
            n,
            |i: int| (t, (m.live[t] + i + 1) as i64),
        ));
    }
}

/// A counter is created at zero, and `n` increments of its token call its
/// callback exactly `n` times, with `1, 2, ..., n` in this order.
pub proof fn lemma_fresh_counter_notifies_in_order(m: RegistryModel, n: nat)
    requires
        m.next < u64::MAX,
        n <= i64::MAX,
    ensures
        step(m, Op::Create).live.contains_key(m.next),
        step(m, Op::Create).live[m.next] == 0,
        notification(m, Op::Create) is None,
        trace(step(m, Op::Create), increments(m.next, n)) == Seq::new(
            n,
            |i: int| (m.next, (i + 1) as i64),
        ),
{
    let m1 = step(m, Op::Create);
    lemma_increments_count_up(m1, m.next, n);
    assert(Seq::new(n, |i: int| (m.next, (m1.live[m.next] + i + 1) as i64)) =~= Seq::new(
        n,
        |i: int| (m.next, (i + 1) as i64),
    ));
}

/// A token that was issued and is no longer live is never notified again and
/// never becomes live again, whatever operations follow.
pub proof fn lemma_retired_token_stays_silent(m: RegistryModel, t: u64, ops: Seq<Op>)
    requires
        model_wf(m),
        t < m.next,
        !m.live.contains_key(t),
    ensures
        !run(m, ops).live.contains_key(t),
        forall|i: int| 0 <= i < trace(m, ops).len() ==> (#[trigger] trace(m, ops)[i]).0 != t,
    decreases ops.len(),
{
    if ops.len() > 0 {
        let m1 = step(m, ops[0]);
        lemma_step_wf(m, ops[0]);
        lemma_retired_token_stays_silent(m1, t, ops.drop_first());
        let head = match notification(m, ops[0]) {
            Some(n) => seq![n],
            None => Seq::<(u64, i64)>::empty(),
        };
        assert(trace(m, ops) == head + trace(m1, ops.drop_first()));
        assert forall|i: int| 0 <= i < trace(m, ops).len() implies (#[trigger] trace(
            m,
            ops,
        )[i]).0 != t by {
            if i >= head.len() {
                assert(trace(m, ops)[i] == trace(m1, ops.drop_first())[i - head.len()]);
            }
        }
    }
}

/// After `destroy`, the token's callback is never invoked again and the token
/// never names a counter again, whatever operations follow.
pub proof fn lemma_destroyed_token_stays_silent(m: RegistryModel, t: u64, ops: Seq<Op>)
    requires
        model_wf(m),
        m.live.contains_key(t),
    ensures
        !run(step(m, Op::Destroy(t)), ops).live.contains_key(t),
        forall|i: int|
            0 <= i < trace(step(m, Op::Destroy(t)), ops).len() ==> (#[trigger] trace(
                step(m, Op::Destroy(t)),
                ops,
            )[i]).0 != t,
{
    lemma_step_wf(m, Op::Destroy(t));
    lemma_retired_token_stays_silent(step(m, Op::Destroy(t)), t, ops);
}

/// The table of live counters, keyed by the tokens handed to the managed side.
pub struct CounterRegistry<C> {
    next: u64,
    slots: HashMap<u64, Counter<C>>,
}

impl<C> CounterRegistry<C> {
    /// The abstract state of the table.
    pub closed spec fn model(&self) -> RegistryModel {
        RegistryModel { next: self.next, live: self.slots@.map_values(|c: Counter<C>| c.value()) }
    }

    /// The callback held for each live token.
    pub closed spec fn callbacks(&self) -> Map<u64, C> {
        self.slots@.map_values(|c: Counter<C>| c.handle())
    }

    /// The table's invariant: live tokens were issued before `next`, and
    /// exactly the live tokens hold a callback.
    pub open spec fn wf(&self) -> bool {
        &&& model_wf(self.model())
        &&& self.callbacks().dom() == self.model().live.dom()
    }

    proof fn lemma_domains_agree(&self)
        ensures
            self.callbacks().dom() == self.model().live.dom(),
    {
        assert(self.callbacks().dom() =~= self.model().live.dom());
    }

    /// An empty table; the first token it issues is 1.
    pub fn new() -> (r: Self)
        ensures
            r.wf(),
            r.model() == (RegistryModel { next: 1, live: Map::empty() }),
            r.callbacks() == Map::<u64, C>::empty(),
    {
        let r = CounterRegistry { next: 1, slots: HashMap::new() };
        assert(r.model().live =~= Map::empty());
        assert(r.callbacks() =~= Map::empty());
        proof {
            r.lemma_domains_agree();
        }
        r
    }

    /// Allocates a counter at zero holding `callback` and returns its token,
    /// or `None` when every token has been issued.
    pub fn create(&mut self, callback: C) -> (r: Option<u64>)
        requires
            old(self).wf(),
        ensures
            final(self).wf(),
            final(self).model() == step(old(self).model(), Op::Create),
            r == (if old(self).model().next < u64::MAX {
                Some(old(self).model().next)
            } else {
                None::<u64>
            }),
            r matches Some(t) ==> final(self).callbacks() == old(self).callbacks().insert(t, callback),
            r is None ==> final(self).callbacks() == old(self).callbacks(),
    {
        if self.next == u64::MAX {
            return None;
        }
        proof {
            lemma_step_wf(self.model(), Op::Create);
        }
        let token = self.next;
        let ghost old_slots = self.slots@;
        self.slots.insert(token, Counter::new(callback));
        self.next = self.next + 1;
        proof {
            assert(self.model().live =~= old_slots.map_values(|c: Counter<C>| c.value()).insert(
                token,
                0,
            ));
            assert(self.callbacks() =~= old_slots.map_values(|c: Counter<C>| c.handle()).insert(
                token,
                callback,
            ));
        }
        proof {
            self.lemma_domains_agree();
        }
        Some(token)
    }

    /// Adds one to the count of `token` and returns the new count, the value
    /// that its callback is to be invoked with.
    pub fn increment(&mut self, token: u64) -> (r: Result<i64, TokenError>)
        requires
            old(self).wf(),
        ensures
            final(self).wf(),
            final(self).model() == step(old(self).model(), Op::Increment(token)),
            final(self).callbacks() == old(self).callbacks(),
            !old(self).model().live.contains_key(token) ==> r == Err::<i64, TokenError>(
                TokenError::InvalidToken,
            ),
            old(self).model().live.contains_key(token) && old(self).model().live[token]
                == i64::MAX ==> r == Err::<i64, TokenError>(TokenError::CountOverflow),
            old(self).model().live.contains_key(token) && old(self).model().live[token]
                < i64::MAX ==> r == Ok::<i64, TokenError>((old(self).model().live[token] + 1) as i64),
            r matches Ok(v) ==> notification(old(self).model(), Op::Increment(token)) == Some(
                (token, v),
            ),
            r is Err ==> notification(old(self).model(), Op::Increment(token)) is None,
    {
        let ghost old_slots = self.slots@;
        proof {
            lemma_step_wf(self.model(), Op::Increment(token));
        }
        match self.slots.remove(&token) {
            None => {
                assert(self.slots@ =~= old_slots);
                proof {
                    self.lemma_domains_agree();
                }
                Err(TokenError::InvalidToken)
            },
            Some(mut counter) => {
                if counter.count() == i64::MAX {
                    self.slots.insert(token, counter);
                    assert(self.slots@ =~= old_slots);
                    proof {
                        self.lemma_domains_agree();
                    }
                    Err(TokenError::CountOverflow)
                } else {
                    let v = counter.inc();
                    self.slots.insert(token, counter);
                    proof {
                        assert(self.model().live =~= old_slots.map_values(
                            |c: Counter<C>| c.value(),
                        ).insert(token, v));
                        assert(self.callbacks() =~= old_slots.map_values(
                            |c: Counter<C>| c.handle(),
                        ));
                        self.lemma_domains_agree();
                    }
                    Ok(v)
                }
            },
        }
    }

    /// The callback held for `token`, if the token is live.
    pub fn callback(&self, token: u64) -> (r: Option<&C>)
        ensures
            r is Some <==> self.callbacks().contains_key(token),
            r matches Some(c) ==> *c == self.callbacks()[token],
    {
        match self.slots.get(&token) {
            None => None,
            Some(counter) => Some(counter.callback()),
        }
    }

    /// The current count of `token`, if the token is live.
    pub fn count(&self, token: u64) -> (r: Option<i64>)
        ensures
            r is Some <==> self.model().live.contains_key(token),
            r matches Some(v) ==> v == self.model().live[token],
    {
        match self.slots.get(&token) {
            None => None,
            Some(counter) => Some(counter.count()),
        }
    }

    /// Removes the counter of `token` and hands it back; dropping it releases
    /// its callback. The token is invalid from then on.
    pub fn destroy(&mut self, token: u64) -> (r: Result<Counter<C>, TokenError>)
        requires
            old(self).wf(),
        ensures
            final(self).wf(),
            final(self).model() == step(old(self).model(), Op::Destroy(token)),
            final(self).callbacks() == old(self).callbacks().remove(token),
            r is Ok <==> old(self).model().live.contains_key(token),
            r matches Ok(c) ==> c.value() == old(self).model().live[token] && c.handle()
                == old(self).callbacks()[token],
            r matches Err(e) ==> e == TokenError::InvalidToken,
    {
        let ghost old_slots = self.slots@;
        proof {
            lemma_step_wf(self.model(), Op::Destroy(token));
        }
        let r = match self.slots.remove(&token) {
            None => Err(TokenError::InvalidToken),
            Some(counter) => Ok(counter),
        };
        proof {
            assert(self.model().live =~= old_slots.map_values(|c: Counter<C>| c.value()).remove(
                token,
            ));
            assert(self.callbacks() =~= old_slots.map_values(|c: Counter<C>| c.handle()).remove(
                token,
            ));
            self.lemma_domains_agree();
        }
        r
    }
}

} // verus!
