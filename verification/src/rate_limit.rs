use crate::decision::AdmissionDecision;
use crate::decision::RejectReason;
use std::collections::HashMap;
use vstd::prelude::*;
use vstd::std_specs::iter::IteratorSpec;

verus! {

broadcast use vstd::std_specs::hash::group_hash_axioms;

/// The thresholds of the rate limiter. Times are in milliseconds.
#[derive(Clone, Copy, Debug, PartialEq, Eq, Structural)]
pub struct RateConfig {
    /// How many attempts one address may make inside one window.
    pub connect_count: usize,
    /// The length of a window.
    pub connect_interval: u64,
    /// How long an address is locked out once it made more attempts.
    pub connect_lockout: u64,
}

/// What the limiter remembers of one address.
#[derive(Clone, Copy, Debug, PartialEq, Eq, Structural)]
pub struct RateState {
    /// The attempts counted inside the current window.
    pub count: u64,
    /// When the current window started.
    pub window_start: u64,
    /// Until when the address is locked out, if it is.
    pub lockout_expiry: Option<u64>,
}

/// The state of an address that was not seen before `now`.
pub open spec fn fresh_state(now: u64) -> RateState {
    RateState { count: 0, window_start: now, lockout_expiry: None }
}

/// The state that an attempt starts from: the one remembered, or a fresh
/// one.
pub open spec fn starting_state(prior: Option<RateState>, now: u64) -> RateState {
    match prior {
        Some(state) => state,
        None => fresh_state(now),
    }
}

/// Whether a lockout is active at `now`.
pub open spec fn locked_out(state: RateState, now: u64) -> bool {
    state.lockout_expiry matches Some(expiry) && expiry > now
}

/// Whether the window of `state` is over at `now`.
pub open spec fn window_elapsed(config: RateConfig, state: RateState, now: u64) -> bool {
    now - state.window_start > config.connect_interval
}

/// The attempts counted in the window that `now` falls in, before the
/// attempt at `now` itself.
pub open spec fn counted_before(config: RateConfig, state: RateState, now: u64) -> u64 {
    if window_elapsed(config, state, now) {
        0
    } else {
        state.count
    }
}

/// Whether the attempt at `now` is one more than the window allows.
pub open spec fn exceeds(config: RateConfig, state: RateState, now: u64) -> bool {
    counted_before(config, state, now) + 1 > config.connect_count
}

/// The sum of two times, or the largest time where the sum does not fit.
pub open spec fn capped_sum(a: u64, b: u64) -> u64 {
    if a + b > u64::MAX {
        u64::MAX
    } else {
        (a + b) as u64
    }
}

/// What the limiter remembers of an address after an attempt at `now`.
/// During a lockout nothing changes. Otherwise a window that is over is
/// started anew, the attempt is counted, and a lockout is set where the
/// count went over the limit.
pub open spec fn after_attempt(config: RateConfig, prior: Option<RateState>, now: u64) -> RateState {
    let state = starting_state(prior, now);
    if locked_out(state, now) {
        state
    } else {
        RateState {
            count: capped_sum(counted_before(config, state, now), 1),
            window_start: if window_elapsed(config, state, now) {
                now
            } else {
                state.window_start
            },
            lockout_expiry: if exceeds(config, state, now) {
                Some(capped_sum(now, config.connect_lockout))
            } else {
                None
            },
        }
    }
}

/// What the limiter decides of an attempt at `now`.
pub open spec fn attempt_decision(config: RateConfig, prior: Option<RateState>, now: u64) -> AdmissionDecision {
    let state = starting_state(prior, now);
    if locked_out(state, now) {
        AdmissionDecision::Reject(
            RejectReason::RateLimited((state.lockout_expiry->0 - now) as u64),
        )
    } else if exceeds(config, state, now) {
        AdmissionDecision::Reject(RejectReason::RateLimited(config.connect_lockout))
    } else {
        AdmissionDecision::Admit
    }
}

/// What a map remembers of an address.
pub open spec fn remembered(states: Map<u32, RateState>, addr: u32) -> Option<RateState> {
    if states.contains_key(addr) {
        Some(states[addr])
    } else {
        None
    }
}

/// Whether the limiter may forget `state` at `now`: its window is over and
/// no lockout is active.
pub open spec fn evictable(config: RateConfig, state: RateState, now: u64) -> bool {
    window_elapsed(config, state, now) && !locked_out(state, now)
}

/// What is remembered of an address after attempts at the given times, one
/// after another.
pub open spec fn after_attempts(config: RateConfig, prior: Option<RateState>, times: Seq<u64>) -> Option<RateState>
    decreases times.len(),
{
    if times.len() == 0 {
        prior
    } else {
        Some(
            after_attempt(
                config,
                after_attempts(config, prior, times.drop_last()),
                times.last(),
            ),
        )
    }
}

/// What the limiter decides of the attempt number `k`, counted from 0, of an
/// address that was not seen before and that tries at the given times.
pub open spec fn decision_at(config: RateConfig, times: Seq<u64>, k: int) -> AdmissionDecision {
    attempt_decision(config, after_attempts(config, None, times.take(k)), times[k])
}

/// After `k` attempts inside one window, none of them over the limit, the
/// limiter has counted `k` attempts since the first and set no lockout.
proof fn lemma_counted_in_window(config: RateConfig, times: Seq<u64>, k: int)
    requires
        1 <= k <= times.len(),
        k <= config.connect_count,
        forall|j: int| 0 <= j < times.len() ==> #[trigger] times[j] - times[0] <= config.connect_interval,
    ensures
        after_attempts(config, None, times.take(k)) == Some(
            RateState { count: k as u64, window_start: times[0], lockout_expiry: None },
        ),
    decreases k,
{
    let taken = times.take(k);
    assert(taken.drop_last() == times.take(k - 1));
    assert(taken.last() == times[k - 1]);
    if k == 1 {
        assert(times.take(0).len() == 0);
        assert(times[0] - times[0] <= config.connect_interval);
    } else {
        lemma_counted_in_window(config, times, k - 1);
        assert(times[k - 1] - times[0] <= config.connect_interval);
    }
}

/// A burst inside one window: of the attempts of a new address that all
/// fall within the interval of the first, the first `connect_count` are
/// admitted, and the one after them is rejected for the length of the
/// lockout.
pub proof fn lemma_burst_within_window(config: RateConfig, times: Seq<u64>, k: int)
    requires
        0 <= k < times.len(),
        forall|j: int| 0 <= j < times.len() ==> #[trigger] times[j] - times[0] <= config.connect_interval,
    ensures
        k < config.connect_count ==> decision_at(config, times, k) == AdmissionDecision::Admit,
        k == config.connect_count ==> decision_at(config, times, k) == AdmissionDecision::Reject(
            RejectReason::RateLimited(config.connect_lockout),
        ),
{
    assert(times[k] - times[0] <= config.connect_interval);
    if k == 0 {
        assert(times.take(0).len() == 0);
    } else if k <= config.connect_count {
        lemma_counted_in_window(config, times, k);
    }
}

/// During a lockout every attempt is rejected for the time that is left of
/// it, and the attempt changes nothing: it neither counts nor extends the
/// lockout.
pub proof fn lemma_lockout_holds(config: RateConfig, state: RateState, now: u64)
    requires
        locked_out(state, now),
    ensures
        attempt_decision(config, Some(state), now) == AdmissionDecision::Reject(
            RejectReason::RateLimited((state.lockout_expiry->0 - now) as u64),
        ),
        after_attempt(config, Some(state), now) == state,
{
}

/// A lockout holds for as long as it lasts: attempts at times that all lie
/// before its end, however many, leave what is remembered as it was.
pub proof fn lemma_lockout_holds_throughout(config: RateConfig, state: RateState, times: Seq<u64>)
    requires
        forall|j: int| 0 <= j < times.len() ==> locked_out(state, #[trigger] times[j]),
    ensures
        after_attempts(config, Some(state), times) == Some(state),
    decreases times.len(),
{
    if times.len() > 0 {
        let shorter = times.drop_last();
        assert forall|j: int| 0 <= j < shorter.len() implies locked_out(
            state,
            #[trigger] shorter[j],
        ) by {
            assert(shorter[j] == times[j]);
        }
        lemma_lockout_holds_throughout(config, state, shorter);
        assert(locked_out(state, times[times.len() - 1]));
    }
}

/// Once the lockout is over and the window with it, the next attempt is
/// treated as that of an address never seen.
pub proof fn lemma_fresh_after_lockout(config: RateConfig, state: RateState, now: u64)
    requires
        state.lockout_expiry is Some,
        now >= state.lockout_expiry->0,
        window_elapsed(config, state, now),
    ensures
        attempt_decision(config, Some(state), now) == attempt_decision(config, None, now),
        after_attempt(config, Some(state), now) == after_attempt(config, None, now),
        after_attempt(config, Some(state), now).count == 1,
{
}

/// Forgetting a state that may be forgotten changes no later decision: at
/// any time from then on the address is treated as one never seen. So an
/// eviction never ends a lockout early.
pub proof fn lemma_eviction_is_unobservable(
    config: RateConfig,
    state: RateState,
    evicted_at: u64,
    now: u64,
)
    requires
        evictable(config, state, evicted_at),
        now >= evicted_at,
    ensures
        !locked_out(state, now),
        attempt_decision(config, Some(state), now) == attempt_decision(config, None, now),
        after_attempt(config, Some(state), now) == after_attempt(config, None, now),
{
}

/// The states that are left after every state that may be forgotten at
/// `now` was forgotten.
pub open spec fn swept(config: RateConfig, states: Map<u32, RateState>, now: u64) -> Map<u32, RateState> {
    Map::new(
        |addr: u32| states.contains_key(addr) && !evictable(config, states[addr], now),
        |addr: u32| states[addr],
    )
}

/// A rate limiter as plain values.
pub struct RateLimiterView {
    pub config: RateConfig,
    pub states: Map<u32, RateState>,
}

/// Counts the connection attempts of each address inside a window, and
/// locks an address out once it made too many.
pub struct RateLimiter {
    config: RateConfig,
    states: HashMap<u32, RateState>,
}

impl View for RateLimiter {
    type V = RateLimiterView;

    closed spec fn view(&self) -> RateLimiterView {
        RateLimiterView { config: self.config, states: self.states@ }
    }
}

impl RateLimiter {
    /// A limiter that has seen no address yet.
    pub fn new(config: RateConfig) -> (limiter: RateLimiter)
        ensures
            limiter@.config == config,
            limiter@.states == Map::<u32, RateState>::empty(),
    {
        RateLimiter { config, states: HashMap::new() }
    }

    /// The thresholds of the limiter.
    pub fn config(&self) -> (config: RateConfig)
        ensures
            config == self@.config,
    {
        self.config
    }

    /// What the limiter remembers of `addr`.
    pub fn state_of(&self, addr: u32) -> (state: Option<RateState>)
        ensures
            state == remembered(self@.states, addr),
    {
        match self.states.get(&addr) {
            Some(state) => Some(*state),
            None => None,
        }
    }

    /// The addresses that the limiter remembers something of, in no
    /// particular order.
    pub fn addresses(&self) -> (addrs: Vec<u32>)
        ensures
            addrs@.no_duplicates(),
            forall|addr: u32| addrs@.contains(addr) <==> self@.states.contains_key(addr),
    {
        let mut addrs: Vec<u32> = Vec::new();
        let ghost keys = self.states.keys().remaining();
        for key in it: self.states.keys()
            invariant
                it.seq() == keys,
                keys.no_duplicates(),
                keys.unref().to_set() == self.states@.dom(),
                addrs@ == keys.unref().take(it.index() as int),
        {
            proof {
                assert(keys.unref().take(it.index() + 1) == keys.unref().take(
                    it.index() as int,
                ).push(*key));
            }
            addrs.push(*key);
        }
        proof {
            assert(keys.unref().take(keys.len() as int) == keys.unref());
            assert forall|i: int, j: int| 0 <= i < j < addrs@.len() implies addrs@[i]
                != addrs@[j] by {
                assert(keys[i] != keys[j]);
            }
            assert forall|addr: u32| addrs@.contains(addr) <==> self@.states.contains_key(
                addr,
            ) by {
                assert(addrs@.to_set().contains(addr) <==> addrs@.contains(addr));
            }
        }
        addrs
    }

    /// Forgets every address whose window is over and that is not locked
    /// out. No later decision depends on what is forgotten.
    pub fn sweep(&mut self, now: u64)
        ensures
            final(self)@.config == old(self)@.config,
            final(self)@.states == swept(old(self)@.config, old(self)@.states, now),
    {
        let addrs = self.addresses();
        let ghost before = self.states@;
        let ghost config = self.config;
        let mut i: usize = 0;
        while i < addrs.len()
            invariant
                i <= addrs.len(),
                self.config == config,
                forall|addr: u32| addrs@.contains(addr) <==> before.contains_key(addr),
                forall|addr: u32| #[trigger]
                    self.states@.contains_key(addr) <==> before.contains_key(addr) && !(
                    evictable(config, before[addr], now) && addrs@.take(i as int).contains(addr)),
                forall|addr: u32| #[trigger]
                    self.states@.contains_key(addr) ==> self.states@[addr] == before[addr],
            decreases addrs.len() - i,
        {
            let addr = addrs[i];
            let ghost during = self.states@;
            proof {
                assert(addrs@.take(i + 1) == addrs@.take(i as int).push(addr));
                assert forall|other: u32|
                    addrs@.take(i + 1).contains(other) <==> (addrs@.take(i as int).contains(other)
                        || other == addr) by {
                    if addrs@.take(i as int).contains(other) {
                        let j = choose|j: int|
                            0 <= j < i && addrs@.take(i as int)[j] == other;
                        assert(addrs@.take(i + 1)[j] == other);
                    }
                    if other == addr {
                        assert(addrs@.take(i + 1)[i as int] == other);
                    }
                }
            }
            match self.state_of(addr) {
                Some(state) => {
                    let active = match state.lockout_expiry {
                        Some(expiry) => expiry > now,
                        None => false,
                    };
                    let elapsed = now >= state.window_start && now - state.window_start
                        > self.config.connect_interval;
                    if elapsed && !active {
                        self.states.remove(&addr);
                        assert(self.states@ == during.remove(addr));
                    }
                },
                None => {},
            }
            i += 1;
        }
        proof {
            assert(addrs@.take(addrs.len() as int) == addrs@);
            assert(self.states@ =~= swept(config, before, now));
        }
    }

    /// Records a connection attempt of `addr` at `now` and decides whether
    /// the limiter rejects it.
    pub fn record_attempt(&mut self, addr: u32, now: u64) -> (decision: AdmissionDecision)
        ensures
            decision == attempt_decision(
                old(self)@.config,
                remembered(old(self)@.states, addr),
                now,
            ),
            final(self)@.config == old(self)@.config,
            final(self)@.states == old(self)@.states.insert(
                addr,
                after_attempt(old(self)@.config, remembered(old(self)@.states, addr), now),
            ),
    {
        let state = match self.state_of(addr) {
            Some(state) => state,
            None => RateState { count: 0, window_start: now, lockout_expiry: None },
        };
        match state.lockout_expiry {
            Some(expiry) => {
                if expiry > now {
                    assert(self.states@.insert(addr, state) == self.states@);
                    return AdmissionDecision::Reject(RejectReason::RateLimited(expiry - now));
                }
            },
            None => {},
        }
        let elapsed = now >= state.window_start && now - state.window_start
            > self.config.connect_interval;
        let counted: u64 = if elapsed {
            0
        } else {
            state.count
        };
        let over = counted >= self.config.connect_count as u64;
        let next = RateState {
            count: if counted < u64::MAX {
                counted + 1
            } else {
                counted
            },
            window_start: if elapsed {
                now
            } else {
                state.window_start
            },
            lockout_expiry: if over {
                Some(now.saturating_add(self.config.connect_lockout))
            } else {
                None
            },
        };
        self.states.insert(addr, next);
        if over {
            AdmissionDecision::Reject(RejectReason::RateLimited(self.config.connect_lockout))
        } else {
            AdmissionDecision::Admit
        }
    }
}

} // verus!
