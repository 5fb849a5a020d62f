//! Sliding-window rate limiters: one shared window, and one window per user
//! held in a bounded LRU cache.
use vstd::prelude::*;


verus! {

/// The state of a [`RateLimiter`].
pub struct LimiterView {
    /// Requests remaining in the current window.
    pub remaining: u64,
    /// Epoch second when the current window started.
    pub window_start: u64,
    /// Maximum requests per window.
    pub max_requests: u64,
    /// Window duration in seconds.
    pub window_secs: u64,
}

/// The window that started at `start` has run its course at `now`
/// (`now.saturating_sub(start) >= window_secs`).
pub open spec fn window_expired(l: LimiterView, now: u64) -> bool {
    (if now >= l.window_start {
        now - l.window_start
    } else {
        0
    }) >= l.window_secs
}

/// The limiter state: never more requests remaining than the maximum.
pub open spec fn limiter_wf(l: LimiterView) -> bool {
    l.remaining <= l.max_requests
}

/// A fresh limiter created at `now`.
pub open spec fn fresh_limiter(max_requests: u64, window_secs: u64, now: u64) -> LimiterView {
    LimiterView { remaining: max_requests, window_start: now, max_requests, window_secs }
}

/// One check at time `now`: the new state and whether the request is allowed.
///
/// An expired window restarts at `now` with one request consumed; otherwise
/// a request is allowed exactly when some remain, and consumes one.
pub open spec fn limiter_step(l: LimiterView, now: u64) -> (LimiterView, bool) {
    if window_expired(l, now) {
        (LimiterView { remaining: (l.max_requests - 1) as u64, window_start: now, ..l }, true)
    } else if l.remaining == 0 {
        (l, false)
    } else {
        (LimiterView { remaining: (l.remaining - 1) as u64, ..l }, true)
    }
}

/// A check at `now` cannot underflow: the limiter allows some request per
/// window, or the window is still running.
pub open spec fn step_defined(l: LimiterView, now: u64) -> bool {
    l.max_requests >= 1 || !window_expired(l, now)
}

/// Simple sliding-window rate limiter.
///
/// Tracks the number of requests in the current window. Resets when the window expires.
pub struct RateLimiter {
    remaining: u64,
    window_start: u64,
    max_requests: u64,
    window_secs: u64,
}

impl View for RateLimiter {
    type V = LimiterView;

    closed spec fn view(&self) -> LimiterView {
        LimiterView {
            remaining: self.remaining,
            window_start: self.window_start,
            max_requests: self.max_requests,
            window_secs: self.window_secs,
        }
    }
}

impl RateLimiter {
    /// A limiter whose first window starts at `now`.
    pub fn new_at(max_requests: u64, window_secs: u64, now: u64) -> (r: Self)
        ensures
            r@ == fresh_limiter(max_requests, window_secs, now),
    {
        RateLimiter { remaining: max_requests, window_start: now, max_requests, window_secs }
    }

    /// A limiter whose first window starts now.
    pub fn new(max_requests: u64, window_secs: u64) -> (r: Self)
        ensures
            r@.remaining == max_requests,
            r@.max_requests == max_requests,
            r@.window_secs == window_secs,
    {
        let now = crate::ops::unix_now().0;
        Self::new_at(max_requests, window_secs, now)
    }

    /// Try to consume one request at time `now`. Returns `true` if allowed,
    /// `false` if rate limited.
    pub fn check_at(&mut self, now: u64) -> (allowed: bool)
        requires
            step_defined(old(self)@, now),
        ensures
            (final(self)@, allowed) == limiter_step(old(self)@, now),
    {
        let elapsed = if now >= self.window_start {
            now - self.window_start
        } else {
            0
        };
        if elapsed >= self.window_secs {
            self.window_start = now;
            self.remaining = self.max_requests - 1;
            return true;
        }
        if self.remaining == 0 {
            return false;
        }
        self.remaining = self.remaining - 1;
        true
    }

    /// Whether a check at `now` is defined: the limiter has a budget, or its
    /// window is still running.
    pub fn step_defined_at(&self, now: u64) -> (b: bool)
        ensures
            b == step_defined(self@, now),
    {
        let elapsed = if now >= self.window_start {
            now - self.window_start
        } else {
            0
        };
        self.max_requests >= 1 || elapsed < self.window_secs
    }

    /// Try to consume one request now: `Some(true)` if allowed, `Some(false)`
    /// if rate limited, as [`RateLimiter::check_at`] at the time read from the
    /// clock. `None`, with the limiter unchanged, when the limiter has no
    /// budget and its window has run out, so that no new window can start.
    pub fn check(&mut self) -> (r: Option<bool>)
        ensures
            exists|now: u64|
                (r is Some) == #[trigger] step_defined(old(self)@, now) && match r {
                    Some(allowed) => (final(self)@, allowed) == limiter_step(old(self)@, now),
                    None => final(self)@ == old(self)@,
                },
    {
        let now = crate::ops::unix_now().0;
        if !self.step_defined_at(now) {
            return None;
        }
        let allowed = self.check_at(now);
        assert((self@, allowed) == limiter_step(old(self)@, now));
        Some(allowed)
    }
}

/// Each step keeps the limiter well formed.
pub proof fn lemma_step_keeps_wf(l: LimiterView, now: u64)
    requires
        limiter_wf(l),
        step_defined(l, now),
    ensures
        limiter_wf(limiter_step(l, now).0),
        limiter_step(l, now).0.max_requests == l.max_requests,
        limiter_step(l, now).0.window_secs == l.window_secs,
{
}

/// The state after checks at each of `times` in turn.
pub open spec fn run_checks(l: LimiterView, times: Seq<u64>) -> LimiterView
    decreases times.len(),
{
    if times.len() == 0 {
        l
    } else {
        limiter_step(run_checks(l, times.drop_last()), times.last()).0
    }
}

/// How many of the checks at `times` are allowed.
pub open spec fn allowed_count(l: LimiterView, times: Seq<u64>) -> nat
    decreases times.len(),
{
    if times.len() == 0 {
        0
    } else {
        allowed_count(l, times.drop_last()) + if limiter_step(
            run_checks(l, times.drop_last()),
            times.last(),
        ).1 {
            1nat
        } else {
            0nat
        }
    }
}

/// Within one window the limiter allows exactly as many requests as remain:
/// when no check in `times` finds the window expired, the number allowed is
/// `min(times.len(), remaining)`, and the window never moves.
pub proof fn law_window_budget(l: LimiterView, times: Seq<u64>)
    requires
        forall|i: int| 0 <= i < times.len() ==> !window_expired(l, #[trigger] times[i]),
    ensures
        allowed_count(l, times) == if times.len() <= l.remaining {
            times.len()
        } else {
            l.remaining as nat
        },
        run_checks(l, times).window_start == l.window_start,
        run_checks(l, times).max_requests == l.max_requests,
        run_checks(l, times).window_secs == l.window_secs,
        run_checks(l, times).remaining == if times.len() <= l.remaining {
            l.remaining - times.len()
        } else {
            0
        },
    decreases times.len(),
{
    if times.len() > 0 {
        let t = times.drop_last();
        assert forall|i: int| 0 <= i < t.len() implies !window_expired(l, #[trigger] t[i]) by {
            assert(t[i] == times[i]);
        }
        law_window_budget(l, t);
        assert(!window_expired(l, times[times.len() - 1]));
    }
}

/// Once the window has run its course, the next request is allowed and a new
/// window of `max_requests - 1` remaining requests starts at that time.
pub proof fn law_expired_window_allows(l: LimiterView, now: u64)
    requires
        window_expired(l, now),
        l.max_requests >= 1,
    ensures
        limiter_step(l, now).1,
        limiter_step(l, now).0.window_start == now,
        limiter_step(l, now).0.remaining == l.max_requests - 1,
{
}

#[verifier::external_type_specification]
#[verifier::external_body]
#[verifier::reject_recursive_types(K)]
#[verifier::reject_recursive_types(V)]
#[verifier::reject_recursive_types(S)]
pub struct ExLruCache<K, V, S>(lru::LruCache<K, V, S>);

#[verifier::external_type_specification]
#[verifier::external_body]
pub struct ExLruDefaultHasher(lru::DefaultHasher);

/// What an LRU cache of per-user limiters holds: the state of each user's limiter.
pub uninterp spec fn lru_limiters(c: lru::LruCache<String, RateLimiter>) -> Map<Seq<char>, LimiterView>;

/// The capacity an LRU cache of per-user limiters was created with.
pub uninterp spec fn lru_capacity(c: lru::LruCache<String, RateLimiter>) -> nat;

/// `LruCache::new`: an empty cache that holds at most `cap` entries.
#[verifier::external_body]
fn lru_new(cap: usize) -> (c: lru::LruCache<String, RateLimiter>)
    requires
        cap > 0,
    ensures
        lru_limiters(c).dom().len() == 0,
        lru_limiters(c).dom().finite(),
        lru_capacity(c) == cap,
{
    lru::LruCache::new(std::num::NonZeroUsize::new(cap).unwrap())
}

/// `LruCache::pop`: removes the entry for `key` and returns its value, if any.
#[verifier::external_body]
fn lru_pop(c: &mut lru::LruCache<String, RateLimiter>, key: &str) -> (r: Option<RateLimiter>)
    ensures
        match r {
            Some(l) => lru_limiters(*old(c)).contains_key(key@) && l@ == lru_limiters(*old(c))[key@],
            None => !lru_limiters(*old(c)).contains_key(key@),
        },
        lru_limiters(*final(c)) == lru_limiters(*old(c)).remove(key@),
        lru_capacity(*final(c)) == lru_capacity(*old(c)),
{
    c.pop(key)
}

/// `LruCache::put` of a key that the cache does not hold: the entry is
/// inserted; when the cache was full, one other entry (the least recently
/// used) is evicted first.
#[verifier::external_body]
fn lru_put(c: &mut lru::LruCache<String, RateLimiter>, key: String, v: RateLimiter)
    requires
        !lru_limiters(*old(c)).contains_key(key@),
        lru_limiters(*old(c)).dom().finite(),
        lru_limiters(*old(c)).len() <= lru_capacity(*old(c)),
        lru_capacity(*old(c)) > 0,
    ensures
        lru_capacity(*final(c)) == lru_capacity(*old(c)),
        lru_limiters(*final(c)).dom().finite(),
        lru_limiters(*old(c)).len() < lru_capacity(*old(c)) ==> lru_limiters(*final(c))
            == lru_limiters(*old(c)).insert(key@, v@),
        lru_limiters(*old(c)).len() == lru_capacity(*old(c)) ==> exists|evicted: Seq<char>|
            lru_limiters(*old(c)).contains_key(evicted) && lru_limiters(*final(c))
                == #[trigger] lru_limiters(*old(c)).remove(evicted).insert(key@, v@),
{
    let _ = c.put(key, v);
}

/// Per-user rate limiter that maintains a separate sliding window per user_id.
///
/// Prevents one user from exhausting the rate limit for all users in
/// multi-tenant mode. At most 2048 users are tracked; the least recently
/// seen user's window is dropped first.
pub struct PerUserRateLimiter {
    limiters: lru::LruCache<String, RateLimiter>,
    max_requests: u64,
    window_secs: u64,
}

/// The window that decides a check of `user` at `now`: the user's own, or a
/// fresh one starting at `now` when the user is not tracked.
pub open spec fn user_window(l: PerUserRateLimiter, user: Seq<char>, now: u64) -> LimiterView {
    if l.limiters().contains_key(user) {
        l.limiters()[user]
    } else {
        fresh_limiter(l.max_requests(), l.window_secs(), now)
    }
}

/// A check of `user` at time `now` took the limiter from `old` to `new` and
/// answered `allowed`: the user's own window (a fresh one when the user was
/// not tracked) decides and is stepped; every other user's window is left as
/// it was or dropped; none is dropped when the user was tracked already or
/// fewer than [`MAX_TRACKED_USERS`] users were tracked, and at most one is
/// dropped otherwise.
pub open spec fn checked_user_at(
    old: PerUserRateLimiter,
    new: PerUserRateLimiter,
    user: Seq<char>,
    now: u64,
    allowed: bool,
) -> bool {
    let before = user_window(old, user, now);
    &&& allowed == limiter_step(before, now).1
    &&& new.limiters().contains_key(user)
    &&& new.limiters()[user] == limiter_step(before, now).0
    &&& forall|u: Seq<char>|
        u != user && #[trigger] new.limiters().contains_key(u) ==> old.limiters().contains_key(u)
            && new.limiters()[u] == old.limiters()[u]
    &&& (old.limiters().contains_key(user) || old.limiters().len() < MAX_TRACKED_USERS)
        ==> forall|u: Seq<char>|
        #[trigger] old.limiters().contains_key(u) ==> new.limiters().contains_key(u)
    &&& forall|u: Seq<char>, v: Seq<char>|
        u != v && #[trigger] old.limiters().contains_key(u) && #[trigger] old.limiters().contains_key(
            v,
        ) && !new.limiters().contains_key(u) ==> new.limiters().contains_key(v)
}

/// How many users a [`PerUserRateLimiter`] tracks at once.
pub const MAX_TRACKED_USERS: usize = 2048;

impl PerUserRateLimiter {
    /// The state of each tracked user's limiter.
    pub closed spec fn limiters(&self) -> Map<Seq<char>, LimiterView> {
        lru_limiters(self.limiters)
    }

    /// The request budget of each window.
    pub closed spec fn max_requests(&self) -> u64 {
        self.max_requests
    }

    /// The window length in seconds.
    pub closed spec fn window_secs(&self) -> u64 {
        self.window_secs
    }

    /// The limiter's invariant: the cache holds at most its capacity of
    /// users, and every tracked window has this limiter's budget and length.
    pub closed spec fn wf(&self) -> bool {
        &&& lru_capacity(self.limiters) == MAX_TRACKED_USERS
        &&& lru_limiters(self.limiters).dom().finite()
        &&& lru_limiters(self.limiters).len() <= MAX_TRACKED_USERS
        &&& forall|u: Seq<char>| #[trigger] lru_limiters(self.limiters).contains_key(u) ==> {
            let l = lru_limiters(self.limiters)[u];
            l.max_requests == self.max_requests && l.window_secs == self.window_secs
                && limiter_wf(l)
        }
    }

    pub fn new(max_requests: u64, window_secs: u64) -> (r: Self)
        ensures
            r.wf(),
            r.limiters().dom().len() == 0,
            r.limiters().dom().finite(),
            r.max_requests() == max_requests,
            r.window_secs() == window_secs,
    {
        PerUserRateLimiter { limiters: lru_new(MAX_TRACKED_USERS), max_requests, window_secs }
    }

    /// Try to consume one request for the given user at time `now`.
    ///
    /// The user's own window decides (a fresh window starting at `now` for a
    /// user not tracked yet); every other user's window is left as it was,
    /// except that tracking a new user when 2048 are tracked drops one of them.
    pub fn check_at(&mut self, user_id: &str, now: u64) -> (allowed: bool)
        requires
            old(self).wf(),
            step_defined(user_window(*old(self), user_id@, now), now),
        ensures
            final(self).wf(),
            final(self).max_requests() == old(self).max_requests(),
            final(self).window_secs() == old(self).window_secs(),
            checked_user_at(*old(self), *final(self), user_id@, now, allowed),
    {
        let popped = lru_pop(&mut self.limiters, user_id);
        let mut limiter = match popped {
            Some(l) => l,
            None => RateLimiter::new_at(self.max_requests, self.window_secs, now),
        };
        let allowed = limiter.check_at(now);
        let key = String::from_str(user_id);
        let ghost mid = lru_limiters(self.limiters);
        assert(mid.len() < MAX_TRACKED_USERS || !old(self).limiters().contains_key(user_id@));
        lru_put(&mut self.limiters, key, limiter);
        proof {
            let fin = lru_limiters(self.limiters);
            let old_m = lru_limiters(old(self).limiters);
            if mid.len() == MAX_TRACKED_USERS {
                let ev = choose|evicted: Seq<char>|
                    mid.contains_key(evicted) && fin == #[trigger] mid.remove(evicted).insert(
                        user_id@,
                        limiter@,
                    );
                assert(fin.len() <= MAX_TRACKED_USERS) by {
                    assert(mid.remove(ev).len() == mid.len() - 1);
                }
            } else {
                assert(fin == mid.insert(user_id@, limiter@));
            }
        }
        allowed
    }

    /// Whether a check of `user_id` at `now` is defined, as
    /// [`step_defined`] of the window that would decide it; the tracked
    /// windows are left as they are.
    fn user_step_defined(&mut self, user_id: &str, now: u64) -> (b: bool)
        requires
            old(self).wf(),
        ensures
            final(self).wf(),
            final(self).limiters() == old(self).limiters(),
            final(self).max_requests() == old(self).max_requests(),
            final(self).window_secs() == old(self).window_secs(),
            b == step_defined(user_window(*old(self), user_id@, now), now),
    {
        if self.max_requests >= 1 {
            return true;
        }
        let popped = lru_pop(&mut self.limiters, user_id);
        match popped {
            Some(l) => {
                let b = l.step_defined_at(now);
                let ghost mid = lru_limiters(self.limiters);
                lru_put(&mut self.limiters, String::from_str(user_id), l);
                proof {
                    let old_m = lru_limiters(old(self).limiters);
                    assert(mid.len() < MAX_TRACKED_USERS);
                    assert(lru_limiters(self.limiters) =~= old_m);
                }
                b
            },
            None => {
                proof {
                    assert(lru_limiters(self.limiters) =~= lru_limiters(old(self).limiters));
                }
                0 < self.window_secs
            },
        }
    }

    /// Try to consume one request for the given user now: `Some(true)` if
    /// allowed, `Some(false)` if rate limited, as
    /// [`PerUserRateLimiter::check_at`] at the time read from the clock.
    /// `None`, with nothing changed, when the deciding window has no budget
    /// and has run out, so that no new window can start.
    pub fn check(&mut self, user_id: &str) -> (r: Option<bool>)
        requires
            old(self).wf(),
        ensures
            final(self).wf(),
            final(self).max_requests() == old(self).max_requests(),
            final(self).window_secs() == old(self).window_secs(),
            exists|now: u64|
                (r is Some) == #[trigger] step_defined(user_window(*old(self), user_id@, now), now)
                    && match r {
                    Some(allowed) => checked_user_at(*old(self), *final(self), user_id@, now, allowed),
                    None => final(self).limiters() == old(self).limiters(),
                },
    {
        let now = crate::ops::unix_now().0;
        if !self.user_step_defined(user_id, now) {
            return None;
        }
        Some(self.check_at(user_id, now))
    }
}

/// One user's checks never change another user's window while the other
/// user stays tracked, and below [`MAX_TRACKED_USERS`] tracked users (or
/// when the checked user is tracked already) the other user stays tracked.
pub proof fn law_users_do_not_interfere(
    old: PerUserRateLimiter,
    new: PerUserRateLimiter,
    user: Seq<char>,
    now: u64,
    allowed: bool,
    other: Seq<char>,
)
    requires
        checked_user_at(old, new, user, now, allowed),
        other != user,
        old.limiters().contains_key(other),
        old.limiters().contains_key(user) || old.limiters().len() < MAX_TRACKED_USERS,
    ensures
        new.limiters().contains_key(other),
        new.limiters()[other] == old.limiters()[other],
{
}

} // verus!
