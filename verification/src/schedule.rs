//! The retry schedule of a queue: how long to wait before each attempt, how
//! many attempts an age stands for, and when a message has expired.
//!
//! Times are whole seconds. The delay before the first retry is the retry
//! interval, and it doubles with every attempt up to the limit.

use vstd::prelude::*;

verus! {

/// `x` doubled `n` times.
pub open spec fn doubled(x: nat, n: nat) -> nat
    decreases n,
{
    if n == 0 {
        x
    } else {
        2 * doubled(x, (n - 1) as nat)
    }
}

/// Doubling never shrinks a value.
pub proof fn lemma_doubled_grows(x: nat, n: nat, m: nat)
    requires
        n <= m,
    ensures
        doubled(x, n) <= doubled(x, m),
    decreases m,
{
    if n < m {
        lemma_doubled_grows(x, n, (m - 1) as nat);
    }
}

/// How a queue retries and when it gives up.
#[derive(Debug, Clone, Copy, PartialEq, Eq, Structural)]
pub struct QueueConfig {
    /// The age, in seconds, at which a message is declared expired.
    pub max_age: u64,
    /// The delay, in seconds, before the first retry. At least one.
    pub retry_interval: u64,
    /// The longest delay between two attempts, in seconds. At least one.
    pub max_retry_interval: Option<u64>,
}

impl QueueConfig {
    /// A schedule whose delays are at least one second, so that time passes
    /// from one attempt to the next.
    pub open spec fn valid(&self) -> bool {
        self.retry_interval >= 1 && match self.max_retry_interval {
            Some(c) => c >= 1,
            None => true,
        }
    }

    /// The longest delay between two attempts.
    pub open spec fn limit(&self) -> nat {
        match self.max_retry_interval {
            Some(c) => c as nat,
            None => u64::MAX as nat,
        }
    }

    /// The delay after attempt number `attempt`, counted from zero.
    pub open spec fn delay(&self, attempt: nat) -> nat {
        if doubled(self.retry_interval as nat, attempt) < self.limit() {
            doubled(self.retry_interval as nat, attempt)
        } else {
            self.limit()
        }
    }

    /// The cumulative delay through `attempts` attempts.
    pub open spec fn elapsed(&self, attempts: nat) -> nat
        decreases attempts,
    {
        if attempts == 0 {
            0
        } else {
            self.elapsed((attempts - 1) as nat) + self.delay((attempts - 1) as nat)
        }
    }

    /// The delay until a message of age `age` with `attempts` attempts behind
    /// it is due: what is left of the cumulative delay, within `u64`.
    pub open spec fn due_in(&self, attempts: nat, age: nat) -> nat {
        let e = if self.elapsed(attempts) < u64::MAX {
            self.elapsed(attempts)
        } else {
            u64::MAX as nat
        };
        if e <= age {
            0
        } else {
            (e - age) as nat
        }
    }

    /// The number of attempts that an age stands for: the smallest number
    /// of attempts whose cumulative delay reaches `age`.
    pub open spec fn attempts_for(&self, age: nat) -> nat {
        choose|n: nat| self.first_reaches(n, age)
    }

    /// Whether `n` attempts are the first whose cumulative delay reaches `age`.
    pub open spec fn first_reaches(&self, n: nat, age: nat) -> bool {
        self.elapsed(n) >= age && (n > 0 ==> self.elapsed((n - 1) as nat) < age)
    }

    /// Every delay of a valid schedule is at least one second and at most the limit.
    pub proof fn lemma_delay_bounds(&self, attempt: nat)
        requires
            self.valid(),
        ensures
            1 <= self.delay(attempt) <= self.limit(),
    {
        lemma_doubled_grows(self.retry_interval as nat, 0, attempt);
    }

    /// Once the limit is reached, every later delay is the limit.
    pub proof fn lemma_delay_stays(&self, n: nat, m: nat)
        requires
            self.delay(n) == self.limit(),
            n <= m,
        ensures
            self.delay(m) == self.limit(),
    {
        lemma_doubled_grows(self.retry_interval as nat, n, m);
    }

    /// Once the limit is reached, the cumulative delay grows by the limit
    /// with every attempt.
    pub proof fn lemma_elapsed_at_limit(&self, n: nat, k: nat)
        requires
            self.delay(n) == self.limit(),
        ensures
            self.elapsed(n + k) == self.elapsed(n) + k * self.limit(),
        decreases k,
    {
        let l = self.limit();
        if k > 0 {
            let j = (k - 1) as nat;
            self.lemma_elapsed_at_limit(n, j);
            self.lemma_delay_stays(n, n + j);
            assert(self.elapsed(n + k) == self.elapsed(n + j) + self.delay(n + j));
            assert(k * l == j * l + l) by (nonlinear_arith)
                requires
                    k == j + 1,
            ;
        } else {
            assert(k * l == 0) by (nonlinear_arith)
                requires
                    k == 0,
            ;
        }
    }

    /// The cumulative delay grows with the number of attempts, by at least
    /// one second per attempt.
    pub proof fn lemma_elapsed_grows(&self, n: nat, m: nat)
        requires
            self.valid(),
            n <= m,
        ensures
            self.elapsed(n) + (m - n) <= self.elapsed(m),
        decreases m,
    {
        if n < m {
            self.lemma_elapsed_grows(n, (m - 1) as nat);
            self.lemma_delay_bounds((m - 1) as nat);
        }
    }

    /// A schedule, if its delays are at least one second.
    pub fn new(max_age: u64, retry_interval: u64, max_retry_interval: Option<u64>) -> (r: Option<
        QueueConfig,
    >)
        ensures
            match r {
                Some(c) => c.valid() && c.max_age == max_age && c.retry_interval == retry_interval
                    && c.max_retry_interval == max_retry_interval,
                None => retry_interval == 0 || max_retry_interval == Some(0u64),
            },
    {
        let capped_at_zero = match max_retry_interval {
            Some(c) => c == 0,
            None => false,
        };
        if retry_interval == 0 || capped_at_zero {
            None
        } else {
            Some(QueueConfig { max_age, retry_interval, max_retry_interval })
        }
    }

    pub fn get_max_age(&self) -> (r: u64)
        ensures
            r == self.max_age,
    {
        self.max_age
    }

    /// The longest delay between two attempts.
    pub fn get_limit(&self) -> (r: u64)
        ensures
            r == self.limit(),
    {
        match self.max_retry_interval {
            Some(c) => c,
            None => u64::MAX,
        }
    }

    /// The delay that follows a delay `d` below the limit.
    fn next_delay(&self, d: u64, Ghost(n): Ghost<nat>) -> (r: u64)
        requires
            self.valid(),
            d == self.delay(n),
            d < self.limit(),
        ensures
            r == self.delay(n + 1),
    {
        let limit = self.get_limit();
        assert(doubled(self.retry_interval as nat, n + 1) == 2 * doubled(
            self.retry_interval as nat,
            n,
        ));
        if d >= limit - d {
            limit
        } else {
            d + d
        }
    }

    /// The delay after attempt number `attempt`, counted from zero.
    pub fn delay_for_attempt(&self, attempt: u64) -> (r: u64)
        requires
            self.valid(),
        ensures
            r == self.delay(attempt as nat),
    {
        let limit = self.get_limit();
        let mut d = if self.retry_interval < limit {
            self.retry_interval
        } else {
            limit
        };
        let mut i: u64 = 0;
        while i < attempt && d < limit
            invariant
                self.valid(),
                limit == self.limit(),
                i <= attempt,
                d == self.delay(i as nat),
            decreases attempt - i,
        {
            d = self.next_delay(d, Ghost(i as nat));
            i += 1;
        }
        proof {
            if i < attempt {
                self.lemma_delay_stays(i as nat, attempt as nat);
            }
        }
        d
    }

    /// The cumulative delay through `attempts` attempts, within `u64`.
    pub fn elapsed_through(&self, attempts: u64) -> (r: u64)
        requires
            self.valid(),
        ensures
            r == if self.elapsed(attempts as nat) < u64::MAX {
                self.elapsed(attempts as nat)
            } else {
                u64::MAX as nat
            },
    {
        let limit = self.get_limit();
        let mut d = if self.retry_interval < limit {
            self.retry_interval
        } else {
            limit
        };
        let mut i: u64 = 0;
        let mut sum: u64 = 0;
        while i < attempts
            invariant
                self.valid(),
                limit == self.limit(),
                i <= attempts,
                d == self.delay(i as nat),
                sum == self.elapsed(i as nat),
            decreases attempts - i,
        {
            if d >= limit {
                // every further delay is the limit
                let k = attempts - i;
                proof {
                    self.lemma_elapsed_at_limit(i as nat, k as nat);
                }
                return match k.checked_mul(limit) {
                    Some(more) => sum.saturating_add(more),
                    None => u64::MAX,
                };
            }
            match sum.checked_add(d) {
                Some(s) => {
                    sum = s;
                },
                None => {
                    proof {
                        self.lemma_elapsed_grows((i + 1) as nat, attempts as nat);
                    }
                    return u64::MAX;
                },
            }
            d = self.next_delay(d, Ghost(i as nat));
            i += 1;
        }
        sum
    }

    /// The number of attempts that an age stands for: the smallest number of
    /// attempts whose cumulative delay reaches `age`.
    pub fn infer_num_attempts(&self, age: u64) -> (n: u64)
        requires
            self.valid(),
        ensures
            n == self.attempts_for(age as nat),
            self.elapsed(n as nat) >= age,
            n > 0 ==> self.elapsed((n - 1) as nat) < age,
    {
        let n = self.first_to_reach(age);
        proof {
            let m = self.attempts_for(age as nat);
            assert(self.first_reaches(n as nat, age as nat));
            attempts_are_unique(*self, age as nat, n as nat, m);
        }
        n
    }

    /// The smallest number of attempts whose cumulative delay reaches `age`.
    fn first_to_reach(&self, age: u64) -> (n: u64)
        requires
            self.valid(),
        ensures
            self.elapsed(n as nat) >= age,
            n > 0 ==> self.elapsed((n - 1) as nat) < age,
    {
        let limit = self.get_limit();
        let mut d = if self.retry_interval < limit {
            self.retry_interval
        } else {
            limit
        };
        let mut n: u64 = 0;
        let mut sum: u64 = 0;
        while sum < age
            invariant
                self.valid(),
                limit == self.limit(),
                d == self.delay(n as nat),
                sum == self.elapsed(n as nat),
                n <= sum,
                sum >= age ==> n == 0,
            decreases age - sum,
        {
            let left = age - sum;
            proof {
                self.lemma_delay_bounds(n as nat);
            }
            if d >= left {
                return n + 1;
            }
            if d >= limit {
                // every further delay is the limit: `steps` is the least
                // number of them that covers what is left
                let whole = left / limit;
                let part = left % limit;
                let ghost l = limit as int;
                proof {
                    vstd::arithmetic::div_mod::lemma_fundamental_div_mod(left as int, l);
                    vstd::arithmetic::div_mod::lemma_mod_pos_bound(left as int, l);
                    assert(l * (left as int / l) == (left as int / l) * l) by (nonlinear_arith);
                    assert(left == whole * l + part);
                    assert(whole >= 1 && whole + part <= left) by (nonlinear_arith)
                        requires
                            left == whole * l + part,
                            0 <= part < l,
                            left > l,
                            whole >= 0,
                    ;
                }
                let steps = if part == 0 {
                    whole
                } else {
                    whole + 1
                };
                proof {
                    self.lemma_elapsed_at_limit(n as nat, steps as nat);
                    self.lemma_elapsed_at_limit(n as nat, (steps - 1) as nat);
                    assert((steps - 1) * l + l == steps * l) by (nonlinear_arith);
                    assert(steps * l >= left);
                    assert((steps - 1) * l < left);
                    assert(steps <= left);
                }
                return n + steps;
            }
            sum = sum + d;
            d = self.next_delay(d, Ghost(n as nat));
            n += 1;
        }
        n
    }

    /// The delay until the next attempt of a message of age `age` with
    /// `num_attempts` attempts behind it, or `None` if the message has expired.
    pub fn compute_delay_based_on_age(&self, num_attempts: u64, age: u64) -> (r: Option<u64>)
        requires
            self.valid(),
        ensures
            r is None <==> age >= self.max_age,
            r is Some ==> r.unwrap() == self.due_in(num_attempts as nat, age as nat),
    {
        if age >= self.max_age {
            return None;
        }
        let e = self.elapsed_through(num_attempts);
        if e <= age {
            Some(0)
        } else {
            Some(e - age)
        }
    }
}

/// For every age there is exactly one number of attempts whose cumulative
/// delay is the first to reach it.
pub proof fn attempts_are_unique(c: QueueConfig, age: nat, n: nat, m: nat)
    requires
        c.valid(),
        c.elapsed(n) >= age,
        n > 0 ==> c.elapsed((n - 1) as nat) < age,
        c.elapsed(m) >= age,
        m > 0 ==> c.elapsed((m - 1) as nat) < age,
    ensures
        n == m,
{
    if n < m {
        c.lemma_elapsed_grows(n, (m - 1) as nat);
    }
    if m < n {
        c.lemma_elapsed_grows(m, (n - 1) as nat);
    }
}

/// How often an operation that failed for now is tried before the failure
/// is passed on.
pub const LOCAL_ATTEMPTS: u64 = 3;

/// The longest wait between two tries of such an operation, in milliseconds.
pub const LOCAL_BACKOFF_LIMIT: u64 = 2000;

/// The wait before try number `attempt` of an operation that failed for
/// now, counted from zero: `base` milliseconds doubled with every try, up
/// to the limit.
pub open spec fn local_backoff(base: u64, attempt: nat) -> nat {
    if doubled(base as nat, attempt) < LOCAL_BACKOFF_LIMIT {
        doubled(base as nat, attempt)
    } else {
        LOCAL_BACKOFF_LIMIT as nat
    }
}

/// What to do after try number `attempt` of an operation has failed for
/// now: wait so many milliseconds and try again, or, after the last try,
/// pass the failure on.
pub fn local_retry_delay(base: u64, attempt: u64) -> (r: Option<u64>)
    ensures
        r is Some <==> attempt + 1 < LOCAL_ATTEMPTS,
        r is Some ==> r.unwrap() == local_backoff(base, attempt as nat),
{
    if attempt >= LOCAL_ATTEMPTS - 1 {
        return None;
    }
    let mut d = if base < LOCAL_BACKOFF_LIMIT {
        base
    } else {
        LOCAL_BACKOFF_LIMIT
    };
    let mut i: u64 = 0;
    while i < attempt
        invariant
            i <= attempt < 2,
            d == local_backoff(base, i as nat),
        decreases attempt - i,
    {
        proof {
            assert(doubled(base as nat, (i + 1) as nat) == 2 * doubled(base as nat, i as nat));
        }
        d = if d >= LOCAL_BACKOFF_LIMIT - d {
            LOCAL_BACKOFF_LIMIT
        } else {
            d + d
        };
        i += 1;
    }
    Some(d)
}

} // verus!
