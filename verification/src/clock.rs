//! Spans of time, and the growing pauses between attempts.
use vstd::prelude::*;

verus! {

pub const NANOS_PER_SEC: u32 = 1_000_000_000;

/// A span of time, counted in seconds and nanoseconds.
#[derive(Debug, Clone, Copy, PartialEq, Eq, Structural)]
pub struct Duration {
    secs: u64,
    nanos: u32,
}

/// The number of nanoseconds in the longest span.
pub open spec fn longest() -> nat {
    u64::MAX as nat * 1_000_000_000 + 999_999_999
}

impl View for Duration {
    type V = nat;

    closed spec fn view(&self) -> nat {
        self.secs as nat * 1_000_000_000 + self.nanos as nat
    }
}

impl Duration {
    #[verifier::type_invariant]
    spec fn valid(self) -> bool {
        self.nanos < NANOS_PER_SEC
    }

    /// The span of so many seconds and nanoseconds.
    pub fn new(secs: u64, nanos: u32) -> (r: Duration)
        requires
            nanos < NANOS_PER_SEC,
        ensures
            r@ == secs as nat * 1_000_000_000 + nanos as nat,
            r@ <= longest(),
    {
        Duration { secs, nanos }
    }

    pub fn from_secs(secs: u64) -> (r: Duration)
        ensures
            r@ == secs as nat * 1_000_000_000,
            r@ <= longest(),
    {
        Duration { secs, nanos: 0 }
    }

    pub fn from_millis(millis: u64) -> (r: Duration)
        ensures
            r@ == millis as nat * 1_000_000,
            r@ <= longest(),
    {
        let nanos: u32 = (millis % 1000) as u32 * 1_000_000;
        Duration { secs: millis / 1000, nanos }
    }

    /// The longest span.
    pub fn max() -> (r: Duration)
        ensures
            r@ == longest(),
    {
        Duration { secs: u64::MAX, nanos: NANOS_PER_SEC - 1 }
    }

    /// The whole seconds of the span.
    pub fn as_secs(&self) -> (r: u64)
        ensures
            r == self@ / 1_000_000_000,
            self@ <= longest(),
    {
        proof {
            use_type_invariant(self);
        }
        self.secs
    }

    /// The nanoseconds beyond the whole seconds.
    pub fn subsec_nanos(&self) -> (r: u32)
        ensures
            r == self@ % 1_000_000_000,
    {
        proof {
            use_type_invariant(self);
        }
        self.nanos
    }

    /// The span taken `times` times, where that is not too long.
    pub fn checked_mul(self, times: u32) -> (r: Option<Duration>)
        ensures
            match r {
                Some(d) => d@ == self@ * times && self@ * times <= longest(),
                None => self@ * times > longest(),
            },
    {
        proof {
            use_type_invariant(&self);
        }
        let fine: u64 = self.nanos as u64;
        let count: u64 = times as u64;
        assert(fine * count <= 999_999_999 * 0xffff_ffff) by (nonlinear_arith)
            requires
                fine < 1_000_000_000,
                count <= 0xffff_ffff,
        ;
        let total: u64 = fine * count;
        let carry: u64 = total / 1_000_000_000;
        let nanos: u32 = (total % 1_000_000_000) as u32;
        let ghost whole = self.secs as int * times as int;
        assert(self@ * times == whole * 1_000_000_000 + total) by (nonlinear_arith)
            requires
                self@ == self.secs as int * 1_000_000_000 + self.nanos as int,
                whole == self.secs as int * times as int,
                total as int == self.nanos as int * times as int,
        ;
        assert(total == carry * 1_000_000_000 + nanos);
        match self.secs.checked_mul(count) {
            Some(secs) => match secs.checked_add(carry) {
                Some(secs) => Some(Duration { secs, nanos }),
                None => None,
            },
            None => None,
        }
    }
}

/// How often a request is tried, and how long the first pause is.
#[derive(Debug, Clone, Copy)]
pub struct RetryPolicy {
    pub max_attempts: u8,
    pub initial_backoff: Duration,
}

/// By how much a pause is longer than the first one: each pause is twice the
/// one before, as far as 32 bits reach.
pub open spec fn backoff_factor(retry_index: u8) -> nat
    decreases retry_index,
{
    if retry_index == 0 {
        1
    } else if retry_index < 32 {
        2 * backoff_factor((retry_index - 1) as u8)
    } else {
        u32::MAX as nat
    }
}

impl RetryPolicy {
    /// The length of a pause in nanoseconds, cut off at the longest span.
    pub open spec fn pause(self, retry_index: u8) -> nat {
        let full = self.initial_backoff@ * backoff_factor(retry_index);
        if full <= longest() {
            full
        } else {
            longest()
        }
    }

    /// The pause behind the attempt `retry_index`, counted from zero.
    pub fn delay(self, retry_index: u8) -> (r: Duration)
        ensures
            r@ == self.pause(retry_index),
    {
        let factor: u32 = doubled(retry_index);
        match self.initial_backoff.checked_mul(factor) {
            Some(d) => d,
            None => Duration::max(),
        }
    }
}

proof fn lemma_factor_bound(i: u8)
    requires
        i < 32,
    ensures
        1 <= backoff_factor(i) <= 0x8000_0000,
    decreases i,
{
    reveal_with_fuel(backoff_factor, 33);
}

fn doubled(retry_index: u8) -> (r: u32)
    ensures
        r == backoff_factor(retry_index),
{
    if retry_index >= 32 {
        return u32::MAX;
    }
    let mut factor: u32 = 1;
    let mut i: u8 = 0;
    while i < retry_index
        invariant
            i <= retry_index < 32,
            factor == backoff_factor(i),
        decreases retry_index - i,
    {
        proof {
            lemma_factor_bound((i + 1) as u8);
        }
        factor = factor * 2;
        i = i + 1;
    }
    factor
}

proof fn lemma_factor_grows(i: u8, j: u8)
    requires
        i <= j,
    ensures
        backoff_factor(i) <= backoff_factor(j),
    decreases j,
{
    if i < j {
        lemma_factor_grows(i, (j - 1) as u8);
        if j < 32 {
            lemma_factor_bound((j - 1) as u8);
        } else if j == 32 {
            lemma_factor_bound(31);
        }
    }
}

/// Later pauses are never shorter, and none is longer than the longest span.
pub proof fn lemma_pauses_grow(policy: RetryPolicy, i: u8, j: u8)
    requires
        i <= j,
    ensures
        policy.pause(i) <= policy.pause(j) <= longest(),
{
    lemma_factor_grows(i, j);
    let d = policy.initial_backoff@;
    let a = backoff_factor(i);
    let b = backoff_factor(j);
    assert(d * a <= d * b) by (nonlinear_arith)
        requires
            a <= b,
    ;
}

/// Each pause is twice the one before, unless that is too long.
pub proof fn lemma_pauses_double(policy: RetryPolicy, i: u8)
    requires
        i < 31,
    ensures
        policy.pause((i + 1) as u8) == if 2 * policy.pause(i) <= longest() {
            2 * policy.pause(i)
        } else {
            longest()
        },
{
    let d = policy.initial_backoff@;
    let a = backoff_factor(i);
    assert(backoff_factor((i + 1) as u8) == 2 * a);
    assert(d * (2 * a) == 2 * (d * a)) by (nonlinear_arith);
}

/// The first pause is the one that the policy gives, and the pauses no longer
/// grow once they are 4294967295 times as long.
pub proof fn lemma_first_and_last_pause(policy: RetryPolicy, i: u8)
    requires
        policy.initial_backoff@ <= longest(),
    ensures
        policy.pause(0) == policy.initial_backoff@,
        i >= 32 ==> policy.pause(i) == if policy.initial_backoff@ * 4_294_967_295 <= longest() {
            policy.initial_backoff@ * 4_294_967_295
        } else {
            longest()
        },
        longest() == 18_446_744_073_709_551_615_999_999_999,
{
    assert(policy.initial_backoff@ * 1 == policy.initial_backoff@) by (nonlinear_arith);
}

}
