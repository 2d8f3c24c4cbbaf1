//! A number that stays below a bound.

use vstd::prelude::*;

verus! {

/// A number below a bound, with arithmetic that wraps around or stops there.
#[derive(Debug, Clone, Copy, PartialEq, Eq, Structural)]
pub struct ClampedUsize {
    pub val: usize,
    pub max: usize,
    pub wrap: bool,
}

/// A sum that wraps around at a bound, or stops below it. Without room the
/// number stays.
pub open spec fn wrapped_sum(c: ClampedUsize, n: usize) -> usize {
    if c.max == 0 {
        c.val
    } else if c.wrap {
        ((c.val + n) % (c.max as int)) as usize
    } else if c.val + n < c.max {
        (c.val + n) as usize
    } else {
        (c.max - 1) as usize
    }
}

/// A difference that wraps around at a bound, or stops at zero. Without room
/// the number stays.
pub open spec fn wrapped_difference(c: ClampedUsize, n: usize) -> usize {
    if c.max == 0 {
        c.val
    } else if c.wrap {
        ((c.val + c.max - n % c.max) % (c.max as int)) as usize
    } else if c.val >= n {
        (c.val - n) as usize
    } else {
        0
    }
}

impl ClampedUsize {
    /// The number is below its bound, unless there is no room at all.
    pub open spec fn wf(self) -> bool {
        self.max > 0 ==> self.val < self.max
    }

    pub fn new(val: usize, max: usize, wrap: bool) -> (r: Self)
        ensures
            r == (ClampedUsize { val, max, wrap }),
    {
        ClampedUsize { val, max, wrap }
    }

    pub fn get(&self) -> (r: usize)
        ensures
            r == self.val,
    {
        self.val
    }

    /// Sets the number, keeping it below its bound.
    pub fn set(&mut self, n: usize)
        ensures
            *final(self) == (ClampedUsize {
                val: if n < old(self).max {
                    n
                } else if old(self).max > 0 {
                    (old(self).max - 1) as usize
                } else {
                    0
                },
                ..*old(self)
            }),
            final(self).wf(),
    {
        self.val = if n < self.max {
            n
        } else {
            self.max.saturating_sub(1)
        };
    }

    pub fn set_max(&mut self, max: usize)
        ensures
            *final(self) == (ClampedUsize {
                val: if old(self).val >= max && max > 0 {
                    (max - 1) as usize
                } else {
                    old(self).val
                },
                max,
                ..*old(self)
            }),
            final(self).wf(),
    {
        self.max = max;
        if self.val >= self.max && self.max > 0 {
            self.val = self.max - 1;
        }
    }

    pub fn wrap_add(&mut self, n: usize)
        ensures
            *final(self) == (ClampedUsize { val: wrapped_sum(*old(self), n), ..*old(self) }),
            final(self).wf(),
    {
        if self.max == 0 {
            return;
        }
        if self.wrap {
            let sum: u128 = self.val as u128 + n as u128;
            self.val = (sum % self.max as u128) as usize;
        } else if self.val < self.max && n < self.max - self.val {
            self.val = self.val + n;
        } else {
            self.val = self.max - 1;
        }
    }

    pub fn wrap_sub(&mut self, n: usize)
        requires
            old(self).wf(),
        ensures
            *final(self) == (ClampedUsize { val: wrapped_difference(*old(self), n), ..*old(self) }),
            final(self).wf(),
    {
        if self.max == 0 {
            return;
        }
        if self.wrap {
            let sum: u128 = self.val as u128 + self.max as u128 - (n % self.max) as u128;
            self.val = (sum % self.max as u128) as usize;
        } else {
            self.val = self.val.saturating_sub(n);
        }
    }

    /// Subtracts, stopping at zero.
    pub fn sub(&mut self, n: usize)
        ensures
            *final(self) == (ClampedUsize {
                val: if old(self).val >= n {
                    (old(self).val - n) as usize
                } else {
                    0
                },
                ..*old(self)
            }),
            old(self).wf() ==> final(self).wf(),
    {
        self.val = self.val.saturating_sub(n);
    }

    /// Adds, stopping below the bound.
    pub fn add(&mut self, n: usize)
        ensures
            *final(self) == (ClampedUsize {
                val: if old(self).val + n < old(self).max {
                    (old(self).val + n) as usize
                } else if old(self).max > 0 {
                    (old(self).max - 1) as usize
                } else {
                    0
                },
                ..*old(self)
            }),
            final(self).wf(),
    {
        let sum: usize = self.val.saturating_add(n);
        let last: usize = self.max.saturating_sub(1);
        self.val = if sum < last {
            sum
        } else {
            last
        };
    }
}

/// Where numbers wrap around, going forward and back by the same amount ends
/// where it began.
pub proof fn wrapping_back_returns(c: ClampedUsize, n: usize)
    requires
        c.wf(),
        c.wrap,
        c.max > 0,
    ensures
        wrapped_difference(ClampedUsize { val: wrapped_sum(c, n), ..c }, n) == c.val,
        wrapped_sum(ClampedUsize { val: wrapped_difference(c, n), ..c }, n) == c.val,
{
    let m = c.max as int;
    let v = c.val as int;
    let k = n as int;
    let a = (v + k) % m;
    let r = k % m;
    assert(0 <= a < m && 0 <= r < m) by (nonlinear_arith)
        requires
            m > 0,
            a == (v + k) % m,
            r == k % m,
    ;
    vstd::arithmetic::div_mod::lemma_fundamental_div_mod(v + k, m);
    vstd::arithmetic::div_mod::lemma_fundamental_div_mod(k, m);
    let q1 = (v + k) / m;
    let q2 = k / m;
    assert(a + m - r == v + m * (1 + q2 - q1)) by (nonlinear_arith)
        requires
            v + k == m * q1 + a,
            k == m * q2 + r,
    ;
    vstd::arithmetic::div_mod::lemma_mod_multiples_vanish(1 + q2 - q1, v, m);
    vstd::arithmetic::div_mod::lemma_small_mod(c.val as nat, c.max as nat);
    assert((m * (1 + q2 - q1) + v) % m == v % m);
    let b = (v + m - r) % m;
    vstd::arithmetic::div_mod::lemma_fundamental_div_mod(v + m - r, m);
    let q3 = (v + m - r) / m;
    assert(b + k == v + m * (1 + q2 - q3)) by (nonlinear_arith)
        requires
            v + m - r == m * q3 + b,
            k == m * q2 + r,
    ;
    vstd::arithmetic::div_mod::lemma_mod_multiples_vanish(1 + q2 - q3, v, m);
    assert(0 <= b < m) by (nonlinear_arith)
        requires
            m > 0,
            b == (v + m - r) % m,
    ;
}

} // verus!
