use vstd::prelude::*;

verus! {

/// Width of the wrapping sequence-number space.
pub const MODULUS: u64 = 0x1_0000_0000;

/// `2^32` as a mathematical integer.
pub open spec fn modulus() -> int {
    0x1_0000_0000
}

/// Distance between two integers.
pub open spec fn dist(a: int, b: int) -> int {
    if a >= b { a - b } else { b - a }
}

/// Absolute index `n` written into the 32-bit space relative to `zero`.
pub open spec fn wrap_spec(n: int, zero: u32) -> u32 {
    ((n + zero as int) % modulus()) as u32
}

/// Offset of `raw` from `zero` inside the 32-bit space, in `[0, 2^32)`.
pub open spec fn offset_spec(raw: u32, zero: u32) -> int {
    (raw as int - zero as int) % modulus()
}

/// `r` is at least as close to `checkpoint` as `c`, and when the two are
/// equally close, `r` is not the smaller one.
pub open spec fn preferred(r: int, c: int, checkpoint: int) -> bool {
    dist(r, checkpoint) < dist(c, checkpoint) || (dist(r, checkpoint) == dist(c, checkpoint)
        && r >= c)
}

/// `r` is the 64-bit absolute index congruent to `offset` modulo `2^32`
/// that lies nearest `checkpoint`, the larger one winning a tie.
pub open spec fn is_nearest(r: int, offset: int, checkpoint: int) -> bool {
    &&& 0 <= r <= u64::MAX
    &&& r % modulus() == offset
    &&& forall|c: int|
        0 <= c <= u64::MAX && c % modulus() == offset ==> #[trigger] preferred(r, c, checkpoint)
}

/// The absolute index that `unwrap` returns: the one nearest `checkpoint`
/// among those congruent to `offset`.
pub open spec fn unwrap_spec(offset: int, checkpoint: int) -> int {
    choose|r: int| is_nearest(r, offset, checkpoint)
}

proof fn lemma_nearest_unique(r: int, offset: int, checkpoint: int)
    requires
        is_nearest(r, offset, checkpoint),
    ensures
        unwrap_spec(offset, checkpoint) == r,
{
    let s = unwrap_spec(offset, checkpoint);
    assert(is_nearest(s, offset, checkpoint));
    assert(preferred(r, s, checkpoint));
    assert(preferred(s, r, checkpoint));
}

/// A 32-bit sequence number that wraps around on overflow.
#[derive(Clone, Copy, Debug, PartialEq, Eq, Structural)]
pub struct Wrap32 {
    pub raw_value: u32,
}

proof fn lemma_congruent_apart(c: int, lo: int)
    requires
        c % modulus() == lo % modulus(),
    ensures
        c == lo || c <= lo - modulus() || c == lo + modulus() || c >= lo + 2 * modulus(),
{
    let m = modulus();
    vstd::arithmetic::div_mod::lemma_fundamental_div_mod(c, m);
    vstd::arithmetic::div_mod::lemma_fundamental_div_mod(lo, m);
    let q = c / m - lo / m;
    assert(c - lo == m * q) by (nonlinear_arith)
        requires
            c == m * (c / m) + c % m,
            lo == m * (lo / m) + lo % m,
            c % m == lo % m,
            q == c / m - lo / m,
    ;
    assert(q <= -1 || q == 0 || q == 1 || q >= 2);
    assert(m * q <= -m || q == 0 || q == 1 || m * q >= 2 * m) by (nonlinear_arith)
        requires
            q <= -1 || q == 0 || q == 1 || q >= 2,
            m == 0x1_0000_0000,
    ;
}

impl Wrap32 {
    pub fn new(value: u32) -> (r: Self)
        ensures
            r.raw_value == value,
    {
        Wrap32 { raw_value: value }
    }

    /// Advances by `delta`, wrapping around `2^32`.
    pub fn add(self, delta: u32) -> (r: Wrap32)
        ensures
            r.raw_value == (self.raw_value as int + delta as int) % modulus(),
    {
        Wrap32 { raw_value: self.raw_value.wrapping_add(delta) }
    }

    /// The sequence number of absolute index `n` for a stream starting at
    /// `zero_point`.
    pub fn wrap(n: u64, zero_point: &Wrap32) -> (r: Wrap32)
        ensures
            r.raw_value == wrap_spec(n as int, zero_point.raw_value),
    {
        let low = (n % MODULUS) as u32;
        let r = zero_point.add(low);
        assert(r.raw_value == wrap_spec(n as int, zero_point.raw_value)) by (nonlinear_arith)
            requires
                low as int == n as int % modulus(),
                r.raw_value as int == (zero_point.raw_value as int + low as int) % modulus(),
        {
            vstd::arithmetic::div_mod::lemma_add_mod_noop(
                n as int,
                zero_point.raw_value as int,
                modulus(),
            );
            vstd::arithmetic::div_mod::lemma_mod_twice(n as int, modulus());
        }
        r
    }

    /// The absolute index nearest `checkpoint` whose sequence number,
    /// relative to `zero_point`, is this one.
    pub fn unwrap(&self, zero_point: &Wrap32, checkpoint: u64) -> (r: u64)
        ensures
            is_nearest(r as int, offset_spec(self.raw_value, zero_point.raw_value), checkpoint as int),
            r == unwrap_spec(offset_spec(self.raw_value, zero_point.raw_value), checkpoint as int),
    {
        let r = self.unwrap_nearest(zero_point, checkpoint);
        proof {
            lemma_nearest_unique(r as int, offset_spec(self.raw_value, zero_point.raw_value), checkpoint as int);
        }
        r
    }

    fn unwrap_nearest(&self, zero_point: &Wrap32, checkpoint: u64) -> (r: u64)
        ensures
            is_nearest(r as int, offset_spec(self.raw_value, zero_point.raw_value), checkpoint as int),
    {
        let offset = self.raw_value.wrapping_sub(zero_point.raw_value) as u64;
        let block = checkpoint / MODULUS * MODULUS;
        let c0 = block + offset;
        let ghost off = offset_spec(self.raw_value, zero_point.raw_value);
        let ghost cp = checkpoint as int;
        let ghost m = modulus();
        assert(offset as int == off);
        assert(block as int % m == 0 && block <= checkpoint && checkpoint < block + m) by (nonlinear_arith)
            requires block as int == (checkpoint as int / m) * m, m == 0x1_0000_0000,
        {
            vstd::arithmetic::div_mod::lemma_fundamental_div_mod(checkpoint as int, m);
            vstd::arithmetic::div_mod::lemma_mod_multiples_basic(checkpoint as int / m, m);
        }
        assert(c0 as int % m == off) by {
            vstd::arithmetic::div_mod::lemma_mod_multiples_vanish(block as int / m, off, m);
            vstd::arithmetic::div_mod::lemma_fundamental_div_mod(block as int, m);
        }
        if c0 > checkpoint {
            if c0 < MODULUS {
                assert forall|c: int| 0 <= c <= u64::MAX && c % m == off implies #[trigger] preferred(c0 as int, c, cp) by {
                    lemma_congruent_apart(c, c0 as int);
                }
                c0
            } else {
                let c1 = c0 - MODULUS;
                assert(c1 as int % m == off) by {
                    vstd::arithmetic::div_mod::lemma_mod_sub_multiples_vanish(c0 as int, m);
                }
                if checkpoint - c1 < c0 - checkpoint {
                    assert forall|c: int| 0 <= c <= u64::MAX && c % m == off implies #[trigger] preferred(c1 as int, c, cp) by {
                        lemma_congruent_apart(c, c1 as int);
                    }
                    c1
                } else {
                    assert forall|c: int| 0 <= c <= u64::MAX && c % m == off implies #[trigger] preferred(c0 as int, c, cp) by {
                        lemma_congruent_apart(c, c1 as int);
                    }
                    c0
                }
            }
        } else if c0 > u64::MAX - MODULUS {
            assert forall|c: int| 0 <= c <= u64::MAX && c % m == off implies #[trigger] preferred(c0 as int, c, cp) by {
                lemma_congruent_apart(c, c0 as int);
            }
            c0
        } else {
            let c1 = c0 + MODULUS;
            assert(c1 as int % m == off) by {
                vstd::arithmetic::div_mod::lemma_mod_add_multiples_vanish(c0 as int, m);
            }
            if checkpoint - c0 < c1 - checkpoint {
                assert forall|c: int| 0 <= c <= u64::MAX && c % m == off implies #[trigger] preferred(c0 as int, c, cp) by {
                    lemma_congruent_apart(c, c0 as int);
                }
                c0
            } else {
                assert forall|c: int| 0 <= c <= u64::MAX && c % m == off implies #[trigger] preferred(c1 as int, c, cp) by {
                    lemma_congruent_apart(c, c0 as int);
                }
                c1
            }
        }
    }
}

/// Wrapping an absolute index and unwrapping it again, against any
/// checkpoint less than `2^31` away from it, gives the index back.
pub proof fn lemma_wrap_unwrap(n: u64, zero: u32, checkpoint: u64, r: u64)
    requires
        dist(n as int, checkpoint as int) < 0x8000_0000,
        is_nearest(r as int, offset_spec(wrap_spec(n as int, zero), zero), checkpoint as int),
    ensures
        r == n,
{
    let m = modulus();
    let off = offset_spec(wrap_spec(n as int, zero), zero);
    assert(off == n as int % m) by {
        vstd::arithmetic::div_mod::lemma_add_mod_noop(n as int, zero as int, m);
        vstd::arithmetic::div_mod::lemma_mod_twice(n as int, m);
        vstd::arithmetic::div_mod::lemma_mod_bound(n as int + zero as int, m);
        vstd::arithmetic::div_mod::lemma_sub_mod_noop(n as int + zero as int, zero as int, m);
        vstd::arithmetic::div_mod::lemma_mod_self_0(m);
    }
    vstd::arithmetic::div_mod::lemma_mod_twice(n as int, m);
    assert(preferred(r as int, n as int, checkpoint as int));
    lemma_congruent_apart(r as int, n as int);
}

} // verus!
