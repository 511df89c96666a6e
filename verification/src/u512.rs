//! A 512-bit unsigned integer, the numeric width used by accumulating
//! transforms. Values are held as eight little-endian 64-bit limbs; the view
//! of a value is the mathematical integer it denotes. Addition detects
//! overflow beyond the 512-bit width instead of wrapping.

use vstd::prelude::*;

verus! {

/// Number of 64-bit limbs in a value.
pub const U512_LIMBS: usize = 8;

/// The mathematical integer denoted by a little-endian limb sequence.
pub open spec fn limbs_value(s: Seq<u64>) -> nat
    decreases s.len(),
{
    if s.len() == 0 {
        0
    } else {
        s[0] as nat + 0x1_0000_0000_0000_0000nat * limbs_value(s.drop_first())
    }
}

/// `2^(64*i)`: the weight of limb `i`.
pub open spec fn pow_base(i: nat) -> nat
    decreases i,
{
    if i == 0 {
        1
    } else {
        0x1_0000_0000_0000_0000nat * pow_base((i - 1) as nat)
    }
}

/// One past the largest representable value: `2^512`.
pub open spec fn u512_bound() -> nat {
    pow_base(U512_LIMBS as nat)
}

proof fn lemma_mul_distribute(x: nat, y: nat, p: nat)
    by (nonlinear_arith)
    ensures
        (x + y) * p == x * p + y * p,
{
}

proof fn lemma_mul_associate(x: nat, y: nat, p: nat)
    by (nonlinear_arith)
    ensures
        x * (y * p) == (x * y) * p,
{
}

proof fn lemma_mul_monotone(x: nat, y: nat, p: nat)
    by (nonlinear_arith)
    requires
        x <= y,
    ensures
        p * x <= p * y,
{
}

/// The value of a prefix grows by the indexed limb at its weight.
proof fn lemma_prefix_value(s: Seq<u64>, i: int)
    requires
        0 <= i < s.len(),
    ensures
        limbs_value(s.take(i + 1)) == limbs_value(s.take(i)) + s[i] * pow_base(i as nat),
    decreases i,
{
    let b = 0x1_0000_0000_0000_0000nat;
    if i == 0 {
        let t = s.take(1);
        assert(t.len() == 1);
        assert(t[0] == s[0]);
        assert(t.drop_first() =~= Seq::<u64>::empty());
        assert(limbs_value(t.drop_first()) == 0);
        assert(limbs_value(t) == t[0] + b * limbs_value(t.drop_first()));
        assert(s.take(0).len() == 0);
        assert(limbs_value(s.take(0)) == 0);
        assert(pow_base(0) == 1);
    } else {
        let t = s.drop_first();
        lemma_prefix_value(t, i - 1);
        let v = limbs_value(t.take(i - 1));
        let w = (s[i] * pow_base((i - 1) as nat)) as nat;
        assert(t[i - 1] == s[i]);
        assert(limbs_value(t.take(i)) == v + w);
        assert(s.take(i + 1).drop_first() =~= t.take(i));
        assert(s.take(i).drop_first() =~= t.take(i - 1));
        assert(limbs_value(s.take(i + 1)) == s[0] + b * (v + w));
        assert(limbs_value(s.take(i)) == s[0] + b * v);
        assert(b * (v + w) == b * v + b * w) by {
            lemma_mul_distribute(v, w, b);
        }
        assert(b * w == s[i] * pow_base(i as nat)) by {
            lemma_mul_associate(0x1_0000_0000_0000_0000nat, s[i] as nat, pow_base((i - 1) as nat));
            lemma_mul_associate(s[i] as nat, 0x1_0000_0000_0000_0000nat, pow_base((i - 1) as nat));
            assert(pow_base(i as nat) == 0x1_0000_0000_0000_0000nat * pow_base((i - 1) as nat));
        }
    }
}

/// Appending a limb adds it at the weight of the old length.
proof fn lemma_push_value(s: Seq<u64>, x: u64)
    ensures
        limbs_value(s.push(x)) == limbs_value(s) + x * pow_base(s.len()),
{
    lemma_prefix_value(s.push(x), s.len() as int);
    assert(s.push(x).take(s.len() as int) =~= s);
    assert(s.push(x).take(s.len() as int + 1) =~= s.push(x));
}

/// A limb sequence denotes less than the weight just past its end.
proof fn lemma_value_bound(s: Seq<u64>)
    ensures
        limbs_value(s) < pow_base(s.len()),
    decreases s.len(),
{
    if s.len() > 0 {
        let t = s.drop_first();
        lemma_value_bound(t);
        lemma_mul_monotone(
            limbs_value(t),
            (pow_base(t.len()) - 1) as nat,
            0x1_0000_0000_0000_0000nat,
        );
        lemma_mul_distribute(
            (pow_base(t.len()) - 1) as nat,
            1,
            0x1_0000_0000_0000_0000nat,
        );
    }
}

/// An all-zero limb sequence denotes zero.
proof fn lemma_value_zero(s: Seq<u64>)
    requires
        forall|i: int| 0 <= i < s.len() ==> s[i] == 0,
    ensures
        limbs_value(s) == 0,
    decreases s.len(),
{
    if s.len() > 0 {
        lemma_value_zero(s.drop_first());
    }
}

/// A 512-bit unsigned integer.
#[derive(Debug, PartialEq, Eq)]
pub struct U512 {
    limbs: Vec<u64>,
}

impl Clone for U512 {
    /// The clone denotes the same integer.
    fn clone(&self) -> (r: Self)
        ensures
            r@ == self@,
    {
        proof {
            use_type_invariant(self);
        }
        let mut limbs: Vec<u64> = Vec::new();
        let mut i: usize = 0;
        while i < U512_LIMBS
            invariant
                i <= U512_LIMBS,
                self.limbs@.len() == U512_LIMBS,
                limbs@ =~= self.limbs@.take(i as int),
            decreases U512_LIMBS - i,
        {
            limbs.push(self.limbs[i]);
            i = i + 1;
        }
        proof {
            assert(limbs@ =~= self.limbs@);
        }
        U512 { limbs }
    }
}

impl View for U512 {
    type V = nat;

    closed spec fn view(&self) -> nat {
        limbs_value(self.limbs@)
    }
}

impl U512 {
    #[verifier::type_invariant]
    spec fn wf(self) -> bool {
        self.limbs@.len() == U512_LIMBS
    }

    /// The zero value.
    pub fn zero() -> (r: U512)
        ensures
            r@ == 0,
    {
        U512::from_u64(0)
    }

    /// The value `x`, widened to 512 bits.
    pub fn from_u64(x: u64) -> (r: U512)
        ensures
            r@ == x,
    {
        let mut limbs: Vec<u64> = Vec::new();
        limbs.push(x);
        let mut i: usize = 1;
        while i < U512_LIMBS
            invariant
                1 <= i <= U512_LIMBS,
                limbs@.len() == i,
                limbs@[0] == x,
                forall|j: int| 1 <= j < i ==> limbs@[j] == 0,
            decreases U512_LIMBS - i,
        {
            limbs.push(0);
            i = i + 1;
        }
        proof {
            lemma_value_zero(limbs@.drop_first());
        }
        U512 { limbs }
    }

    /// The value whose little-endian 64-bit limbs are `l`.
    pub fn from_limbs(l: &[u64; 8]) -> (r: U512)
        ensures
            r@ == limbs_value(l@),
    {
        let mut limbs: Vec<u64> = Vec::new();
        let mut i: usize = 0;
        while i < U512_LIMBS
            invariant
                i <= U512_LIMBS,
                limbs@ =~= l@.take(i as int),
            decreases U512_LIMBS - i,
        {
            limbs.push(l[i]);
            i = i + 1;
        }
        proof {
            assert(limbs@ =~= l@);
        }
        U512 { limbs }
    }

    /// The sum of `self` and `rhs`, or `None` when it would not fit in 512
    /// bits. Never wraps silently.
    pub fn checked_add(&self, rhs: &U512) -> (r: Option<U512>)
        ensures
            r matches Some(c) ==> c@ == self@ + rhs@,
            r is Some <==> self@ + rhs@ < u512_bound(),
    {
        proof {
            use_type_invariant(self);
            use_type_invariant(rhs);
        }
        let mut result: Vec<u64> = Vec::new();
        let mut carry: u64 = 0;
        let mut i: usize = 0;
        while i < U512_LIMBS
            invariant
                i <= U512_LIMBS,
                carry <= 1,
                self.limbs@.len() == U512_LIMBS,
                rhs.limbs@.len() == U512_LIMBS,
                result@.len() == i,
                limbs_value(result@) + carry * pow_base(i as nat) == limbs_value(
                    self.limbs@.take(i as int),
                ) + limbs_value(rhs.limbs@.take(i as int)),
            decreases U512_LIMBS - i,
        {
            let a = self.limbs[i];
            let b = rhs.limbs[i];
            let sum: u128 = a as u128 + b as u128 + carry as u128;
            let low: u64 = (sum % 0x1_0000_0000_0000_0000u128) as u64;
            let c: u64 = (sum / 0x1_0000_0000_0000_0000u128) as u64;
            proof {
                assert(sum == low + 0x1_0000_0000_0000_0000nat * c) by (nonlinear_arith)
                    requires
                        low == sum % 0x1_0000_0000_0000_0000u128,
                        c == sum / 0x1_0000_0000_0000_0000u128,
                        sum < 0x2_0000_0000_0000_0000u128,
                ;
                lemma_push_value(result@, low);
                lemma_prefix_value(self.limbs@, i as int);
                lemma_prefix_value(rhs.limbs@, i as int);
                let p = pow_base(i as nat);
                assert((sum as nat) * p == (low as nat) * p + c as nat * (0x1_0000_0000_0000_0000nat
                    * p)) by {
                    lemma_mul_distribute(low as nat, 0x1_0000_0000_0000_0000nat * (c as nat), p);
                    lemma_mul_associate(0x1_0000_0000_0000_0000nat, c as nat, p);
                    lemma_mul_associate(c as nat, 0x1_0000_0000_0000_0000nat, p);
                    assert(sum as nat == low as nat + 0x1_0000_0000_0000_0000nat * (c as nat));
                }
                assert((sum as nat) * p == (a as nat) * p + (b as nat) * p + (carry as nat) * p)
                    by {
                    lemma_mul_distribute(a as nat, (b as nat + carry as nat) as nat, p);
                    lemma_mul_distribute(b as nat, carry as nat, p);
                    assert(sum as nat == a as nat + b as nat + carry as nat);
                }
            }
            result.push(low);
            carry = c;
            i = i + 1;
        }
        proof {
            assert(self.limbs@.take(U512_LIMBS as int) =~= self.limbs@);
            assert(rhs.limbs@.take(U512_LIMBS as int) =~= rhs.limbs@);
            lemma_value_bound(result@);
        }
        if carry != 0 {
            None
        } else {
            Some(U512 { limbs: result })
        }
    }
}

} // verus!
