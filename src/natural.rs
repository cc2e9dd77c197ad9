use vstd::prelude::*;

verus! {

/// The base of a limb: a natural is held as 32-bit limbs, least significant
/// first.
pub open spec fn limb_base() -> nat {
    0x1_0000_0000
}

pub open spec fn base_pow(n: nat) -> nat
    decreases n,
{
    if n == 0 {
        1
    } else {
        limb_base() * base_pow((n - 1) as nat)
    }
}

/// The number that a sequence of limbs stands for.
pub open spec fn val(s: Seq<u32>) -> nat
    decreases s.len(),
{
    if s.len() == 0 {
        0
    } else {
        s[0] as nat + limb_base() * val(s.drop_first())
    }
}

proof fn lemma_base_pow_positive(n: nat)
    ensures
        base_pow(n) > 0,
    decreases n,
{
    if n > 0 {
        lemma_base_pow_positive((n - 1) as nat);
        assert(limb_base() * base_pow((n - 1) as nat) > 0) by (nonlinear_arith)
            requires
                base_pow((n - 1) as nat) > 0,
        ;
    }
}

proof fn lemma_val_push(s: Seq<u32>, x: u32)
    ensures
        val(s.push(x)) == val(s) + x * base_pow(s.len()),
    decreases s.len(),
{
    if s.len() == 0 {
        assert(s.push(x).drop_first() =~= Seq::<u32>::empty());
        assert(s.push(x)[0] == x);
        assert(val(s.push(x)) == x + limb_base() * val(Seq::<u32>::empty()));
        assert(base_pow(0) == 1);
    } else {
        let d = s.drop_first();
        assert(s.push(x).drop_first() =~= d.push(x));
        assert(s.push(x)[0] == s[0]);
        assert(val(s.push(x)) == s[0] + limb_base() * val(d.push(x)));
        lemma_val_push(d, x);
        let p = base_pow(d.len());
        assert(base_pow(s.len()) == limb_base() * p);
        let b = limb_base();
        let vd = val(d);
        assert(b * (vd + x * p) == b * vd + x * (b * p)) by (nonlinear_arith);
    }
}

proof fn lemma_val_bound(s: Seq<u32>)
    ensures
        val(s) < base_pow(s.len()),
    decreases s.len(),
{
    if s.len() > 0 {
        let d = s.drop_first();
        lemma_val_bound(d);
        let b = limb_base();
        let vd = val(d);
        let p = base_pow(d.len());
        let x = s[0] as nat;
        assert(x + b * vd < b * p) by (nonlinear_arith)
            requires
                x < b,
                vd < p,
                vd + 1 <= p,
        ;
    }
}

proof fn lemma_val_split(s: Seq<u32>, i: nat)
    requires
        i <= s.len(),
    ensures
        val(s) == val(s.subrange(0, i as int)) + base_pow(i) * val(s.subrange(i as int, s.len() as int)),
    decreases i,
{
    if i == 0 {
        assert(s.subrange(0, 0) =~= Seq::<u32>::empty());
        assert(val(s.subrange(0, 0)) == 0);
        assert(s.subrange(0, s.len() as int) =~= s);
        assert(base_pow(0) == 1);
    } else {
        let j = (i - 1) as nat;
        lemma_val_split(s, j);
        let hi = s.subrange(j as int, s.len() as int);
        assert(hi.drop_first() =~= s.subrange(i as int, s.len() as int));
        assert(hi[0] == s[j as int]);
        assert(s.subrange(0, i as int) =~= s.subrange(0, j as int).push(s[j as int]));
        lemma_val_push(s.subrange(0, j as int), s[j as int]);
        let p = base_pow(j);
        assert(base_pow(i) == limb_base() * p);
        let b = limb_base();
        let x = s[j as int] as nat;
        let t = val(s.subrange(i as int, s.len() as int));
        assert(val(hi) == x + b * t);
        assert(p * (x + b * t) == x * p + (b * p) * t) by (nonlinear_arith);
    }
}

/// The product of a natural and a machine word.
pub fn mul_small(a: &Vec<u32>, m: u64) -> (r: Vec<u32>)
    ensures
        val(r@) == val(a@) * m,
{
    let mut r: Vec<u32> = Vec::new();
    let mut carry: u128 = 0;
    let mut i: usize = 0;
    assert(a@.subrange(0, 0) =~= Seq::<u32>::empty());
    assert(r@ =~= Seq::<u32>::empty());
    assert(val(Seq::<u32>::empty()) == 0);
    while i < a.len()
        invariant
            i <= a@.len(),
            r@.len() == i,
            carry < 0x1_0000_0000_0000_0000,
            val(a@.subrange(0, i as int)) * m == val(r@) + carry * base_pow(i as nat),
        decreases a.len() - i,
    {
        let ai = a[i];
        assert((ai as u128) * (m as u128) + carry <= 0xffff_ffff * 0xffff_ffff_ffff_ffffu128
            + 0xffff_ffff_ffff_ffffu128) by (nonlinear_arith)
            requires
                ai <= 0xffff_ffffu128,
                m <= 0xffff_ffff_ffff_ffffu128,
                carry <= 0xffff_ffff_ffff_ffffu128,
        ;
        let x: u128 = (ai as u128) * (m as u128) + carry;
        let lo = (x % 0x1_0000_0000) as u32;
        let hi: u128 = x / 0x1_0000_0000;
        proof {
            let p = base_pow(i as nat);
            let b = limb_base();
            assert(a@.subrange(0, i + 1) =~= a@.subrange(0, i as int).push(ai));
            lemma_val_push(a@.subrange(0, i as int), ai);
            lemma_val_push(r@, lo);
            assert(base_pow((i + 1) as nat) == b * p);
            assert(x == lo + b * hi);
            let va = val(a@.subrange(0, i as int));
            let vr = val(r@);
            assert((va + ai * p) * m == vr + lo * p + hi * (b * p)) by (nonlinear_arith)
                requires
                    va * m == vr + carry * p,
                    x == ai * m + carry,
                    x == lo + b * hi,
            ;
        }
        r.push(lo);
        carry = hi;
        i += 1;
    }
    assert(a@.subrange(0, a@.len() as int) =~= a@);
    let c0 = (carry % 0x1_0000_0000) as u32;
    let c1 = (carry / 0x1_0000_0000) as u32;
    proof {
        let n = r@.len();
        lemma_val_push(r@, c0);
        lemma_val_push(r@.push(c0), c1);
        let p = base_pow(n);
        assert(base_pow(n + 1) == limb_base() * p);
        let b = limb_base();
        assert(carry == c0 + b * c1);
        assert(c0 * p + c1 * (b * p) == carry * p) by (nonlinear_arith)
            requires
                carry == c0 + b * c1,
        ;
    }
    r.push(c0);
    r.push(c1);
    r
}

fn pad_to(a: &mut Vec<u32>, len: usize)
    ensures
        val(final(a)@) == val(old(a)@),
        final(a)@.len() == if old(a)@.len() >= len {
            old(a)@.len()
        } else {
            len as nat
        },
{
    while a.len() < len
        invariant
            val(a@) == val(old(a)@),
            a@.len() >= old(a)@.len(),
            old(a)@.len() >= len ==> a@.len() == old(a)@.len(),
            old(a)@.len() < len ==> a@.len() <= len,
        decreases len - a.len(),
    {
        proof {
            lemma_val_push(a@, 0);
        }
        a.push(0);
    }
}

/// Whether the first natural is smaller than the second.
pub fn less_than(a: &Vec<u32>, b: &Vec<u32>) -> (r: bool)
    ensures
        r == (val(a@) < val(b@)),
{
    let mut x: Vec<u32> = a.clone();
    let mut y: Vec<u32> = b.clone();
    assert(x@ =~= a@);
    assert(y@ =~= b@);
    let lx = x.len();
    let ly = y.len();
    pad_to(&mut x, ly);
    pad_to(&mut y, lx);
    let n = x.len();
    let mut i: usize = n;
    assert(x@.subrange(n as int, n as int) =~= y@.subrange(n as int, n as int));
    while i > 0
        invariant
            x@.len() == n,
            y@.len() == n,
            i <= n,
            val(x@) == val(a@),
            val(y@) == val(b@),
            x@.subrange(i as int, n as int) == y@.subrange(i as int, n as int),
        decreases i,
    {
        let xi = x[i - 1];
        let yi = y[i - 1];
        if xi != yi {
            proof {
                let j = (i - 1) as nat;
                lemma_val_split(x@, j);
                lemma_val_split(y@, j);
                let hx = x@.subrange(j as int, n as int);
                let hy = y@.subrange(j as int, n as int);
                assert(hx.drop_first() =~= x@.subrange(i as int, n as int));
                assert(hy.drop_first() =~= y@.subrange(i as int, n as int));
                assert(hx[0] == xi);
                assert(hy[0] == yi);
                lemma_val_bound(x@.subrange(0, j as int));
                lemma_val_bound(y@.subrange(0, j as int));
                let p = base_pow(j);
                let bb = limb_base();
                let t = val(x@.subrange(i as int, n as int));
                let lx2 = val(x@.subrange(0, j as int));
                let ly2 = val(y@.subrange(0, j as int));
                let xv = xi as nat;
                let yv = yi as nat;
                if xv < yv {
                    assert(lx2 + p * (xv + bb * t) < ly2 + p * (yv + bb * t)) by (nonlinear_arith)
                        requires
                            lx2 < p,
                            xv + 1 <= yv,
                    ;
                } else {
                    assert(ly2 + p * (yv + bb * t) < lx2 + p * (xv + bb * t)) by (nonlinear_arith)
                        requires
                            ly2 < p,
                            yv + 1 <= xv,
                    ;
                }
            }
            return xi < yi;
        }
        assert(x@.subrange(i - 1, n as int) =~= x@.subrange(i as int, n as int).insert(0, xi));
        assert(y@.subrange(i - 1, n as int) =~= y@.subrange(i as int, n as int).insert(0, yi));
        i -= 1;
    }
    assert(x@ =~= x@.subrange(0, n as int));
    assert(y@ =~= y@.subrange(0, n as int));
    false
}

} // verus!
