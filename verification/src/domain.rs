//! The evaluation domains of one proof.
//!
//! From the AIR's trace length `L`, blowup factor `b` and coset offset `h`
//! the prover derives the interpolation domain (the `L`-th roots of unity)
//! and the low-degree-extension domain (the coset `h * w^i` of the
//! `L * b`-th roots of unity). The coset is disjoint from the trace
//! subgroup whenever `h` is outside the full `L * b` root subgroup.

use vstd::prelude::*;
use vstd::arithmetic::power::pow;
use vstd::arithmetic::power::{lemma_pow_multiplies, lemma_pow_mod_noop, lemma1_pow,
    lemma_pow_distributes};
use vstd::arithmetic::power2::{pow2, lemma_pow2_adds, lemma_pow2_strictly_increases,
    lemma2_to64, lemma2_to64_rest};
use vstd::arithmetic::div_mod::{lemma_small_mod, lemma_mul_mod_noop_general, lemma_mod_twice};
use crate::field::{Fe, all_wf, vals, prime, pow_mod, fe_from_u64, fe_pow, fe_mul, fe_eq};
use crate::poly::{omega_of, two_adic_generator, get_root_of_unity};
use crate::air::{Air, AirContext};
use crate::errors::ProverError;

verus! {

/// Composing two modular powers multiplies the exponents.
pub proof fn lemma_pow_mod_compose(x: int, m: nat, n: nat)
    ensures
        pow_mod(pow_mod(x, m), n) == pow_mod(x, m * n),
{
    lemma_pow_mod_noop(pow(x, m), n, prime());
    lemma_pow_multiplies(x, m, n);
}

/// Equal residues have equal modular powers.
pub proof fn lemma_pow_mod_congruent(a: int, b: int, e: nat)
    requires
        a % prime() == b % prime(),
    ensures
        pow_mod(a, e) == pow_mod(b, e),
{
    lemma_pow_mod_noop(a, e, prime());
    lemma_pow_mod_noop(b, e, prime());
}

/// Powers of two are distinct.
pub proof fn lemma_pow2_injective(a: nat, b: nat)
    requires
        pow2(a) == pow2(b),
    ensures
        a == b,
{
    if a < b {
        lemma_pow2_strictly_increases(a, b);
    }
    if b < a {
        lemma_pow2_strictly_increases(b, a);
    }
}

/// The interpolation and low-degree-extension domains of one proof.
pub struct Domain {
    /// `log2` of the trace length.
    pub root_order: u32,
    /// `log2` of the LDE domain size.
    pub lde_root_order: u32,
    /// The trace length `L`.
    pub interpolation_domain_size: usize,
    /// The blowup factor `b`.
    pub blowup_factor: usize,
    /// The coset offset `h`.
    pub coset_offset: Fe,
    /// A primitive `L`-th root of unity `g`.
    pub trace_primitive_root: Fe,
    /// A primitive `L * b`-th root of unity `w`.
    pub lde_primitive_root: Fe,
    /// The trace subgroup `g^i`, for `i` below `L`.
    pub trace_roots_of_unity: Vec<Fe>,
    /// The LDE coset `h * w^i`, for `i` below `L * b`.
    pub lde_roots_of_unity_coset: Vec<Fe>,
}

impl Domain {
    /// The size of the low-degree-extension domain.
    pub open spec fn lde_size(self) -> int {
        self.interpolation_domain_size * self.blowup_factor
    }

    /// The `i`-th LDE coset point `h * w^i`.
    pub open spec fn coset_point(self, i: int) -> int {
        (self.coset_offset.val() * pow_mod(omega_of(self.lde_root_order as nat), i as nat))
            % prime()
    }

    /// The `i`-th trace subgroup point `g^i`.
    pub open spec fn trace_point(self, i: int) -> int {
        pow_mod(omega_of(self.root_order as nat), i as nat)
    }

    pub open spec fn wf(self) -> bool {
        &&& 1 <= self.root_order <= self.lde_root_order <= 62
        &&& self.interpolation_domain_size == pow2(self.root_order as nat)
        &&& self.lde_size() == pow2(self.lde_root_order as nat)
        &&& self.blowup_factor == pow2((self.lde_root_order - self.root_order) as nat)
        &&& self.coset_offset.wf()
        &&& self.coset_offset.val() != 0
        &&& pow_mod(self.coset_offset.val(), pow2(self.lde_root_order as nat)) != 1
        &&& self.trace_primitive_root.wf()
        &&& self.trace_primitive_root.val() == omega_of(self.root_order as nat)
        &&& self.lde_primitive_root.wf()
        &&& self.lde_primitive_root.val() == omega_of(self.lde_root_order as nat)
        &&& pow_mod(self.lde_primitive_root.val(), pow2(self.lde_root_order as nat)) == 1
        &&& pow_mod(self.trace_primitive_root.val(), pow2(self.root_order as nat)) == 1
        &&& all_wf(self.trace_roots_of_unity@)
        &&& self.trace_roots_of_unity@.len() == self.interpolation_domain_size
        &&& forall|i: int| 0 <= i < self.trace_roots_of_unity@.len()
            ==> vals(self.trace_roots_of_unity@)[i]
                == pow_mod(omega_of(self.root_order as nat), i as nat)
        &&& all_wf(self.lde_roots_of_unity_coset@)
        &&& self.lde_roots_of_unity_coset@.len() == self.lde_size()
        &&& forall|i: int| 0 <= i < self.lde_roots_of_unity_coset@.len()
            ==> vals(self.lde_roots_of_unity_coset@)[i]
                == (self.coset_offset.val() * pow_mod(omega_of(self.lde_root_order as nat),
                    i as nat)) % prime()
    }
}

/// One pair of binary logarithms witnessing that the AIR parameters admit
/// a domain.
pub open spec fn domain_orders_witness(ctx: AirContext, k: nat, j: nat) -> bool {
    &&& ctx.trace_length == pow2(k)
    &&& ctx.options.blowup_factor == pow2(j)
    &&& 1 <= k
    &&& k + j <= 62
    &&& pow2((k + j) as nat) <= usize::MAX
    &&& ctx.options.coset_offset != 0
    &&& pow_mod(ctx.options.coset_offset as int, pow2((k + j) as nat)) != 1
}

/// The AIR parameters admit a domain: trace length and blowup factor are
/// powers of two whose product fits the machine, and the coset offset is a
/// non-zero element outside the `L * b`-th roots of unity.
pub open spec fn domain_config_ok(ctx: AirContext) -> bool {
    exists|k: nat, j: nat| #[trigger] domain_orders_witness(ctx, k, j)
}

/// The exact binary logarithm of `n`, when `n` is a power of two no larger
/// than `2^62`.
fn log2_exact(n: usize) -> (r: Option<u32>)
    ensures
        match r {
            Some(k) => n == pow2(k as nat) && k <= 62,
            None => forall|k: nat| k <= 62 ==> n != pow2(k),
        },
{
    let n64: u64 = n as u64;
    let mut k: u32 = 0;
    let mut m: u64 = 1;
    proof {
        lemma2_to64();
        lemma2_to64_rest();
    }
    while m < n64 && k < 62
        invariant
            0 <= k <= 62,
            n64 == n,
            m == pow2(k as nat),
            forall|u: nat| u < k ==> pow2(u) < n64,
        decreases 62 - k,
    {
        proof {
            lemma_pow2_adds(k as nat, 1);
            lemma2_to64();
            lemma2_to64_rest();
            assert(pow2((k + 1) as nat) == m * 2);
            if (k as nat) + 1 < 62 {
                lemma_pow2_strictly_increases((k + 1) as nat, 62);
            }
            assert(m * 2 <= pow2(62));
        }
        m = m * 2;
        k = k + 1;
    }
    if m == n64 {
        Some(k)
    } else if m > n64 {
        proof {
            assert forall|u: nat| u <= 62 implies n != pow2(u) by {
                if u > k {
                    lemma_pow2_strictly_increases(k as nat, u);
                }
            }
        }
        None
    } else {
        proof {
            assert forall|u: nat| u <= 62 implies n != pow2(u) by {
                if u < 62 {
                    lemma_pow2_strictly_increases(u, 62);
                }
            }
        }
        None
    }
}

impl Domain {
    /// Derive the domains from the AIR parameters. Fails exactly when the
    /// parameters admit no domain (`domain_config_ok`).
    pub fn new<A: Air>(air: &A) -> (r: Result<Domain, ProverError>)
        requires
            air.wf(),
        ensures
            match r {
                Ok(d) => {
                    &&& d.wf()
                    &&& domain_config_ok(air.ctx_spec())
                    &&& d.interpolation_domain_size == air.ctx_spec().trace_length
                    &&& d.blowup_factor == air.ctx_spec().options.blowup_factor as int
                    &&& d.coset_offset.val() == air.ctx_spec().options.coset_offset as int
                    &&& d.trace_primitive_root.val()
                        == pow_mod(d.lde_primitive_root.val(), d.blowup_factor as nat)
                },
                Err(e) => {
                    &&& !domain_config_ok(air.ctx_spec())
                    &&& e == ProverError::Configuration
                },
            },
    {
        let ctx = air.context();
        let ghost ctxs = air.ctx_spec();
        let l: usize = ctx.trace_length;
        let b: usize = ctx.options.blowup_factor as usize;
        let h_u: u64 = ctx.options.coset_offset;

        let k = match log2_exact(l) {
            Some(k) => k,
            None => {
                proof {
                    assert forall|k0: nat, j0: nat|
                        !domain_orders_witness(ctxs, k0, j0) by {}
                }
                return Err(ProverError::Configuration);
            },
        };
        let j = match log2_exact(b) {
            Some(j) => j,
            None => {
                proof {
                    assert forall|k0: nat, j0: nat|
                        !domain_orders_witness(ctxs, k0, j0) by {}
                }
                return Err(ProverError::Configuration);
            },
        };
        if k < 1 || k + j > 62 || h_u == 0 {
            proof {
                assert forall|k0: nat, j0: nat| !domain_orders_witness(ctxs, k0, j0) by {
                    if ctxs.trace_length == pow2(k0) && ctxs.options.blowup_factor == pow2(j0) {
                        lemma_pow2_injective(k0, k as nat);
                        lemma_pow2_injective(j0, j as nat);
                    }
                }
            }
            return Err(ProverError::Configuration);
        }
        proof {
            lemma_pow2_adds(k as nat, j as nat);
            lemma2_to64();
            lemma2_to64_rest();
            if ((k + j) as nat) < 62 {
                lemma_pow2_strictly_increases((k + j) as nat, 62);
            }
            assert((l as int) * (b as int) == pow2((k + j) as nat));
        }
        let n64: u64 = (l as u64) * (b as u64);
        if n64 > usize::MAX as u64 {
            proof {
                assert forall|k0: nat, j0: nat| !domain_orders_witness(ctxs, k0, j0) by {
                    if ctxs.trace_length == pow2(k0) && ctxs.options.blowup_factor == pow2(j0) {
                        lemma_pow2_injective(k0, k as nat);
                        lemma_pow2_injective(j0, j as nat);
                    }
                }
            }
            return Err(ProverError::Configuration);
        }
        let n: usize = n64 as usize;
        let h = fe_from_u64(h_u);
        let hn = fe_pow(&h, n64);
        let one = fe_from_u64(1);
        if fe_eq(&hn, &one) {
            proof {
                assert forall|k0: nat, j0: nat| !domain_orders_witness(ctxs, k0, j0) by {
                    if ctxs.trace_length == pow2(k0) && ctxs.options.blowup_factor == pow2(j0) {
                        lemma_pow2_injective(k0, k as nat);
                        lemma_pow2_injective(j0, j as nat);
                    }
                }
            }
            return Err(ProverError::Configuration);
        }

        let lde_order: u32 = k + j;
        let w = get_root_of_unity(lde_order);
        let g = get_root_of_unity(k);
        proof {
            // g = w^b: both are powers of the canonical two-adic generator.
            let a = two_adic_generator();
            lemma_pow_mod_compose(a, pow2((192 - lde_order) as nat), pow2(j as nat));
            lemma_pow2_adds((192 - lde_order) as nat, j as nat);
            assert(pow_mod(w.val(), pow2(j as nat)) == omega_of(k as nat));
        }

        let mut trace_roots: Vec<Fe> = Vec::new();
        let mut i: usize = 0;
        while i < l
            invariant
                0 <= i <= l,
                g.wf(),
                g.val() == omega_of(k as nat),
                all_wf(trace_roots@),
                trace_roots@.len() == i,
                forall|u: int| 0 <= u < i ==> vals(trace_roots@)[u]
                    == pow_mod(omega_of(k as nat), u as nat),
            decreases l - i,
        {
            let e = fe_pow(&g, i as u64);
            let ghost tr_old = trace_roots@;
            trace_roots.push(e);
            proof {
                assert forall|u: int| 0 <= u < trace_roots@.len() implies
                    vals(trace_roots@)[u] == pow_mod(omega_of(k as nat), u as nat) by {
                    assert(vals(trace_roots@)[u] == trace_roots@[u].val());
                    if u < i {
                        assert(trace_roots@[u] == tr_old[u]);
                        assert(vals(tr_old)[u] == tr_old[u].val());
                    }
                }
            }
            i = i + 1;
        }

        let mut coset: Vec<Fe> = Vec::new();
        let mut i2: usize = 0;
        while i2 < n
            invariant
                0 <= i2 <= n,
                w.wf(),
                w.val() == omega_of(lde_order as nat),
                h.wf(),
                all_wf(coset@),
                coset@.len() == i2,
                forall|u: int| 0 <= u < i2 ==> vals(coset@)[u]
                    == (h.val() * pow_mod(omega_of(lde_order as nat), u as nat)) % prime(),
            decreases n - i2,
        {
            let e = fe_mul(&h, &fe_pow(&w, i2 as u64));
            let ghost cs_old = coset@;
            coset.push(e);
            proof {
                assert forall|u: int| 0 <= u < coset@.len() implies vals(coset@)[u]
                    == (h.val() * pow_mod(omega_of(lde_order as nat), u as nat)) % prime() by {
                    assert(vals(coset@)[u] == coset@[u].val());
                    if u < i2 {
                        assert(coset@[u] == cs_old[u]);
                        assert(vals(cs_old)[u] == cs_old[u].val());
                    }
                }
            }
            i2 = i2 + 1;
        }

        let d = Domain {
            root_order: k,
            lde_root_order: lde_order,
            interpolation_domain_size: l,
            blowup_factor: b,
            coset_offset: h,
            trace_primitive_root: g,
            lde_primitive_root: w,
            trace_roots_of_unity: trace_roots,
            lde_roots_of_unity_coset: coset,
        };
        proof {
            assert(domain_orders_witness(ctxs, k as nat, j as nat));
        }
        Ok(d)
    }
}

/// Every LDE coset element is outside the trace subgroup: its `L`-th power
/// is not one. This needs the offset to be outside the full group of
/// `L * b`-th roots of unity, which the domain constructor checks.
pub proof fn lemma_coset_disjoint_from_trace(d: Domain, i: int)
    requires
        d.wf(),
        0 <= i < d.lde_roots_of_unity_coset@.len(),
    ensures
        pow_mod(vals(d.lde_roots_of_unity_coset@)[i], pow2(d.root_order as nat)) != 1,
{
    let p = prime();
    let h = d.coset_offset.val();
    let w = d.lde_primitive_root.val();
    let lk = d.root_order as nat;
    let nk = d.lde_root_order as nat;
    let jk = (d.lde_root_order - d.root_order) as nat;
    let ll = pow2(lk);
    let nn = pow2(nk);
    let bb = pow2(jk);
    let x = vals(d.lde_roots_of_unity_coset@)[i];
    let u = pow(w, i as nat);

    lemma_pow2_adds(lk, jk);
    assert(nn == ll * bb);

    // x is congruent to h * w^i, so their modular powers agree.
    assert(x == (h * pow_mod(w, i as nat)) % p);
    lemma_mul_mod_noop_general(h, u, p);
    lemma_mod_twice(h * (u % p), p);
    assert(x % p == (h * u) % p) by {
        assert(x == (h * (u % p)) % p);
    }
    lemma_pow_mod_congruent(x, h * u, nn);

    // (h * w^i)^N = h^N * (w^N)^i = h^N, since w^N = 1.
    lemma_pow_distributes(h, u, nn);
    lemma_pow_multiplies(w, i as nat, nn);
    lemma_pow_multiplies(w, nn, i as nat);
    assert(pow(u, nn) == pow(pow(w, nn), i as nat));
    lemma_mul_mod_noop_general(pow(h, nn), pow(u, nn), p);
    lemma_pow_mod_noop(pow(w, nn), i as nat, p);
    assert(pow(u, nn) % p == pow(pow(w, nn) % p, i as nat) % p);
    assert(pow(w, nn) % p == 1) by {
        assert(pow_mod(w, nn) == 1);
    }
    lemma1_pow(i as nat);
    assert(pow(1, i as nat) == 1);
    lemma_small_mod(1, p as nat);
    assert(pow(u, nn) % p == 1);
    assert(pow_mod(h * u, nn) == ((pow(h, nn) % p) * 1) % p);
    lemma_mod_twice(pow(h, nn), p);
    assert(pow_mod(x, nn) == pow_mod(h, nn));

    // If x^L were 1, then x^N = (x^L)^b = 1, contradicting h^N != 1.
    if pow_mod(x, ll) == 1 {
        lemma_pow_mod_compose(x, ll, bb);
        assert(pow_mod(pow_mod(x, ll), bb) == pow_mod(x, ll * bb));
        assert(ll * bb == nn) by {
            lemma_pow2_adds(lk, jk);
        }
        lemma1_pow(bb);
        lemma_small_mod(1, p as nat);
        assert(pow_mod(1, bb) == 1);
        assert(pow_mod(h, nn) == 1);
        assert(false);
    }
}

} // verus!
