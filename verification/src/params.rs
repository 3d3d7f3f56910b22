//! The benchmark parameter space: one `Spec` per point of the sweep, the
//! pure generator that enumerates the sweep, and the flat record type a
//! run hands back to the driver.

use vstd::prelude::*;

verus! {

/// One point in the benchmark parameter space: how many relay processes
/// to create, how many messages the root sends, how many trains run in
/// parallel, and the synthetic payload length.
#[derive(Clone, Copy, Debug, PartialEq, Eq, Structural)]
pub struct Spec {
    pub procs: u32,
    pub messages: u32,
    pub parallel: u32,
    pub size: u32,
}

/// Pairs an implementation label with the `Spec` it executed.
#[derive(Clone, Debug)]
pub struct BenchResult {
    pub name: String,
    pub spec: Spec,
}

/// `base^exp` over the natural numbers.
pub open spec fn pow_nat(base: nat, exp: nat) -> nat
    decreases exp,
{
    if exp == 0 {
        1
    } else {
        base * pow_nat(base, (exp - 1) as nat)
    }
}

/// For a positive base, the power grows monotonically with the exponent.
pub proof fn lemma_pow_nat_monotone(base: nat, i: nat, j: nat)
    requires
        1 <= base,
        i <= j,
    ensures
        pow_nat(base, i) <= pow_nat(base, j),
    decreases j,
{
    if i < j {
        lemma_pow_nat_monotone(base, i, (j - 1) as nat);
        assert(pow_nat(base, j) == base * pow_nat(base, (j - 1) as nat));
        assert(base * pow_nat(base, (j - 1) as nat) >= 1 * pow_nat(base, (j - 1) as nat))
            by (nonlinear_arith)
            requires 1 <= base,
        ;
    }
}

/// The largest sweep bound for which every generated field fits in a
/// `u32`: `5^14` already overflows.
pub const SWEEP_LIMIT_MAX: u32 = 13;

/// Powers of five up to the sweep bound stay below `u32::MAX`.
pub proof fn lemma_sweep_pows_fit(e: nat)
    requires
        e <= 13,
    ensures
        pow_nat(4, e) <= u32::MAX,
        pow_nat(5, e) <= u32::MAX,
        pow_nat(2, e) <= u32::MAX,
{
    reveal_with_fuel(pow_nat, 15);
    assert(pow_nat(4, 13) == 67108864);
    assert(pow_nat(5, 13) == 1220703125);
    assert(pow_nat(2, 13) == 8192);
    lemma_pow_nat_monotone(4, e, 13);
    lemma_pow_nat_monotone(5, e, 13);
    lemma_pow_nat_monotone(2, e, 13);
}

/// Exponentiation by repeated multiplication.
pub fn pow_u32(base: u32, exp: u32) -> (r: u32)
    requires
        1 <= base,
        pow_nat(base as nat, exp as nat) <= u32::MAX,
    ensures
        r == pow_nat(base as nat, exp as nat),
{
    let mut r: u32 = 1;
    let mut i: u32 = 0;
    while i < exp
        invariant
            i <= exp,
            1 <= base,
            r == pow_nat(base as nat, i as nat),
            pow_nat(base as nat, exp as nat) <= u32::MAX,
        decreases exp - i,
    {
        proof {
            lemma_pow_nat_monotone(base as nat, (i + 1) as nat, exp as nat);
            assert(pow_nat(base as nat, (i + 1) as nat) == base * pow_nat(base as nat, i as nat));
        }
        r = r * base;
        i = i + 1;
    }
    r
}

/// How many specs a sweep bounded by `k` holds: `k * k * (k + 1)`.
pub open spec fn sweep_len(k: int) -> int {
    k * k * (k + 1)
}

/// The flat position of the sweep entry with exponents `(a, b, c)` when
/// the bound is `k`: `a` varies outermost, then `b`, then `c`.
pub open spec fn sweep_index(k: int, a: int, b: int, c: int) -> int {
    (a - 1) * (k * (k + 1)) + (b - 1) * (k + 1) + c
}

/// The sweep entry with exponents `(a, b, c)`: process counts on the
/// powers of four, message counts on the powers of five, parallelism on
/// the powers of two, and a fixed payload length of 100.
pub open spec fn sweep_spec(a: int, b: int, c: int) -> Spec {
    Spec {
        procs: pow_nat(4, a as nat) as u32,
        messages: pow_nat(5, b as nat) as u32,
        parallel: pow_nat(2, c as nat) as u32,
        size: 100,
    }
}

/// A sweep entry's position lies inside the sweep, and entries in
/// lexicographic order of their exponents get increasing positions.
proof fn lemma_sweep_index_lex(k: int, a: int, b: int, c: int, a2: int, b2: int, c2: int)
    by (nonlinear_arith)
    requires
        1 <= a <= k,
        1 <= b <= k,
        0 <= c <= k,
        1 <= a2 <= k + 1,
        1 <= b2 <= k + 1,
        0 <= c2 <= k + 1,
        a < a2 || (a == a2 && b < b2) || (a == a2 && b == b2 && c < c2),
    ensures
        0 <= sweep_index(k, a, b, c),
        sweep_index(k, a, b, c) < sweep_index(k, a2, b2, c2),
{
}

/// The outer exponent encoded at flat position `i` of a sweep bounded
/// by `k`; with `sweep_exp_b` and `sweep_exp_c` it inverts
/// `sweep_index`.
pub open spec fn sweep_exp_a(k: int, i: int) -> int {
    i / (k * (k + 1)) + 1
}

/// The middle exponent encoded at flat position `i`.
pub open spec fn sweep_exp_b(k: int, i: int) -> int {
    (i % (k * (k + 1))) / (k + 1) + 1
}

/// The inner exponent encoded at flat position `i`.
pub open spec fn sweep_exp_c(k: int, i: int) -> int {
    (i % (k * (k + 1))) % (k + 1)
}

/// Law: distinct exponent triples occupy distinct sweep positions — no
/// combination is enumerated twice.
pub proof fn lemma_sweep_index_injective(
    k: int,
    a: int,
    b: int,
    c: int,
    a2: int,
    b2: int,
    c2: int,
)
    requires
        1 <= a <= k,
        1 <= b <= k,
        0 <= c <= k,
        1 <= a2 <= k,
        1 <= b2 <= k,
        0 <= c2 <= k,
        !(a == a2 && b == b2 && c == c2),
    ensures
        sweep_index(k, a, b, c) != sweep_index(k, a2, b2, c2),
{
    if a < a2 || (a == a2 && b < b2) || (a == a2 && b == b2 && c < c2) {
        lemma_sweep_index_lex(k, a, b, c, a2, b2, c2);
    } else {
        lemma_sweep_index_lex(k, a2, b2, c2, a, b, c);
    }
}

/// Law: every position inside the sweep decodes to an in-range exponent
/// triple whose index is that position.  With the injectivity above the
/// index map is a bijection, so the sweep holds exactly the
/// `k * k * (k + 1)` combinations, each once.
pub proof fn lemma_sweep_index_surjective(k: int, i: int)
    requires
        1 <= k,
        0 <= i < sweep_len(k),
    ensures
        1 <= sweep_exp_a(k, i) <= k,
        1 <= sweep_exp_b(k, i) <= k,
        0 <= sweep_exp_c(k, i) <= k,
        sweep_index(k, sweep_exp_a(k, i), sweep_exp_b(k, i), sweep_exp_c(k, i)) == i,
{
    let q = k * (k + 1);
    assert(q >= 2) by (nonlinear_arith)
        requires
            1 <= k,
            q == k * (k + 1),
    ;
    assert(k * k * (k + 1) == k * (k * (k + 1))) by (nonlinear_arith);
    assert(sweep_len(k) == k * q);
    vstd::arithmetic::div_mod::lemma_fundamental_div_mod(i, q);
    vstd::arithmetic::div_mod::lemma_mod_bound(i, q);
    let aq = i / q;
    let r = i % q;
    assert(0 <= aq && aq <= k - 1) by (nonlinear_arith)
        requires
            i == q * aq + r,
            0 <= r < q,
            0 <= i < k * q,
            q >= 2,
    ;
    vstd::arithmetic::div_mod::lemma_fundamental_div_mod(r, k + 1);
    vstd::arithmetic::div_mod::lemma_mod_bound(r, k + 1);
    let bq = r / (k + 1);
    let c = r % (k + 1);
    assert(0 <= bq && bq <= k - 1) by (nonlinear_arith)
        requires
            r == (k + 1) * bq + c,
            0 <= c < k + 1,
            0 <= r < q,
            q == k * (k + 1),
            1 <= k,
    ;
    assert(aq * (k * (k + 1)) + bq * (k + 1) + c == i) by (nonlinear_arith)
        requires
            i == q * aq + r,
            r == (k + 1) * bq + c,
            q == k * (k + 1),
    ;
    assert(sweep_index(k, aq + 1, bq + 1, c) == aq * (k * (k + 1)) + bq * (k + 1) + c);
}

/// Law: in a well-formed sweep the entry at any position is the spec of
/// the triple that position decodes to — the completeness direction of
/// the enumeration.
pub proof fn lemma_sweep_entry_at(s: Seq<Spec>, k: int, i: int)
    requires
        sweep_post(s, k),
        1 <= k,
        0 <= i < s.len(),
    ensures
        s[i] == sweep_spec(sweep_exp_a(k, i), sweep_exp_b(k, i), sweep_exp_c(k, i)),
{
    lemma_sweep_index_surjective(k, i);
    assert(s[sweep_index(k, sweep_exp_a(k, i), sweep_exp_b(k, i), sweep_exp_c(k, i))]
        == sweep_spec(sweep_exp_a(k, i), sweep_exp_b(k, i), sweep_exp_c(k, i)));
}

/// The whole deterministic sweep for the bound `limit`: every combination
/// `procs = 4^a, messages = 5^b, parallel = 2^c` with `a, b` in `1..=limit`
/// and `c` in `0..=limit`, enumerated with `a` outermost and `c` innermost.
pub fn generate_specs(limit: u32) -> (v: Vec<Spec>)
    requires
        limit <= SWEEP_LIMIT_MAX,
    ensures
        v@.len() == sweep_len(limit as int),
        forall|a: int, b: int, c: int|
            1 <= a <= limit && 1 <= b <= limit && 0 <= c <= limit
                ==> #[trigger] v@[sweep_index(limit as int, a, b, c)] == sweep_spec(a, b, c),
{
    let k = limit;
    let ghost ki: int = k as int;
    let mut v: Vec<Spec> = Vec::new();
    let mut a: u32 = 1;
    while a <= k
        invariant
            k <= 13,
            1 <= a <= k + 1,
            v@.len() == sweep_index(ki, a as int, 1, 0),
            ki == k as int,
            forall|a2: int, b2: int, c2: int|
                1 <= a2 <= ki && 1 <= b2 <= ki && 0 <= c2 <= ki && a2 < a as int
                    ==> #[trigger] v@[sweep_index(ki, a2, b2, c2)] == sweep_spec(a2, b2, c2),
        decreases k + 1 - a,
    {
        let mut b: u32 = 1;
        while b <= k
            invariant
                k <= 13,
                1 <= a <= k,
                1 <= b <= k + 1,
                v@.len() == sweep_index(ki, a as int, b as int, 0),
                ki == k as int,
                forall|a2: int, b2: int, c2: int|
                    1 <= a2 <= ki && 1 <= b2 <= ki && 0 <= c2 <= ki
                        && (a2 < a as int || (a2 == a as int && b2 < b as int))
                        ==> #[trigger] v@[sweep_index(ki, a2, b2, c2)] == sweep_spec(a2, b2, c2),
            decreases k + 1 - b,
        {
            let mut c: u32 = 0;
            while c <= k
                invariant
                    k <= 13,
                    1 <= a <= k,
                    1 <= b <= k,
                    0 <= c <= k + 1,
                    v@.len() == sweep_index(ki, a as int, b as int, c as int),
                    ki == k as int,
                    forall|a2: int, b2: int, c2: int|
                        1 <= a2 <= ki && 1 <= b2 <= ki && 0 <= c2 <= ki
                            && (a2 < a as int || (a2 == a as int && b2 < b as int)
                                || (a2 == a as int && b2 == b as int && c2 < c as int))
                            ==> #[trigger] v@[sweep_index(ki, a2, b2, c2)]
                                == sweep_spec(a2, b2, c2),
                decreases k + 1 - c,
            {
                proof {
                    lemma_sweep_pows_fit(a as nat);
                    lemma_sweep_pows_fit(b as nat);
                    lemma_sweep_pows_fit(c as nat);
                }
                let entry = Spec {
                    procs: pow_u32(4, a),
                    messages: pow_u32(5, b),
                    parallel: pow_u32(2, c),
                    size: 100,
                };
                proof {
                    assert(entry == sweep_spec(a as int, b as int, c as int));
                    lemma_sweep_index_lex(
                        ki, a as int, b as int, c as int, ki + 1, 1, 0,
                    );
                }
                v.push(entry);
                c = c + 1;
                proof {
                    assert(sweep_index(ki, a as int, b as int, c as int)
                        == sweep_index(ki, a as int, b as int, (c - 1) as int) + 1);
                    assert forall|a2: int, b2: int, c2: int|
                        1 <= a2 <= ki && 1 <= b2 <= ki && 0 <= c2 <= ki
                            && (a2 < a as int || (a2 == a as int && b2 < b as int)
                                || (a2 == a as int && b2 == b as int && c2 < c as int))
                        implies #[trigger] v@[sweep_index(ki, a2, b2, c2)]
                            == sweep_spec(a2, b2, c2) by {
                        if a2 == a as int && b2 == b as int && c2 == c as int - 1 {
                        } else {
                            lemma_sweep_index_lex(
                                ki, a2, b2, c2, a as int, b as int, c as int - 1,
                            );
                        }
                    }
                }
            }
            b = b + 1;
            proof {
                assert(sweep_index(ki, a as int, b as int, 0)
                    == sweep_index(ki, a as int, (b - 1) as int, ki + 1))
                    by (nonlinear_arith)
                    requires ki == k as int, 1 <= b,
                ;
            }
        }
        a = a + 1;
        proof {
            assert(sweep_index(ki, a as int, 1, 0)
                == sweep_index(ki, (a - 1) as int, ki + 1, 0))
                by (nonlinear_arith)
                requires ki == k as int, 1 <= a,
            ;
        }
    }
    proof {
        assert(sweep_index(ki, ki + 1, 1, 0) == sweep_len(ki)) by (nonlinear_arith);
    }
    v
}

/// Relies on `num_cpus::get`: the number of logical CPUs of the host,
/// documented to be at least one.
#[verifier::external_body]
fn host_cpus() -> (n: usize)
    ensures
        1 <= n,
{
    num_cpus::get()
}

/// What a successful sweep looks like: the length formula and every entry
/// at its deterministic position.
pub open spec fn sweep_post(s: Seq<Spec>, k: int) -> bool {
    &&& s.len() == sweep_len(k)
    &&& forall|a: int, b: int, c: int|
        1 <= a <= k && 1 <= b <= k && 0 <= c <= k
            ==> #[trigger] s[sweep_index(k, a, b, c)] == sweep_spec(a, b, c)
}

/// The benchmark sweep behind the driver's entry point.  `None` for the
/// bound means one more than the host's CPU count.  A bound whose powers
/// would overflow a `u32` yields no sweep rather than a wrapped one.
pub fn gen_tests(max: Option<u32>) -> (r: Option<Vec<Spec>>)
    ensures
        match max {
            Some(k) => if k <= SWEEP_LIMIT_MAX {
                r is Some && sweep_post(r->0@, k as int)
            } else {
                r is None
            },
            None => r is Some && exists|k: int|
                2 <= k <= SWEEP_LIMIT_MAX && #[trigger] sweep_post(r->0@, k),
        },
{
    let k: u32 = match max {
        Some(k) => k,
        None => {
            let cpus = host_cpus();
            if cpus >= SWEEP_LIMIT_MAX as usize {
                SWEEP_LIMIT_MAX
            } else {
                cpus as u32 + 1
            }
        },
    };
    if k <= SWEEP_LIMIT_MAX {
        let v = generate_specs(k);
        let r = Some(v);
        proof {
            assert(sweep_post(r->0@, k as int));
        }
        r
    } else {
        None
    }
}

} // verus!


