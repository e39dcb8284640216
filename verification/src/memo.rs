//! A calculator that memoises an expensive function (the sum of the
//! divisors of a number) and counts how often it really computed it.
use vstd::prelude::*;
use std::collections::HashMap;

verus! {

broadcast use vstd::std_specs::hash::group_hash_axioms;

/// The sum of the divisors of `n` that are at most `k`.
pub open spec fn suma_divisores_hasta(n: nat, k: nat) -> nat
    decreases k,
{
    if k == 0 {
        0
    } else {
        suma_divisores_hasta(n, (k - 1) as nat) + if n % k == 0 {
            k
        } else {
            0
        }
    }
}

/// The sum of all divisors of `n` (0 for 0).
pub open spec fn suma_divisores(n: nat) -> nat {
    suma_divisores_hasta(n, n)
}

/// The partial sums grow with `k`.
pub proof fn lema_suma_monotona(n: nat, j: nat, k: nat)
    requires
        j <= k,
    ensures
        suma_divisores_hasta(n, j) <= suma_divisores_hasta(n, k),
    decreases k - j,
{
    if j < k {
        lema_suma_monotona(n, j, (k - 1) as nat);
    }
}

/// A memoising calculator of `suma_divisores`.
pub struct Calculadora {
    cache: HashMap<u64, u64>,
    calculos: u32,
}

impl Calculadora {
    /// The results remembered so far.
    pub closed spec fn cache_vista(&self) -> Map<u64, u64> {
        self.cache@
    }

    /// How many times the function was really computed.
    pub closed spec fn calculos_vista(&self) -> u32 {
        self.calculos
    }

    /// Every remembered result is right, and the count of computations is
    /// the number of remembered results.
    pub open spec fn bien_formada(&self) -> bool {
        &&& self.cache_vista().dom().finite()
        &&& forall|k: u64| #[trigger]
            self.cache_vista().contains_key(k) ==> self.cache_vista()[k] == suma_divisores(k as nat)
        &&& self.calculos_vista() == self.cache_vista().dom().len()
    }

    /// A calculator that remembers nothing and has computed nothing.
    pub fn new() -> (r: Calculadora)
        ensures
            r.bien_formada(),
            r.cache_vista() == Map::<u64, u64>::empty(),
            r.calculos_vista() == 0,
    {
        Calculadora { cache: HashMap::new(), calculos: 0 }
    }

    /// Computes the sum of the divisors of `n`, counting the computation.
    fn computar(&mut self, n: u64) -> (r: u64)
        requires
            old(self).calculos < u32::MAX,
            suma_divisores(n as nat) <= u64::MAX,
        ensures
            r == suma_divisores(n as nat),
            final(self).calculos == old(self).calculos + 1,
            final(self).cache == old(self).cache,
    {
        self.calculos = self.calculos + 1;
        let mut total: u64 = 0;
        let mut k: u64 = 0;
        while k < n
            invariant
                k <= n,
                total == suma_divisores_hasta(n as nat, k as nat),
                suma_divisores(n as nat) <= u64::MAX,
            decreases n - k,
        {
            let d = k + 1;
            proof {
                lema_suma_monotona(n as nat, d as nat, n as nat);
            }
            if n % d == 0 {
                total = total + d;
            }
            k = d;
        }
        total
    }

    /// The sum of the divisors of `n`; computed only the first time `n`
    /// is asked for, remembered afterwards.
    pub fn costo(&mut self, n: u64) -> (r: u64)
        requires
            old(self).bien_formada(),
            !old(self).cache_vista().contains_key(n) ==> suma_divisores(n as nat) <= u64::MAX
                && old(self).calculos_vista() < u32::MAX,
        ensures
            r == suma_divisores(n as nat),
            final(self).bien_formada(),
            old(self).cache_vista().contains_key(n) ==> final(self).cache_vista() == old(
                self,
            ).cache_vista() && final(self).calculos_vista() == old(self).calculos_vista(),
            !old(self).cache_vista().contains_key(n) ==> final(self).cache_vista() == old(
                self,
            ).cache_vista().insert(n, r) && final(self).calculos_vista() == old(self).calculos_vista()
                + 1,
    {
        if let Some(v) = self.cache.get(&n) {
            return *v;
        }
        let v = self.computar(n);
        self.cache.insert(n, v);
        proof {
            assert(self.cache@.dom() =~= old(self).cache@.dom().insert(n));
        }
        v
    }

    /// How many times the function was really computed.
    pub fn calculos_reales(&self) -> (r: u32)
        ensures
            r == self.calculos_vista(),
    {
        self.calculos
    }
}


impl Default for Calculadora {
    /// The same as `Calculadora::new`.
    fn default() -> (r: Calculadora)
        ensures
            r.bien_formada(),
            r.cache_vista() == Map::<u64, u64>::empty(),
            r.calculos_vista() == 0,
    {
        Calculadora::new()
    }
}

} // verus!
