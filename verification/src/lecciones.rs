//! Two small structures from the iterator and smart-pointer lessons: the
//! Fibonacci sequence produced one term at a time, and a list built from
//! boxes.
use vstd::prelude::*;

verus! {

/// The Fibonacci numbers: 0, 1, 1, 2, 3, 5, ...
pub open spec fn fib(n: nat) -> nat
    decreases n,
{
    if n == 0 {
        0
    } else if n == 1 {
        1
    } else {
        fib((n - 2) as nat) + fib((n - 1) as nat)
    }
}

/// The Fibonacci sequence, produced one term at a time.
pub struct Fibonacci {
    actual: u64,
    siguiente: u64,
    indice: Ghost<nat>,
}

impl Fibonacci {
    /// The state holds the term at the current position and the one after.
    #[verifier::type_invariant]
    closed spec fn bien_formado(&self) -> bool {
        &&& self.actual == fib(self.indice@)
        &&& self.siguiente == fib(self.indice@ + 1)
    }

    /// The position of the next term to be produced, from 0.
    pub closed spec fn posicion(&self) -> nat {
        self.indice@
    }

    /// The sequence from its first term.
    pub fn new() -> (r: Fibonacci)
        ensures
            r.posicion() == 0,
    {
        Fibonacci { actual: 0, siguiente: 1, indice: Ghost(0) }
    }

    /// Whether `next` can be called: the term two places further on fits in
    /// a `u64`.
    pub fn puede_avanzar(&self) -> (r: bool)
        ensures
            r == (fib(self.posicion() + 2) <= u64::MAX),
    {
        proof {
            use_type_invariant(self);
            assert(fib(self.indice@ + 2) == fib(self.indice@) + fib(self.indice@ + 1));
        }
        self.actual.checked_add(self.siguiente).is_some()
    }

    /// The next term; the sequence never ends. Computing it prepares the
    /// term two places further on, which must fit in a `u64`.
    pub fn next(&mut self) -> (r: Option<u64>)
        requires
            fib(old(self).posicion() + 2) <= u64::MAX,
        ensures
            r == Some(fib(old(self).posicion()) as u64),
            final(self).posicion() == old(self).posicion() + 1,
    {
        proof {
            use_type_invariant(&*self);
        }
        let valor = self.actual;
        let siguiente = self.siguiente;
        let ghost k = self.indice@;
        assert(fib(k + 2) == fib(k) + fib(k + 1));
        *self = Fibonacci { actual: siguiente, siguiente: valor + siguiente, indice: Ghost(k + 1) };
        Some(valor)
    }
}

/// A list of integers, each node owning the rest in a box.
#[derive(Debug)]
pub enum Lista {
    Nodo(i32, Box<Lista>),
    Fin,
}

/// The values of a list, from the head.
pub open spec fn valores_de(l: Lista) -> Seq<i32>
    decreases l,
{
    match l {
        Lista::Nodo(v, resto) => seq![v] + valores_de(*resto),
        Lista::Fin => seq![],
    }
}

impl Lista {
    /// The values of the list, from the head.
    pub fn valores(&self) -> (r: Vec<i32>)
        ensures
            r@ == valores_de(*self),
    {
        let mut r: Vec<i32> = Vec::new();
        anexar_valores(self, &mut r);
        r
    }
}

/// Appends the values of `l` to `r`.
fn anexar_valores(l: &Lista, r: &mut Vec<i32>)
    ensures
        final(r)@ == old(r)@ + valores_de(*l),
    decreases l,
{
    match l {
        Lista::Nodo(v, resto) => {
            r.push(*v);
            anexar_valores(resto, r);
            assert(r@ =~= old(r)@ + valores_de(*l));
        },
        Lista::Fin => {
            assert(old(r)@ + valores_de(*l) =~= old(r)@);
        },
    }
}

} // verus!
