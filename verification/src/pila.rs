//! A LIFO stack that answers its current minimum in constant time.
//!
//! Beside the data it keeps a second stack whose entry `i` is the minimum
//! of the data up to `i`.
use vstd::prelude::*;
use crate::texto::caracteres;

verus! {

/// A type whose values are ordered (a strict weak order, as `Ord` gives)
/// and can be copied: what the stack needs of its elements.
pub trait Ordenable: Sized {
    /// Whether `self` comes strictly before `otro`.
    spec fn antes(&self, otro: &Self) -> bool;

    /// The order is irreflexive and transitive, and whatever comes after
    /// one value and before another comes after the first or before the
    /// second.
    proof fn ley_orden(a: &Self, b: &Self, c: &Self)
        ensures
            !a.antes(a),
            a.antes(b) && b.antes(c) ==> a.antes(c),
            a.antes(c) ==> a.antes(b) || b.antes(c),
    ;

    /// Whether `self` comes strictly before `otro` (`self < otro`).
    fn menor_que(&self, otro: &Self) -> (r: bool)
        ensures
            r == self.antes(otro),
    ;

    /// An equal value (`clone`).
    fn copia(&self) -> (r: Self)
        ensures
            r == *self,
    ;
}

impl Ordenable for i32 {
    open spec fn antes(&self, otro: &i32) -> bool {
        *self < *otro
    }

    proof fn ley_orden(a: &i32, b: &i32, c: &i32) {
    }

    fn menor_que(&self, otro: &i32) -> (r: bool) {
        *self < *otro
    }

    fn copia(&self) -> (r: i32) {
        *self
    }
}

impl Ordenable for i64 {
    open spec fn antes(&self, otro: &i64) -> bool {
        *self < *otro
    }

    proof fn ley_orden(a: &i64, b: &i64, c: &i64) {
    }

    fn menor_que(&self, otro: &i64) -> (r: bool) {
        *self < *otro
    }

    fn copia(&self) -> (r: i64) {
        *self
    }
}

impl Ordenable for u32 {
    open spec fn antes(&self, otro: &u32) -> bool {
        *self < *otro
    }

    proof fn ley_orden(a: &u32, b: &u32, c: &u32) {
    }

    fn menor_que(&self, otro: &u32) -> (r: bool) {
        *self < *otro
    }

    fn copia(&self) -> (r: u32) {
        *self
    }
}

impl Ordenable for u64 {
    open spec fn antes(&self, otro: &u64) -> bool {
        *self < *otro
    }

    proof fn ley_orden(a: &u64, b: &u64, c: &u64) {
    }

    fn menor_que(&self, otro: &u64) -> (r: bool) {
        *self < *otro
    }

    fn copia(&self) -> (r: u64) {
        *self
    }
}

/// The lexicographic order of texts by the code points of their
/// characters, which is the order of `String` (UTF-8 keeps the order of
/// code points byte by byte).
pub open spec fn lex_menor(a: Seq<char>, b: Seq<char>) -> bool
    decreases a.len(),
{
    if a.len() == 0 {
        b.len() > 0
    } else if b.len() == 0 {
        false
    } else if a[0] == b[0] {
        lex_menor(a.drop_first(), b.drop_first())
    } else {
        (a[0] as int) < (b[0] as int)
    }
}

/// The lexicographic order is irreflexive, transitive and total.
pub proof fn ley_lex(a: Seq<char>, b: Seq<char>, c: Seq<char>)
    ensures
        !lex_menor(a, a),
        lex_menor(a, b) && lex_menor(b, c) ==> lex_menor(a, c),
        lex_menor(a, b) || lex_menor(b, a) || a == b,
    decreases a.len(),
{
    if a.len() > 0 {
        ley_lex(a.drop_first(), b.drop_first(), c.drop_first());
        if b.len() > 0 && a[0] == b[0] && a.drop_first() == b.drop_first() {
            assert(a =~= seq![a[0]] + a.drop_first());
            assert(b =~= seq![b[0]] + b.drop_first());
        }
        if b.len() > 0 && c.len() > 0 && a[0] != b[0] && b[0] == c[0] {
            assert(a[0] != c[0]);
        }
        if b.len() > 0 && c.len() > 0 && a[0] == b[0] && b[0] != c[0] {
            assert(a[0] != c[0]);
        }
    } else {
        if b.len() == 0 {
            assert(a =~= b);
        }
    }
}

/// Whether `a` comes strictly before `b` in the lexicographic order.
fn menor_lex(a: &Vec<char>, b: &Vec<char>) -> (r: bool)
    ensures
        r == lex_menor(a@, b@),
{
    let mut i: usize = 0;
    assert(a@.skip(0) =~= a@);
    assert(b@.skip(0) =~= b@);
    while i < a.len() && i < b.len() && a[i] == b[i]
        invariant
            i <= a@.len(),
            i <= b@.len(),
            lex_menor(a@.skip(i as int), b@.skip(i as int)) == lex_menor(a@, b@),
        decreases a@.len() - i,
    {
        assert(a@.skip(i as int).drop_first() =~= a@.skip(i + 1));
        assert(b@.skip(i as int).drop_first() =~= b@.skip(i + 1));
        i = i + 1;
    }
    if i == a.len() {
        i < b.len()
    } else if i == b.len() {
        false
    } else {
        assert(a@.skip(i as int)[0] == a@[i as int]);
        assert(b@.skip(i as int)[0] == b@[i as int]);
        a[i] < b[i]
    }
}

impl Ordenable for String {
    open spec fn antes(&self, otro: &String) -> bool {
        lex_menor(self@, otro@)
    }

    proof fn ley_orden(a: &String, b: &String, c: &String) {
        ley_lex(a@, b@, c@);
        ley_lex(b@, c@, a@);
        ley_lex(a@, c@, b@);
        ley_lex(c@, b@, a@);
        ley_lex(b@, a@, c@);
    }

    fn menor_que(&self, otro: &String) -> (r: bool) {
        menor_lex(&caracteres(self.as_str()), &caracteres(otro.as_str()))
    }

    fn copia(&self) -> (r: String) {
        self.clone()
    }
}

/// The minimum of a non-empty sequence, the later of two equivalent
/// values winning (what the stack keeps for a prefix).
pub open spec fn minimo_de<T: Ordenable>(ds: Seq<T>) -> T
    decreases ds.len(),
{
    if ds.len() <= 1 {
        ds[0]
    } else {
        let m = minimo_de(ds.drop_last());
        if m.antes(&ds.last()) {
            m
        } else {
            ds.last()
        }
    }
}

/// The minimum is one of the elements, and no element comes before it.
pub proof fn ley_minimo<T: Ordenable>(ds: Seq<T>)
    requires
        ds.len() > 0,
    ensures
        ds.contains(minimo_de(ds)),
        forall|i: int| 0 <= i < ds.len() ==> !(#[trigger] ds[i]).antes(&minimo_de(ds)),
    decreases ds.len(),
{
    if ds.len() > 1 {
        let p = ds.drop_last();
        ley_minimo(p);
        let m = minimo_de(p);
        let u = ds.last();
        let j = choose|j: int| 0 <= j < p.len() && p[j] == m;
        assert(ds[j] == m);
        assert(ds[ds.len() - 1] == u);
        assert forall|i: int| 0 <= i < ds.len() implies !(#[trigger] ds[i]).antes(&minimo_de(ds)) by {
            T::ley_orden(&ds[i], &m, &u);
            T::ley_orden(&u, &m, &u);
            T::ley_orden(&m, &u, &m);
            if i < ds.len() - 1 {
                assert(ds[i] == p[i]);
            }
        }
    } else {
        assert(ds[0] == minimo_de(ds));
        assert forall|i: int| 0 <= i < ds.len() implies !(#[trigger] ds[i]).antes(&minimo_de(ds)) by {
            T::ley_orden(&ds[i], &ds[i], &ds[i]);
        }
    }
}

/// A LIFO stack with its minimum in constant time.
pub struct PilaMin<T: Ordenable> {
    datos: Vec<T>,
    minimos: Vec<T>,
}

impl<T: Ordenable> View for PilaMin<T> {
    type V = Seq<T>;

    /// The elements, from the bottom to the top.
    closed spec fn view(&self) -> Seq<T> {
        self.datos@
    }
}

impl<T: Ordenable> PilaMin<T> {
    #[verifier::type_invariant]
    closed spec fn sincronizada(&self) -> bool {
        &&& self.minimos@.len() == self.datos@.len()
        &&& forall|i: int|
            0 <= i < self.datos@.len() ==> #[trigger] self.minimos@[i] == minimo_de(
                self.datos@.take(i + 1),
            )
    }

    /// An empty stack.
    pub fn new() -> (r: PilaMin<T>)
        ensures
            r@ == Seq::<T>::empty(),
    {
        PilaMin { datos: Vec::new(), minimos: Vec::new() }
    }

    /// Pushes `valor` on top.
    pub fn push(&mut self, valor: T)
        ensures
            final(self)@ == old(self)@.push(valor),
    {
        proof {
            use_type_invariant(&*self);
        }
        let mut vieja = PilaMin { datos: Vec::new(), minimos: Vec::new() };
        std::mem::swap(&mut vieja, self);
        proof {
            use_type_invariant(&vieja);
        }
        let PilaMin { mut datos, mut minimos } = vieja;
        let n = minimos.len();
        let nuevo_min = if n > 0 && minimos[n - 1].menor_que(&valor) {
            minimos[n - 1].copia()
        } else {
            valor.copia()
        };
        let ghost antes = datos@;
        proof {
            if n > 0 {
                assert(antes.take(n as int) =~= antes);
                assert(antes.push(valor).take(n + 1).drop_last() =~= antes);
            } else {
                assert(antes.push(valor).take(1) =~= seq![valor]);
            }
        }
        minimos.push(nuevo_min);
        datos.push(valor);
        assert forall|i: int| 0 <= i < datos@.len() implies #[trigger] minimos@[i] == minimo_de(
            datos@.take(i + 1),
        ) by {
            if i < n {
                assert(datos@.take(i + 1) =~= antes.take(i + 1));
            } else {
                assert(datos@.take(i + 1) =~= antes.push(valor).take(n + 1));
            }
        }
        *self = PilaMin { datos, minimos };
    }

    /// Removes and returns the top element; `None` when empty.
    pub fn pop(&mut self) -> (r: Option<T>)
        ensures
            old(self)@.len() == 0 ==> r is None && final(self)@ == old(self)@,
            old(self)@.len() > 0 ==> r == Some(old(self)@.last()),
            old(self)@.len() > 0 ==> final(self)@ == old(self)@.drop_last(),
    {
        proof {
            use_type_invariant(&*self);
        }
        let mut vieja = PilaMin { datos: Vec::new(), minimos: Vec::new() };
        std::mem::swap(&mut vieja, self);
        proof {
            use_type_invariant(&vieja);
        }
        let PilaMin { mut datos, mut minimos } = vieja;
        let ghost antes = datos@;
        minimos.pop();
        let r = datos.pop();
        assert forall|i: int| 0 <= i < datos@.len() implies #[trigger] minimos@[i] == minimo_de(
            datos@.take(i + 1),
        ) by {
            assert(datos@.take(i + 1) =~= antes.take(i + 1));
        }
        *self = PilaMin { datos, minimos };
        r
    }

    /// The current minimum, the later of equal keys; `None` when empty.
    pub fn minimo(&self) -> (r: Option<&T>)
        ensures
            self@.len() == 0 ==> r is None,
            self@.len() > 0 ==> r == Some(&minimo_de(self@)),
    {
        proof {
            use_type_invariant(self);
        }
        let n = self.minimos.len();
        if n == 0 {
            None
        } else {
            assert(self.datos@.take(n as int) =~= self.datos@);
            Some(&self.minimos[n - 1])
        }
    }

    /// The top element; `None` when empty.
    pub fn tope(&self) -> (r: Option<&T>)
        ensures
            self@.len() == 0 ==> r is None,
            self@.len() > 0 ==> r == Some(&self@.last()),
    {
        let n = self.datos.len();
        if n == 0 {
            None
        } else {
            Some(&self.datos[n - 1])
        }
    }

    /// The number of elements.
    pub fn len(&self) -> (r: usize)
        ensures
            r == self@.len(),
    {
        self.datos.len()
    }

    /// Whether the stack is empty.
    pub fn is_empty(&self) -> (r: bool)
        ensures
            r == (self@.len() == 0),
    {
        self.datos.len() == 0
    }
}

impl<T: Ordenable> Default for PilaMin<T> {
    /// An empty stack.
    fn default() -> (r: PilaMin<T>)
        ensures
            r@ == Seq::<T>::empty(),
    {
        PilaMin::new()
    }
}

/// Last in, first out: the element pushed last is the one popped, and
/// popping it leaves the stack as it was before the push, minimum included.
pub proof fn ley_lifo<T: Ordenable>(s: Seq<T>, v: T)
    ensures
        s.push(v).last() == v,
        s.push(v).drop_last() == s,
        s.len() > 0 ==> minimo_de(s.push(v).drop_last()) == minimo_de(s),
{
    assert(s.push(v).drop_last() =~= s);
}

/// Pushing a value changes the minimum unless the minimum comes strictly
/// before the value; the new minimum is then the value pushed.
pub proof fn ley_minimo_al_apilar<T: Ordenable>(s: Seq<T>, v: T)
    requires
        s.len() > 0,
    ensures
        minimo_de(s.push(v)) == if minimo_de(s).antes(&v) {
            minimo_de(s)
        } else {
            v
        },
{
    assert(s.push(v).drop_last() =~= s);
}

/// With `i32` elements the stack's minimum is the numerically least
/// element: it is one of them and no element is smaller.
pub proof fn ley_minimo_numerico_i32(s: Seq<i32>)
    requires
        s.len() > 0,
    ensures
        s.contains(minimo_de(s)),
        forall|i: int| 0 <= i < s.len() ==> minimo_de(s) <= #[trigger] s[i],
{
    ley_minimo(s);
    assert forall|i: int| 0 <= i < s.len() implies minimo_de(s) <= #[trigger] s[i] by {
        assert(!s[i].antes(&minimo_de(s)));
    }
}

/// With `i64` elements the stack's minimum is the numerically least
/// element: it is one of them and no element is smaller.
pub proof fn ley_minimo_numerico_i64(s: Seq<i64>)
    requires
        s.len() > 0,
    ensures
        s.contains(minimo_de(s)),
        forall|i: int| 0 <= i < s.len() ==> minimo_de(s) <= #[trigger] s[i],
{
    ley_minimo(s);
    assert forall|i: int| 0 <= i < s.len() implies minimo_de(s) <= #[trigger] s[i] by {
        assert(!s[i].antes(&minimo_de(s)));
    }
}

/// With `u32` elements the stack's minimum is the numerically least
/// element: it is one of them and no element is smaller.
pub proof fn ley_minimo_numerico_u32(s: Seq<u32>)
    requires
        s.len() > 0,
    ensures
        s.contains(minimo_de(s)),
        forall|i: int| 0 <= i < s.len() ==> minimo_de(s) <= #[trigger] s[i],
{
    ley_minimo(s);
    assert forall|i: int| 0 <= i < s.len() implies minimo_de(s) <= #[trigger] s[i] by {
        assert(!s[i].antes(&minimo_de(s)));
    }
}

/// With `u64` elements the stack's minimum is the numerically least
/// element: it is one of them and no element is smaller.
pub proof fn ley_minimo_numerico_u64(s: Seq<u64>)
    requires
        s.len() > 0,
    ensures
        s.contains(minimo_de(s)),
        forall|i: int| 0 <= i < s.len() ==> minimo_de(s) <= #[trigger] s[i],
{
    ley_minimo(s);
    assert forall|i: int| 0 <= i < s.len() implies minimo_de(s) <= #[trigger] s[i] by {
        assert(!s[i].antes(&minimo_de(s)));
    }
}

/// With `String` elements the stack's minimum is the lexicographically
/// least element: it is one of them and no element comes before it.
pub proof fn ley_minimo_lexicografico(s: Seq<String>)
    requires
        s.len() > 0,
    ensures
        s.contains(minimo_de(s)),
        forall|i: int| 0 <= i < s.len() ==> !lex_menor((#[trigger] s[i])@, minimo_de(s)@),
{
    ley_minimo(s);
    assert forall|i: int| 0 <= i < s.len() implies !lex_menor((#[trigger] s[i])@, minimo_de(s)@) by {
        assert(!s[i].antes(&minimo_de(s)));
    }
}

} // verus!
