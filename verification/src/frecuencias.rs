//! Word frequencies: how often each normalised word occurs in a text.
use vstd::prelude::*;
use crate::texto::{
    Borde, a_minusculas, caracteres, minusculas, palabras, partir_palabras, recortado, recortar,
    texto_de, vistas,
};

verus! {

/// A table from words to how often they occur. No word occurs twice.
pub struct Frecuencias {
    entradas: Vec<(String, usize)>,
}

/// The entries of a table as plain values.
pub open spec fn vista_entradas(es: Seq<(String, usize)>) -> Seq<(Seq<char>, nat)> {
    es.map_values(|e: (String, usize)| (e.0@, e.1 as nat))
}

/// No word occurs twice among the entries.
pub open spec fn claves_distintas(es: Seq<(Seq<char>, nat)>) -> bool {
    forall|i: int, j: int| 0 <= i < j < es.len() ==> es[i].0 != es[j].0
}

/// The map that a sequence of entries describes.
pub open spec fn mapa(es: Seq<(Seq<char>, nat)>) -> Map<Seq<char>, nat>
    decreases es.len(),
{
    if es.len() == 0 {
        Map::empty()
    } else {
        mapa(es.drop_last()).insert(es.last().0, es.last().1)
    }
}

/// The counts of the words of `ws`.
pub open spec fn conteo(ws: Seq<Seq<char>>) -> Map<Seq<char>, nat>
    decreases ws.len(),
{
    if ws.len() == 0 {
        Map::empty()
    } else {
        let m = conteo(ws.drop_last());
        let k = ws.last();
        m.insert(
            k,
            if m.contains_key(k) {
                m[k] + 1
            } else {
                1
            },
        )
    }
}

/// What the map of entries holds.
pub proof fn lema_mapa(es: Seq<(Seq<char>, nat)>)
    requires
        claves_distintas(es),
    ensures
        mapa(es).dom().finite(),
        mapa(es).dom().len() == es.len(),
        forall|k: Seq<char>|
            #![trigger mapa(es).contains_key(k)]
            mapa(es).contains_key(k) <==> exists|i: int| 0 <= i < es.len() && es[i].0 == k,
        forall|i: int| 0 <= i < es.len() ==> #[trigger] mapa(es)[es[i].0] == es[i].1,
    decreases es.len(),
{
    if es.len() > 0 {
        let p = es.drop_last();
        assert(claves_distintas(p));
        lema_mapa(p);
        assert(!mapa(p).contains_key(es.last().0)) by {
            if mapa(p).contains_key(es.last().0) {
                let i = choose|i: int| 0 <= i < p.len() && p[i].0 == es.last().0;
                assert(es[i].0 == es[es.len() - 1].0);
            }
        }
        assert forall|k: Seq<char>| mapa(es).contains_key(k) implies exists|i: int|
            0 <= i < es.len() && es[i].0 == k by {
            if k != es.last().0 {
                let i = choose|i: int| 0 <= i < p.len() && p[i].0 == k;
                assert(es[i].0 == k);
            } else {
                assert(es[es.len() - 1].0 == k);
            }
        }
        assert forall|k: Seq<char>| (exists|i: int| 0 <= i < es.len() && es[i].0 == k) implies mapa(
            es,
        ).contains_key(k) by {
            let i = choose|i: int| 0 <= i < es.len() && es[i].0 == k;
            if i < es.len() - 1 {
                assert(p[i].0 == k);
            }
        }
        assert forall|i: int| 0 <= i < es.len() implies #[trigger] mapa(es)[es[i].0] == es[i].1 by {
            if i < es.len() - 1 {
                assert(p[i] == es[i]);
                assert(es[i].0 != es.last().0);
            }
        }
    }
}

/// Changing the count of a word that is already present.
pub proof fn lema_mapa_cambio(es: Seq<(Seq<char>, nat)>, i: int, v: nat)
    requires
        claves_distintas(es),
        0 <= i < es.len(),
    ensures
        mapa(es.update(i, (es[i].0, v))) == mapa(es).insert(es[i].0, v),
        claves_distintas(es.update(i, (es[i].0, v))),
    decreases es.len(),
{
    let nuevo = es.update(i, (es[i].0, v));
    if i == es.len() - 1 {
        assert(nuevo.drop_last() =~= es.drop_last());
        lema_mapa(es.drop_last());
        assert(mapa(nuevo) =~= mapa(es).insert(es[i].0, v));
    } else {
        let p = es.drop_last();
        assert(claves_distintas(p));
        lema_mapa_cambio(p, i, v);
        assert(nuevo.drop_last() =~= p.update(i, (es[i].0, v)));
        assert(es[i].0 != es.last().0);
        assert(mapa(nuevo) =~= mapa(es).insert(es[i].0, v));
    }
}

impl View for Frecuencias {
    type V = Map<Seq<char>, nat>;

    /// The table as a map from words to counts.
    closed spec fn view(&self) -> Map<Seq<char>, nat> {
        mapa(self.entradas_vista())
    }
}

impl Frecuencias {
    /// The entries of the table as plain values.
    pub closed spec fn entradas_vista(&self) -> Seq<(Seq<char>, nat)> {
        vista_entradas(self.entradas@)
    }

    #[verifier::type_invariant]
    closed spec fn bien_formada(&self) -> bool {
        claves_distintas(self.entradas_vista())
    }

    /// An empty table.
    pub fn new() -> (r: Frecuencias)
        ensures
            r@ == Map::<Seq<char>, nat>::empty(),
    {
        let r = Frecuencias { entradas: Vec::new() };
        assert(r.entradas_vista() =~= seq![]);
        r
    }

    /// How often `palabra` occurs, if it occurs at all.
    pub fn get(&self, palabra: &str) -> (r: Option<&usize>)
        ensures
            r is Some <==> self@.contains_key(palabra@),
            r matches Some(x) ==> self@[palabra@] == *x as nat,
    {
        proof {
            use_type_invariant(self);
            lema_mapa(self.entradas_vista());
        }
        let buscada = palabra.to_owned();
        let n = self.entradas.len();
        let mut i: usize = 0;
        while i < n
            invariant
                n == self.entradas@.len(),
                i <= n,
                buscada@ == palabra@,
                claves_distintas(self.entradas_vista()),
                forall|j: int| 0 <= j < i ==> self.entradas_vista()[j].0 != palabra@,
            decreases n - i,
        {
            if self.entradas[i].0 == buscada {
                proof {
                    lema_mapa(self.entradas_vista());
                }
                assert(self.entradas_vista()[i as int].0 == palabra@);
                return Some(&self.entradas[i].1);
            }
            i = i + 1;
        }
        None
    }

    /// How many different words the table holds.
    pub fn len(&self) -> (r: usize)
        ensures
            r as nat == self@.len(),
    {
        proof {
            use_type_invariant(self);
            lema_mapa(self.entradas_vista());
        }
        self.entradas.len()
    }

    /// Whether the table holds no word.
    pub fn is_empty(&self) -> (r: bool)
        ensures
            r == (self@.len() == 0),
    {
        proof {
            use_type_invariant(self);
            lema_mapa(self.entradas_vista());
        }
        self.entradas.len() == 0
    }

    /// Counts one more occurrence of `clave`.
    pub fn sumar(&mut self, clave: String, veces: usize)
        requires
            old(self)@.contains_key(clave@) ==> old(self)@[clave@] + veces
                <= usize::MAX,
        ensures
            final(self)@ == old(self)@.insert(
                clave@,
                if old(self)@.contains_key(clave@) {
                    old(self)@[clave@] + veces as nat
                } else {
                    veces as nat
                },
            ),
    {
        proof {
            use_type_invariant(&*self);
            lema_mapa(self.entradas_vista());
        }
        let mut es: Vec<(String, usize)> = Vec::new();
        std::mem::swap(&mut es, &mut self.entradas);
        let ghost antes = vista_entradas(es@);
        assert(antes == old(self).entradas_vista());
        let n = es.len();
        let mut i: usize = 0;
        while i < n
            invariant
                n == es@.len(),
                i <= n,
                antes == vista_entradas(es@),
                mapa(antes) == old(self)@,
                old(self)@.contains_key(clave@) ==> old(self)@[clave@] + veces
                    <= usize::MAX,
                claves_distintas(antes),
                forall|j: int| 0 <= j < i ==> antes[j].0 != clave@,
            decreases n - i,
        {
            if es[i].0 == clave {
                let c = es[i].1;
                proof {
                    lema_mapa(antes);
                }
                assert(antes[i as int].0 == clave@);
                assert(mapa(antes)[antes[i as int].0] == antes[i as int].1);
                proof {
                    lema_mapa_cambio(antes, i as int, (c + veces) as nat);
                }
                es.set(i, (clave, c + veces));
                assert(vista_entradas(es@) =~= antes.update(
                    i as int,
                    (antes[i as int].0, (c + veces) as nat),
                ));
                self.entradas = es;
                return;
            }
            i = i + 1;
        }
        assert(!mapa(antes).contains_key(clave@));
        es.push((clave, veces));
        assert(vista_entradas(es@) =~= antes.push((clave@, veces as nat)));
        assert(vista_entradas(es@).drop_last() =~= antes);
        assert(claves_distintas(vista_entradas(es@)));
        self.entradas = es;
    }
}


/// The words that `frecuencias` counts: each word without the punctuation
/// at its ends, in lower case; words that were only punctuation are left
/// out.
pub open spec fn normalizadas(ws: Seq<Seq<char>>) -> Seq<Seq<char>>
    decreases ws.len(),
{
    if ws.len() == 0 {
        seq![]
    } else {
        let previas = normalizadas(ws.drop_last());
        let limpia = recortado(ws.last(), Borde::Puntuacion);
        if limpia.len() == 0 {
            previas
        } else {
            previas.push(minusculas(limpia))
        }
    }
}

/// Counts each word of `texto`, ignoring case and the punctuation
/// `, . ! ? ; : ¡ ¿` at either end of a word; a word made only of that
/// punctuation is not counted.
pub fn frecuencias(texto: &str) -> (r: Frecuencias)
    ensures
        r@ == conteo(normalizadas(palabras(texto@))),
{
    let v = caracteres(texto);
    let ws = partir_palabras(&v);
    let mut f = Frecuencias::new();
    let n = ws.len();
    let mut i: usize = 0;
    assert(vistas(ws@).take(0) =~= seq![]);
    while i < n
        invariant
            n == ws@.len(),
            i <= n,
            vistas(ws@) == palabras(texto@),
            f@ == conteo(normalizadas(vistas(ws@).take(i as int))),
            forall|k: Seq<char>| #[trigger] f@.contains_key(k) ==> f@[k] <= i,
        decreases n - i,
    {
        assert(vistas(ws@).take(i + 1).drop_last() =~= vistas(ws@).take(i as int));
        let limpia = recortar(&ws[i], Borde::Puntuacion);
        let ghost w = vistas(ws@).take(i + 1);
        assert(w.last() == ws@[i as int]@);
        if limpia.len() > 0 {
            let s = texto_de(&limpia);
            let clave = a_minusculas(s.as_str());
            let ghost antes = f@;
            let ghost previas = normalizadas(vistas(ws@).take(i as int));
            assert(normalizadas(w) == previas.push(clave@));
            assert(normalizadas(w).drop_last() =~= previas);
            f.sumar(clave, 1);
            assert forall|k: Seq<char>| #[trigger] f@.contains_key(k) implies f@[k]
                <= i + 1 by {
                if antes.contains_key(k) {
                }
            }
        }
        i = i + 1;
    }
    assert(vistas(ws@).take(n as int) =~= vistas(ws@));
    f
}

/// Every word of `ws` in lower case.
pub open spec fn en_minusculas(ws: Seq<Seq<char>>) -> Seq<Seq<char>> {
    ws.map_values(|w: Seq<char>| minusculas(w))
}

/// Counts each white-space separated word of `texto`, ignoring case.
pub fn contar_palabras(texto: &str) -> (r: Frecuencias)
    ensures
        r@ == conteo(en_minusculas(palabras(texto@))),
{
    let v = caracteres(texto);
    let ws = partir_palabras(&v);
    let mut f = Frecuencias::new();
    let n = ws.len();
    let mut i: usize = 0;
    assert(en_minusculas(vistas(ws@)).take(0) =~= seq![]);
    while i < n
        invariant
            n == ws@.len(),
            i <= n,
            vistas(ws@) == palabras(texto@),
            f@ == conteo(en_minusculas(vistas(ws@)).take(i as int)),
            forall|k: Seq<char>| #[trigger] f@.contains_key(k) ==> f@[k] <= i,
        decreases n - i,
    {
        let ghost todas = en_minusculas(vistas(ws@));
        assert(todas.take(i + 1).drop_last() =~= todas.take(i as int));
        let s = texto_de(&ws[i]);
        let clave = a_minusculas(s.as_str());
        let ghost antes = f@;
        f.sumar(clave, 1);
        assert forall|k: Seq<char>| #[trigger] f@.contains_key(k) implies f@[k] <= i
            + 1 by {
            if antes.contains_key(k) {
            }
        }
        i = i + 1;
    }
    assert(en_minusculas(vistas(ws@)).take(n as int) =~= en_minusculas(vistas(ws@)));
    f
}


/// The count of `k` in `m`, 0 when absent.
pub open spec fn cuenta_en(m: Map<Seq<char>, nat>, k: Seq<char>) -> nat {
    if m.contains_key(k) {
        m[k]
    } else {
        0
    }
}

/// Two tables of counts added up word by word.
pub open spec fn suma_mapas(a: Map<Seq<char>, nat>, b: Map<Seq<char>, nat>) -> Map<Seq<char>, nat> {
    Map::new(
        |k: Seq<char>| a.contains_key(k) || b.contains_key(k),
        |k: Seq<char>| cuenta_en(a, k) + cuenta_en(b, k),
    )
}

/// Counting two lists of words one after the other gives the sum of
/// counting each: the law that lets a text be counted in pieces (in
/// parallel) and the partial counts be merged.
pub proof fn ley_conteo_concatenado(xs: Seq<Seq<char>>, ys: Seq<Seq<char>>)
    ensures
        conteo(xs + ys) == suma_mapas(conteo(xs), conteo(ys)),
    decreases ys.len(),
{
    if ys.len() == 0 {
        assert(xs + ys =~= xs);
        assert(conteo(xs) =~= suma_mapas(conteo(xs), conteo(ys)));
    } else {
        let p = ys.drop_last();
        let y = ys.last();
        ley_conteo_concatenado(xs, p);
        assert((xs + ys).drop_last() =~= xs + p);
        assert((xs + ys).last() == y);
        assert(conteo(xs + ys) =~= suma_mapas(conteo(xs), conteo(ys)));
    }
}

impl Frecuencias {
    /// The words of the table, each once, in no particular order.
    pub fn claves(&self) -> (r: Vec<String>)
        ensures
            r@.len() == self@.len(),
            r@.map_values(|s: String| s@).to_set() == self@.dom(),
            r@.map_values(|s: String| s@).no_duplicates(),
    {
        proof {
            use_type_invariant(self);
            lema_mapa(self.entradas_vista());
        }
        let ghost es = self.entradas_vista();
        let n = self.entradas.len();
        let mut r: Vec<String> = Vec::new();
        let mut i: usize = 0;
        while i < n
            invariant
                n == self.entradas@.len(),
                es == self.entradas_vista(),
                claves_distintas(es),
                i <= n,
                r@.len() == i,
                forall|j: int| 0 <= j < i ==> (#[trigger] r@[j])@ == es[j].0,
            decreases n - i,
        {
            r.push(self.entradas[i].0.clone());
            i = i + 1;
        }
        let ghost ks = r@.map_values(|s: String| s@);
        assert(ks =~= es.map_values(|e: (Seq<char>, nat)| e.0));
        assert forall|k: Seq<char>| ks.to_set().contains(k) <==> self@.dom().contains(k) by {
            if ks.to_set().contains(k) {
                assert(ks.contains(k));
                let j = choose|j: int| 0 <= j < ks.len() && ks[j] == k;
                assert(es[j].0 == k);
            }
            if self@.dom().contains(k) {
                let j = choose|j: int| 0 <= j < es.len() && es[j].0 == k;
                assert(ks[j] == k);
            }
        }
        assert(ks.to_set() =~= self@.dom());
        r
    }

    /// Whether adding the counts of `otra` to these overflows none of
    /// them: what `fusionar` asks of its caller.
    pub fn cabe_fusion(&self, otra: &Frecuencias) -> (r: bool)
        ensures
            r == forall|k: Seq<char>|
                #![trigger self@.contains_key(k), otra@.contains_key(k)]
                self@.contains_key(k) && otra@.contains_key(k) ==> self@[k]
                    + otra@[k] <= usize::MAX,
    {
        proof {
            use_type_invariant(otra);
            lema_mapa(otra.entradas_vista());
        }
        let ghost es = otra.entradas_vista();
        let n = otra.entradas.len();
        let mut i: usize = 0;
        while i < n
            invariant
                n == otra.entradas@.len(),
                es == otra.entradas_vista(),
                claves_distintas(es),
                i <= n,
                forall|j: int|
                    0 <= j < i ==> (self@.contains_key((#[trigger] es[j]).0)
                        ==> self@[es[j].0] + es[j].1 <= usize::MAX),
            decreases n - i,
        {
            let c = otra.entradas[i].1;
            assert(es[i as int] == (otra.entradas@[i as int].0@, c as nat));
            match self.get(otra.entradas[i].0.as_str()) {
                Some(x) => {
                    if *x > usize::MAX - c {
                        proof {
                            lema_mapa(es);
                            assert(otra@[es[i as int].0] == es[i as int].1);
                            assert(otra@.contains_key(es[i as int].0));
                        }
                        return false;
                    }
                },
                None => {},
            }
            i = i + 1;
        }
        assert forall|k: Seq<char>|
            #![trigger self@.contains_key(k), otra@.contains_key(k)]
            self@.contains_key(k) && otra@.contains_key(k) implies self@[k]
            + otra@[k] <= usize::MAX by {
            let j = choose|j: int| 0 <= j < es.len() && es[j].0 == k;
            assert(otra@[es[j].0] == es[j].1);
        }
        true
    }

    /// Adds the counts of `otra` to these.
    pub fn fusionar(&mut self, otra: &Frecuencias)
        requires
            forall|k: Seq<char>|
                #![trigger old(self)@.contains_key(k), otra@.contains_key(k)]
                old(self)@.contains_key(k) && otra@.contains_key(k) ==> old(
                    self,
                )@[k] + otra@[k] <= usize::MAX,
        ensures
            final(self)@ == suma_mapas(old(self)@, otra@),
    {
        proof {
            use_type_invariant(otra);
        }
        let ghost inicial = self@;
        let n = otra.entradas.len();
        let mut i: usize = 0;
        assert(otra.entradas_vista().take(0) =~= seq![]);
        assert(inicial =~= suma_mapas(inicial, mapa(otra.entradas_vista().take(0))));
        while i < n
            invariant
                n == otra.entradas@.len(),
                i <= n,
                claves_distintas(otra.entradas_vista()),
                inicial == old(self)@,
                forall|k: Seq<char>|
                    #![trigger inicial.contains_key(k), otra@.contains_key(k)]
                    inicial.contains_key(k) && otra@.contains_key(k) ==> inicial[k]
                        + otra@[k] <= usize::MAX,
                self@ == suma_mapas(inicial, mapa(otra.entradas_vista().take(i as int))),
            decreases n - i,
        {
            let ghost es = otra.entradas_vista();
            let ghost previas = es.take(i as int);
            assert(es.take(i + 1).drop_last() =~= previas);
            assert(es.take(i + 1).last() == es[i as int]);
            proof {
                lema_mapa(es);
                lema_mapa(previas);
                assert(claves_distintas(previas));
                if mapa(previas).contains_key(es[i as int].0) {
                    let j = choose|j: int| 0 <= j < previas.len() && previas[j].0 == es[i as int].0;
                    assert(es[j].0 == es[i as int].0);
                }
                assert(otra@.contains_key(es[i as int].0));
            }
            let k = otra.entradas[i].0.clone();
            let c = otra.entradas[i].1;
            assert(mapa(es)[es[i as int].0] == es[i as int].1);
            let ghost antes = self@;
            self.sumar(k, c);
            assert(self@ =~= suma_mapas(inicial, mapa(es.take(i + 1))));
            i = i + 1;
        }
        assert(otra.entradas_vista().take(n as int) =~= otra.entradas_vista());
    }
}

} // verus!
