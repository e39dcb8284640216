//! Counting the words of a text in blocks of lines: the lines are split
//! into consecutive blocks of (almost) equal size, each block is counted on
//! its own, and the partial counts are merged. The merged count is the
//! count of the whole text, which is what lets the blocks be counted in
//! parallel; running the blocks on threads is the caller's.
use vstd::prelude::*;
use vstd::string::StrSliceExecFns;
use crate::busqueda::vistas_str;
use crate::frecuencias::{
    conteo, cuenta_en, en_minusculas, ley_conteo_concatenado, suma_mapas, Frecuencias,
};
use crate::texto::{
    a_minusculas, caracteres, es_espacio_spec, lema_palabras_no_vacias, lema_trozos, lineas,
    minusculas, palabras, partir_palabras, rangos_de_lineas, rangos_lineas, sin_cr, texto_de,
    trozos, vistas,
};

verus! {

/// The words of each line, one line after the other.
pub open spec fn palabras_de_lineas(ls: Seq<Seq<char>>) -> Seq<Seq<char>>
    decreases ls.len(),
{
    if ls.len() == 0 {
        seq![]
    } else {
        palabras_de_lineas(ls.drop_last()) + palabras(ls.last())
    }
}

/// The number of characters of all the lines together.
pub open spec fn suma_largos(ls: Seq<Seq<char>>) -> nat
    decreases ls.len(),
{
    if ls.len() == 0 {
        0
    } else {
        suma_largos(ls.drop_last()) + ls.last().len()
    }
}

/// The last piece between line feeds is the end of the text, and a line
/// feed stands right before it unless it is the whole text.
proof fn lema_ultimo_trozo(s: Seq<char>)
    ensures
        trozos(s).len() >= 1,
        trozos(s).last().len() <= s.len(),
        trozos(s).last() == s.subrange(s.len() - trozos(s).last().len(), s.len() as int),
        trozos(s).last().len() < s.len() ==> s[s.len() - trozos(s).last().len() - 1] == '\n',
    decreases s.len(),
{
    lema_trozos(s);
    if s.len() > 0 {
        let p = s.drop_last();
        lema_ultimo_trozo(p);
        lema_trozos(p);
        let t = trozos(p);
        if s.last() == '\n' {
            assert(trozos(s).last() =~= s.subrange(s.len() as int, s.len() as int));
        } else {
            let l = t.last();
            assert(trozos(s).last() == l.push(s.last()));
            assert(l.push(s.last()) =~= s.subrange(s.len() - l.len() - 1, s.len() as int));
        }
    }
}

/// Cutting the text at its line feeds loses no word and makes none.
proof fn lema_palabras_por_trozos(s: Seq<char>)
    ensures
        palabras_de_lineas(trozos(s)) == palabras(s),
    decreases s.len(),
{
    lema_trozos(s);
    if s.len() == 0 {
        assert(trozos(s).drop_last() =~= seq![]);
        assert(trozos(s).last() =~= seq![]);
        assert(palabras_de_lineas(trozos(s).drop_last()) =~= seq![]);
        assert(palabras(trozos(s).last()) =~= seq![]);
        assert(palabras_de_lineas(trozos(s)) =~= palabras(s));
    } else {
        let p = s.drop_last();
        let c = s.last();
        lema_palabras_por_trozos(p);
        lema_trozos(p);
        lema_ultimo_trozo(p);
        let t = trozos(p);
        let x = palabras_de_lineas(t.drop_last());
        let l = t.last();
        let y = palabras(l);
        assert(s.drop_last() =~= p);
        if c == '\n' {
            assert(es_espacio_spec(c));
            assert(trozos(s).drop_last() =~= t);
            assert(palabras(trozos(s).last()) =~= seq![]);
            assert(palabras_de_lineas(trozos(s)) =~= palabras_de_lineas(t));
        } else {
            let u = trozos(s);
            assert(u.drop_last() =~= t.drop_last());
            assert(u.last() == l.push(c));
            assert(l.push(c).drop_last() =~= l);
            assert(palabras_de_lineas(u) == x + palabras(l.push(c)));
            if l.len() > 0 {
                assert(l.last() == p.last());
            } else if p.len() > 0 {
                assert(p.last() == '\n');
            }
            if es_espacio_spec(c) {
                assert(palabras(l.push(c)) == y);
                } else if s.len() >= 2 && !es_espacio_spec(s[s.len() - 2]) {
                assert(s[s.len() - 2] == p.last());
                assert(l.len() > 0);
                assert(l.push(c)[l.len() - 1] == l.last());
                lema_palabras_no_vacias(l);
                assert(y.len() > 0);
                assert(palabras(l.push(c)) == y.update(y.len() - 1, y.last().push(c)));
                assert((x + y).last() == y.last());
                assert((x + y).update(x.len() + y.len() - 1, y.last().push(c)) =~= x + y.update(
                    y.len() - 1,
                    y.last().push(c),
                ));
                } else {
                assert(l.len() > 0 ==> l.push(c)[l.len() - 1] == l.last());
                assert(palabras(l.push(c)) == y.push(seq![c]));
                assert((x + y).push(seq![c]) =~= x + y.push(seq![c]));
                }
        }
    }
}

/// Dropping the `\r` of a line changes none of its words.
proof fn lema_palabras_sin_cr(l: Seq<char>)
    ensures
        palabras(sin_cr(l)) == palabras(l),
{
    if l.len() > 0 && l.last() == '\r' {
        assert(es_espacio_spec('\r'));
    }
}

/// Lines whose words are the same, one by one, have the same words.
proof fn lema_mismas_palabras(a: Seq<Seq<char>>, b: Seq<Seq<char>>)
    requires
        a.len() == b.len(),
        forall|i: int| 0 <= i < a.len() ==> palabras(#[trigger] a[i]) == palabras(b[i]),
    ensures
        palabras_de_lineas(a) == palabras_de_lineas(b),
    decreases a.len(),
{
    if a.len() > 0 {
        lema_mismas_palabras(a.drop_last(), b.drop_last());
        assert(palabras(a[a.len() - 1]) == palabras(b[b.len() - 1]));
    }
}

/// The words of the lines of a text are the words of the text.
pub proof fn lema_palabras_por_lineas(s: Seq<char>)
    ensures
        palabras_de_lineas(lineas(s)) == palabras(s),
{
    lema_palabras_por_trozos(s);
    lema_trozos(s);
    let t = trozos(s);
    let u = if t.last().len() == 0 {
        t.drop_last()
    } else {
        t
    };
    if t.last().len() == 0 {
        assert(palabras(t.last()) =~= seq![]);
        assert(palabras_de_lineas(t) =~= palabras_de_lineas(u));
    }
    let ls = lineas(s);
    assert(ls.len() == u.len());
    assert forall|i: int| 0 <= i < ls.len() implies palabras(#[trigger] ls[i]) == palabras(u[i]) by {
        lema_palabras_sin_cr(t[i]);
    }
    lema_mismas_palabras(ls, u);
}

/// The words of two runs of lines, one after the other.
pub proof fn lema_palabras_concat(a: Seq<Seq<char>>, b: Seq<Seq<char>>)
    ensures
        palabras_de_lineas(a + b) == palabras_de_lineas(a) + palabras_de_lineas(b),
    decreases b.len(),
{
    if b.len() == 0 {
        assert(a + b =~= a);
        assert(palabras_de_lineas(a) + palabras_de_lineas(b) =~= palabras_de_lineas(a));
    } else {
        lema_palabras_concat(a, b.drop_last());
        assert((a + b).drop_last() =~= a + b.drop_last());
        assert((a + b).last() == b.last());
        assert(palabras_de_lineas(a + b) =~= palabras_de_lineas(a) + palabras_de_lineas(b));
    }
}

/// Counting the words of a text gives the sum of counting the words of
/// its first `k` lines and of the lines after them, whatever `k`: the law
/// that lets a text be counted in blocks of lines, on as many threads as
/// there are blocks, with the partial counts merged at the end.
pub proof fn ley_conteo_por_bloques(s: Seq<char>, k: int)
    requires
        0 <= k <= lineas(s).len(),
    ensures
        conteo(en_minusculas(palabras(s))) == suma_mapas(
            conteo(en_minusculas(palabras_de_lineas(lineas(s).take(k)))),
            conteo(en_minusculas(palabras_de_lineas(lineas(s).skip(k)))),
        ),
{
    let ls = lineas(s);
    lema_palabras_por_lineas(s);
    assert(ls.take(k) + ls.skip(k) =~= ls);
    lema_palabras_concat(ls.take(k), ls.skip(k));
    let a = palabras_de_lineas(ls.take(k));
    let b = palabras_de_lineas(ls.skip(k));
    assert(en_minusculas(a + b) =~= en_minusculas(a) + en_minusculas(b));
    ley_conteo_concatenado(en_minusculas(a), en_minusculas(b));
}


/// A text has no more words than characters.
proof fn lema_palabras_acotadas(s: Seq<char>)
    ensures
        palabras(s).len() <= s.len(),
    decreases s.len(),
{
    if s.len() > 0 {
        lema_palabras_acotadas(s.drop_last());
        if s.len() >= 2 {
            lema_palabras_no_vacias(s.drop_last());
            assert(s.drop_last().last() == s[s.len() - 2]);
        }
    }
}

/// Lines have no more words than characters.
proof fn lema_palabras_de_lineas_acotadas(ls: Seq<Seq<char>>)
    ensures
        palabras_de_lineas(ls).len() <= suma_largos(ls),
    decreases ls.len(),
{
    if ls.len() > 0 {
        lema_palabras_de_lineas_acotadas(ls.drop_last());
        lema_palabras_acotadas(ls.last());
    }
}

/// The characters of two runs of lines add up.
proof fn lema_suma_concat(a: Seq<Seq<char>>, b: Seq<Seq<char>>)
    ensures
        suma_largos(a + b) == suma_largos(a) + suma_largos(b),
    decreases b.len(),
{
    if b.len() == 0 {
        assert(a + b =~= a);
    } else {
        lema_suma_concat(a, b.drop_last());
        assert((a + b).drop_last() =~= a + b.drop_last());
        assert((a + b).last() == b.last());
    }
}

/// A run of the lines has no more characters than all of them.
proof fn lema_suma_tramo(ls: Seq<Seq<char>>, a: int, b: int)
    requires
        0 <= a <= b <= ls.len(),
    ensures
        suma_largos(ls.subrange(a, b)) <= suma_largos(ls),
{
    assert(ls =~= ls.take(a) + ls.subrange(a, b) + ls.skip(b));
    lema_suma_concat(ls.take(a), ls.subrange(a, b));
    lema_suma_concat(ls.take(a) + ls.subrange(a, b), ls.skip(b));
}

/// Fewer lines, each no longer, have no more characters.
proof fn lema_suma_menor(a: Seq<Seq<char>>, b: Seq<Seq<char>>)
    requires
        a.len() <= b.len(),
        forall|i: int| 0 <= i < a.len() ==> (#[trigger] a[i]).len() <= b[i].len(),
    ensures
        suma_largos(a) <= suma_largos(b),
    decreases b.len(),
{
    if b.len() > 0 {
        if a.len() == b.len() {
            lema_suma_menor(a.drop_last(), b.drop_last());
            assert(a[a.len() - 1].len() <= b[b.len() - 1].len());
        } else {
            lema_suma_menor(a, b.drop_last());
        }
    }
}

/// The pieces between line feeds hold every character but the line feeds.
proof fn lema_suma_trozos(s: Seq<char>)
    ensures
        trozos(s).len() >= 1,
        suma_largos(trozos(s)) + trozos(s).len() - 1 == s.len(),
    decreases s.len(),
{
    lema_trozos(s);
    if s.len() == 0 {
        assert(trozos(s).drop_last() =~= seq![]);
        assert(suma_largos(trozos(s).drop_last()) == 0);
        assert(trozos(s).last().len() == 0);
    } else {
        let p = s.drop_last();
        lema_suma_trozos(p);
        lema_trozos(p);
        let t = trozos(p);
        if s.last() == '\n' {
            assert(trozos(s).drop_last() =~= t);
            assert(trozos(s).last() =~= seq![]);
        } else {
            assert(trozos(s).drop_last() =~= t.drop_last());
            assert(trozos(s).last() == t.last().push(s.last()));
        }
    }
}

/// The lines of a text have no more characters than the text.
proof fn lema_suma_lineas(s: Seq<char>)
    ensures
        suma_largos(lineas(s)) <= s.len(),
{
    lema_suma_trozos(s);
    let t = trozos(s);
    let ls = lineas(s);
    assert forall|i: int| 0 <= i < ls.len() implies (#[trigger] ls[i]).len() <= t[i].len() by {}
    lema_suma_menor(ls, t);
}

/// No word is counted more often than there are words.
proof fn lema_conteo_acotado(ws: Seq<Seq<char>>, k: Seq<char>)
    ensures
        cuenta_en(conteo(ws), k) <= ws.len(),
    decreases ws.len(),
{
    if ws.len() > 0 {
        lema_conteo_acotado(ws.drop_last(), k);
    }
}

/// Merging the count of the block `a..b` into the count of the lines
/// before it gives the count of the lines up to `b`, and no count
/// overflows while the lines hold at most `usize::MAX` characters.
proof fn lema_fusion_bloque(vs: Seq<Seq<char>>, a: int, b: int)
    requires
        0 <= a <= b <= vs.len(),
        suma_largos(vs) <= usize::MAX,
    ensures
        suma_largos(vs.subrange(a, b)) <= usize::MAX,
        ({
            let xs = en_minusculas(palabras_de_lineas(vs.take(a)));
            let ys = en_minusculas(palabras_de_lineas(vs.subrange(a, b)));
            &&& conteo(en_minusculas(palabras_de_lineas(vs.take(b)))) == suma_mapas(
                conteo(xs),
                conteo(ys),
            )
            &&& forall|k: Seq<char>|
                #![trigger conteo(xs).contains_key(k), conteo(ys).contains_key(k)]
                conteo(xs).contains_key(k) && conteo(ys).contains_key(k) ==> conteo(xs)[k]
                    + conteo(ys)[k] <= usize::MAX
        }),
{
    lema_suma_tramo(vs, a, b);
    lema_palabras_de_lineas_acotadas(vs);
    let xs = en_minusculas(palabras_de_lineas(vs.take(a)));
    let ys = en_minusculas(palabras_de_lineas(vs.subrange(a, b)));
    assert(vs.take(b) =~= vs.take(a) + vs.subrange(a, b));
    lema_palabras_concat(vs.take(a), vs.subrange(a, b));
    assert(vs =~= vs.take(b) + vs.skip(b));
    lema_palabras_concat(vs.take(b), vs.skip(b));
    assert(xs + ys =~= en_minusculas(palabras_de_lineas(vs.take(b))));
    ley_conteo_concatenado(xs, ys);
    assert forall|k: Seq<char>|
        #![trigger conteo(xs).contains_key(k), conteo(ys).contains_key(k)]
        conteo(xs).contains_key(k) && conteo(ys).contains_key(k) implies conteo(xs)[k]
        + conteo(ys)[k] <= usize::MAX by {
        lema_conteo_acotado(xs + ys, k);
        assert(suma_mapas(conteo(xs), conteo(ys))[k] == cuenta_en(conteo(xs + ys), k));
    }
}

/// The lines of `texto` (as `str::lines` gives them), as slices of it.
pub fn lineas_de<'a>(texto: &'a str) -> (r: Vec<&'a str>)
    ensures
        vistas_str(r@) == lineas(texto@),
{
    let v = caracteres(texto);
    let rangos = rangos_lineas(&v);
    let n = rangos.len();
    let mut res: Vec<&'a str> = Vec::new();
    let mut k: usize = 0;
    assert(lineas(v@).take(0) =~= seq![]);
    while k < n
        invariant
            n == rangos@.len(),
            v@ == texto@,
            rangos_de_lineas(v@, rangos@),
            k <= n,
            vistas_str(res@) == lineas(v@).take(k as int),
        decreases n - k,
    {
        let (a, b) = rangos[k];
        assert(rangos@[k as int].0 <= rangos@[k as int].1 <= v@.len());
        let s = texto.substring_char(a, b);
        assert(s@ == v@.subrange(a as int, b as int));
        assert(s@ == lineas(v@)[k as int]);
        let ghost antes = res@;
        res.push(s);
        assert(vistas_str(res@) =~= vistas_str(antes).push(s@));
        assert(lineas(v@).take(k + 1) =~= lineas(v@).take(k as int).push(lineas(v@)[k as int]));
        k = k + 1;
    }
    assert(lineas(v@).take(n as int) =~= lineas(v@));
    res
}

/// How many lines go in each block when `n` lines are shared among
/// `hilos` workers: `n / hilos` rounded up.
pub open spec fn tam_bloque_spec(n: nat, hilos: nat) -> nat {
    if n % hilos == 0 {
        n / hilos
    } else {
        n / hilos + 1
    }
}

/// The blocks `[a, b)` of `n` lines taken `tam` at a time, in order, the
/// last one possibly shorter (what `slice::chunks(tam)` yields).
pub open spec fn es_particion(r: Seq<(usize, usize)>, n: nat, tam: nat) -> bool {
    &&& (n == 0 <==> r.len() == 0)
    &&& forall|i: int|
        0 <= i < r.len() ==> {
            &&& (#[trigger] r[i]).0 == i * tam
            &&& r[i].1 == if r[i].0 + tam <= n {
                r[i].0 + tam
            } else {
                n as int
            }
            &&& r[i].0 < r[i].1
        }
    &&& r.len() > 0 ==> r.last().1 == n
    &&& forall|i: int| 0 < i < r.len() ==> (#[trigger] r[i]).0 == r[i - 1].1
}

/// The blocks that `n_lineas` lines are cut into for `hilos` workers: as
/// many lines in each as `tam_bloque_spec` says, and never more blocks
/// than workers.
pub fn bloques(n_lineas: usize, hilos: usize) -> (r: Vec<(usize, usize)>)
    requires
        hilos > 0,
    ensures
        es_particion(r@, n_lineas as nat, tam_bloque_spec(n_lineas as nat, hilos as nat)),
        r@.len() <= hilos,
{
    assert(n_lineas % hilos != 0 ==> n_lineas / hilos < n_lineas) by (nonlinear_arith)
        requires
            hilos > 0,
    ;
    let tam: usize = if n_lineas % hilos == 0 {
        n_lineas / hilos
    } else {
        n_lineas / hilos + 1
    };
    assert(tam * hilos >= n_lineas) by (nonlinear_arith)
        requires
            hilos > 0,
            tam == tam_bloque_spec(n_lineas as nat, hilos as nat),
    ;
    assert(n_lineas > 0 ==> tam > 0) by (nonlinear_arith)
        requires
            tam * hilos >= n_lineas,
    ;
    let mut r: Vec<(usize, usize)> = Vec::new();
    let mut a: usize = 0;
    while a < n_lineas
        invariant
            tam == tam_bloque_spec(n_lineas as nat, hilos as nat),
            n_lineas > 0 ==> tam > 0,
            tam * hilos >= n_lineas,
            a <= n_lineas,
            a < n_lineas ==> a == r@.len() * tam,
            r@.len() > 0 ==> r@.last().1 == a,
            r@.len() == 0 ==> a == 0,
            forall|i: int| 0 < i < r@.len() ==> (#[trigger] r@[i]).0 == r@[i - 1].1,
            forall|i: int|
                0 <= i < r@.len() ==> {
                    &&& (#[trigger] r@[i]).0 == i * tam
                    &&& r@[i].1 == if r@[i].0 + tam <= n_lineas {
                        r@[i].0 + tam
                    } else {
                        n_lineas as int
                    }
                    &&& r@[i].0 < r@[i].1
                },
        decreases n_lineas - a,
    {
        let b = if n_lineas - a >= tam {
            a + tam
        } else {
            n_lineas
        };
        let ghost i = r@.len();
        r.push((a, b));
        assert(r@.len() * tam == i * tam + tam) by (nonlinear_arith)
            requires
                r@.len() == i + 1,
        ;
        a = b;
    }
    proof {
        if r@.len() > 0 {
            let k = r@.len() - 1;
            assert(r@[k].0 == k * tam);
            assert(k * tam < n_lineas);
            assert(k < hilos) by (nonlinear_arith)
                requires
                    k * tam < n_lineas,
                    tam * hilos >= n_lineas,
                    tam > 0,
                    k >= 0,
            ;
        }
    }
    r
}

/// Whether the lines `desde..hasta` of `ls` hold at most `usize::MAX`
/// characters in all: what `contar_tramo` asks of its caller.
pub fn cabe_tramo(ls: &[&str], desde: usize, hasta: usize) -> (r: bool)
    requires
        desde <= hasta <= ls@.len(),
    ensures
        r == (suma_largos(vistas_str(ls@).subrange(desde as int, hasta as int)) <= usize::MAX),
{
    let ghost vs = vistas_str(ls@);
    let mut suma: usize = 0;
    let mut i = desde;
    assert(vs.subrange(desde as int, desde as int) =~= seq![]);
    while i < hasta
        invariant
            desde <= i <= hasta <= ls@.len(),
            vs == vistas_str(ls@),
            suma == suma_largos(vs.subrange(desde as int, i as int)),
        decreases hasta - i,
    {
        let largo = ls[i].unicode_len();
        assert(vs.subrange(desde as int, i + 1).drop_last() =~= vs.subrange(desde as int, i as int));
        assert(vs.subrange(desde as int, i + 1).last() == ls@[i as int]@);
        if largo > usize::MAX - suma {
            proof {
                assert(vs.subrange(desde as int, hasta as int).subrange(0, i + 1 - desde)
                    =~= vs.subrange(desde as int, i + 1));
                lema_suma_tramo(vs.subrange(desde as int, hasta as int), 0, i + 1 - desde);
            }
            return false;
        }
        suma = suma + largo;
        i = i + 1;
    }
    true
}

/// Counts the words of the lines `desde..hasta` of `ls`, ignoring case: the
/// work of one block. The lines must not hold more than `usize::MAX`
/// characters in all, so that no count can overflow.
pub fn contar_tramo(ls: &[&str], desde: usize, hasta: usize) -> (r: Frecuencias)
    requires
        desde <= hasta <= ls@.len(),
        suma_largos(vistas_str(ls@).subrange(desde as int, hasta as int)) <= usize::MAX,
    ensures
        r@ == conteo(
            en_minusculas(palabras_de_lineas(vistas_str(ls@).subrange(desde as int, hasta as int))),
        ),
{
    let ghost vs = vistas_str(ls@);
    let mut f = Frecuencias::new();
    let mut i = desde;
    assert(vs.subrange(desde as int, desde as int) =~= seq![]);
    while i < hasta
        invariant
            desde <= i <= hasta <= ls@.len(),
            vs == vistas_str(ls@),
            suma_largos(vs.subrange(desde as int, hasta as int)) <= usize::MAX,
            f@ == conteo(en_minusculas(palabras_de_lineas(vs.subrange(desde as int, i as int)))),
            forall|k: Seq<char>| #[trigger]
                f@.contains_key(k) ==> f@[k] <= palabras_de_lineas(
                    vs.subrange(desde as int, i as int),
                ).len(),
        decreases hasta - i,
    {
        let ghost previas = palabras_de_lineas(vs.subrange(desde as int, i as int));
        proof {
            let sig = vs.subrange(desde as int, i + 1);
            assert(sig.drop_last() =~= vs.subrange(desde as int, i as int));
            assert(sig.last() == ls@[i as int]@);
            assert(vs.subrange(desde as int, hasta as int).subrange(0, i + 1 - desde) =~= sig);
            lema_suma_tramo(vs.subrange(desde as int, hasta as int), 0, i + 1 - desde);
            lema_palabras_de_lineas_acotadas(sig);
        }
        let v = caracteres(ls[i]);
        let ws = partir_palabras(&v);
        let m = ws.len();
        let mut j: usize = 0;
        assert(previas + palabras(ls@[i as int]@).take(0) =~= previas);
        while j < m
            invariant
                m == ws@.len(),
                j <= m,
                vistas(ws@) == palabras(ls@[i as int]@),
                previas.len() + m <= usize::MAX,
                f@ == conteo(en_minusculas(previas + palabras(ls@[i as int]@).take(j as int))),
                forall|k: Seq<char>| #[trigger]
                    f@.contains_key(k) ==> f@[k] <= previas.len() + j,
            decreases m - j,
        {
            let ghost hechas = previas + palabras(ls@[i as int]@).take(j as int);
            let ghost sig = previas + palabras(ls@[i as int]@).take(j + 1);
            assert(en_minusculas(sig).drop_last() =~= en_minusculas(hechas));
            assert(en_minusculas(sig).last() == minusculas(ws@[j as int]@));
            let s = texto_de(&ws[j]);
            let clave = a_minusculas(s.as_str());
            let ghost antes = f@;
            f.sumar(clave, 1);
            assert forall|k: Seq<char>| #[trigger] f@.contains_key(k) implies f@[k]
                <= previas.len() + j + 1 by {
                if antes.contains_key(k) {
                }
            }
            j = j + 1;
        }
        assert(palabras(ls@[i as int]@).take(m as int) =~= palabras(ls@[i as int]@));
        i = i + 1;
    }
    f
}

/// Counts the words of `texto`, ignoring case, in blocks of lines as
/// `bloques` cuts them for `hilos` workers, merging the count of each
/// block into the total. With no lines or no workers the count is empty;
/// otherwise it is the count of the whole text (`ley_conteo_por_bloques`).
pub fn contar_palabras_por_bloques(texto: &str, hilos: usize) -> (r: Frecuencias)
    ensures
        hilos == 0 ==> r@ == Map::<Seq<char>, nat>::empty(),
        hilos > 0 ==> r@ == conteo(en_minusculas(palabras(texto@))),
{
    let ls = lineas_de(texto);
    let ghost vs = vistas_str(ls@);
    proof {
        lema_palabras_por_lineas(texto@);
    }
    if ls.len() == 0 || hilos == 0 {
        proof {
            if hilos > 0 {
                assert(palabras(texto@) =~= seq![]);
                assert(en_minusculas(palabras(texto@)) =~= seq![]);
            }
        }
        return Frecuencias::new();
    }
    // A text held in memory has at most `usize::MAX` characters, and so
    // its lines have no more than that in all.
    let todos = caracteres(texto);
    proof {
        assert(todos@.len() <= usize::MAX);
        lema_suma_lineas(texto@);
    }
    let bs = bloques(ls.len(), hilos);
    let nb = bs.len();
    let mut total = Frecuencias::new();
    let mut i: usize = 0;
    let mut hecho: usize = 0;
    assert(vs.take(0) =~= seq![]);
    assert(en_minusculas(palabras_de_lineas(vs.take(0))) =~= seq![]);
    while i < nb
        invariant
            nb == bs@.len(),
            vs == vistas_str(ls@),
            vs == lineas(texto@),
            ls@.len() > 0,
            es_particion(bs@, ls@.len() as nat, tam_bloque_spec(ls@.len() as nat, hilos as nat)),
            i <= nb,
            i == 0 ==> hecho == 0,
            0 < i ==> hecho == bs@[i - 1].1,
            hecho <= ls@.len(),
            i < nb ==> hecho == bs@[i as int].0,
            suma_largos(vs) <= usize::MAX,
            total@ == conteo(en_minusculas(palabras_de_lineas(vs.take(hecho as int)))),
        decreases nb - i,
    {
        let (a, b) = bs[i];
        assert(bs@[i as int].0 < bs@[i as int].1 <= ls@.len());
        proof {
            lema_fusion_bloque(vs, a as int, b as int);
        }
        let parcial = contar_tramo(&ls, a, b);
        total.fusionar(&parcial);
        hecho = b;
        i = i + 1;
    }
    assert(vs.take(ls@.len() as int) =~= vs);
    total
}

} // verus!
