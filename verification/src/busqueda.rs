//! Line search that hands back views into the searched text, never copies.
use vstd::prelude::*;
use vstd::string::StrSliceExecFns;
use vstd::utf8::encode_utf8;
use crate::texto::{buscar, buscar_desde, caracteres, lineas, longitud_utf8, rangos_lineas, tramo};

verus! {

/// Whether `p` occurs in `s` (`str::contains`).
pub open spec fn contiene(s: Seq<char>, p: Seq<char>) -> bool {
    buscar_desde(s, p, 0) is Some
}

/// The lines of `ls` that contain `p`, in order.
pub open spec fn filtrar_con(ls: Seq<Seq<char>>, p: Seq<char>) -> Seq<Seq<char>>
    decreases ls.len(),
{
    if ls.len() == 0 {
        seq![]
    } else {
        let previas = filtrar_con(ls.drop_last(), p);
        if contiene(ls.last(), p) {
            previas.push(ls.last())
        } else {
            previas
        }
    }
}

/// The views of a sequence of string slices.
pub open spec fn vistas_str(ss: Seq<&str>) -> Seq<Seq<char>> {
    ss.map_values(|s: &str| s@)
}

/// The lines of `texto` that contain `patron`, as slices of `texto`.
pub fn lineas_con<'a, 'b>(texto: &'a str, patron: &'b str) -> (r: Vec<&'a str>)
    ensures
        vistas_str(r@) == filtrar_con(lineas(texto@), patron@),
{
    let v = caracteres(texto);
    let p = caracteres(patron);
    let rangos = rangos_lineas(&v);
    let n = rangos.len();
    let mut res: Vec<&'a str> = Vec::new();
    let mut k: usize = 0;
    assert(lineas(v@).take(0) =~= seq![]);
    while k < n
        invariant
            n == rangos@.len(),
            v@ == texto@,
            p@ == patron@,
            crate::texto::rangos_de_lineas(v@, rangos@),
            k <= n,
            vistas_str(res@) == filtrar_con(lineas(v@).take(k as int), p@),
        decreases n - k,
    {
        let (a, b) = rangos[k];
        assert(rangos@[k as int].0 <= rangos@[k as int].1 <= v@.len());
        let linea = tramo(&v, a, b);
        assert(lineas(v@).take(k + 1).drop_last() =~= lineas(v@).take(k as int));
        assert(lineas(v@).take(k + 1).last() == linea@);
        if buscar(&linea, &p, 0).is_some() {
            let s = texto.substring_char(a, b);
            res.push(s);
            assert(vistas_str(res@) =~= filtrar_con(lineas(v@).take(k + 1), p@));
        } else {
            assert(vistas_str(res@) =~= filtrar_con(lineas(v@).take(k + 1), p@));
        }
        k = k + 1;
    }
    assert(lineas(v@).take(n as int) =~= lineas(v@));
    res
}

/// The length in bytes of a text in UTF-8.
pub open spec fn bytes(s: Seq<char>) -> nat {
    encode_utf8(s).len()
}

/// The longest line in bytes; of several, the last one; empty when there
/// is no line (`Iterator::max_by_key(str::len)`).
pub open spec fn mas_larga(ls: Seq<Seq<char>>) -> Seq<char>
    decreases ls.len(),
{
    if ls.len() == 0 {
        seq![]
    } else {
        let m = mas_larga(ls.drop_last());
        if bytes(ls.last()) >= bytes(m) {
            ls.last()
        } else {
            m
        }
    }
}

/// The longest line of the two texts, lines of `texto_a` first.
pub fn linea_mas_larga<'a>(texto_a: &'a str, texto_b: &'a str) -> (r: &'a str)
    ensures
        r@ == mas_larga(lineas(texto_a@) + lineas(texto_b@)),
{
    let vacia: &'a str = "";
    proof {
        reveal_strlit("");
    }
    let mut mejor: &'a str = vacia;
    let mut mejor_len: u128 = 0;
    let ghost mut todas: Seq<Seq<char>> = seq![];
    let va = caracteres(texto_a);
    let ra = rangos_lineas(&va);
    let na = ra.len();
    let mut k: usize = 0;
    assert(lineas(va@).take(0) =~= seq![]);
    assert(encode_utf8(seq![]) =~= seq![]);
    while k < na
        invariant
            na == ra@.len(),
            va@ == texto_a@,
            crate::texto::rangos_de_lineas(va@, ra@),
            k <= na,
            mejor@ == mas_larga(lineas(va@).take(k as int)),
            mejor_len == bytes(mejor@),
        decreases na - k,
    {
        let (a, b) = ra[k];
        assert(ra@[k as int].0 <= ra@[k as int].1 <= va@.len());
        let s = texto_a.substring_char(a, b);
        let l = longitud_utf8(&tramo(&va, a, b));
        assert(lineas(va@).take(k + 1).drop_last() =~= lineas(va@).take(k as int));
        assert(lineas(va@).take(k + 1).last() == s@);
        if l >= mejor_len {
            mejor = s;
            mejor_len = l;
        }
        k = k + 1;
    }
    assert(lineas(va@).take(na as int) =~= lineas(va@));
    let vb = caracteres(texto_b);
    let rb = rangos_lineas(&vb);
    let nb = rb.len();
    let mut k: usize = 0;
    assert((lineas(va@) + lineas(vb@).take(0)) =~= lineas(va@));
    while k < nb
        invariant
            nb == rb@.len(),
            vb@ == texto_b@,
            va@ == texto_a@,
            crate::texto::rangos_de_lineas(vb@, rb@),
            k <= nb,
            mejor@ == mas_larga(lineas(va@) + lineas(vb@).take(k as int)),
            mejor_len == bytes(mejor@),
        decreases nb - k,
    {
        let (a, b) = rb[k];
        assert(rb@[k as int].0 <= rb@[k as int].1 <= vb@.len());
        let s = texto_b.substring_char(a, b);
        let l = longitud_utf8(&tramo(&vb, a, b));
        assert((lineas(va@) + lineas(vb@).take(k + 1)).drop_last() =~= lineas(va@) + lineas(
            vb@,
        ).take(k as int));
        assert((lineas(va@) + lineas(vb@).take(k + 1)).last() == s@);
        if l >= mejor_len {
            mejor = s;
            mejor_len = l;
        }
        k = k + 1;
    }
    assert(lineas(vb@).take(nb as int) =~= lineas(vb@));
    mejor
}

/// A line split around the first occurrence of a pattern; all three parts
/// are slices of the line.
#[derive(Debug, PartialEq)]
pub struct Resaltado<'a> {
    pub antes: &'a str,
    pub coincidencia: &'a str,
    pub despues: &'a str,
}

impl<'a> Resaltado<'a> {
    /// Splits `linea` around the first occurrence of `patron`; `None` when
    /// it does not occur.
    pub fn buscar(linea: &'a str, patron: &str) -> (r: Option<Resaltado<'a>>)
        ensures
            buscar_desde(linea@, patron@, 0) is None ==> r is None,
            buscar_desde(linea@, patron@, 0) matches Some(j) ==> r matches Some(x) && x.antes@
                == linea@.take(j) && x.coincidencia@ == patron@ && x.despues@ == linea@.skip(
                j + patron@.len(),
            ),
    {
        let v = caracteres(linea);
        let p = caracteres(patron);
        match buscar(&v, &p, 0) {
            None => None,
            Some(j) => {
                proof {
                    crate::texto::lema_buscar_desde(v@, p@, 0);
                }
                let nv = v.len();
                assert(j + p@.len() <= nv);
                let fin = j + p.len();
                let antes = linea.substring_char(0, j);
                let coincidencia = linea.substring_char(j, fin);
                let despues = linea.substring_char(fin, nv);
                assert(antes@ =~= linea@.take(j as int));
                assert(despues@ =~= linea@.skip(fin as int));
                Some(Resaltado { antes, coincidencia, despues })
            },
        }
    }
}

/// The three parts of a highlight put back together give the line.
pub proof fn ley_resaltado_recompone(linea: Seq<char>, patron: Seq<char>, j: int)
    requires
        buscar_desde(linea, patron, 0) == Some(j),
    ensures
        linea.take(j) + patron + linea.skip(j + patron.len()) == linea,
{
    crate::texto::lema_buscar_desde(linea, patron, 0);
    assert(linea.take(j) + patron + linea.skip(j + patron.len()) =~= linea);
}

/// Every line that `lineas_con` keeps is one of the lines and contains the
/// pattern, and every line that contains it is kept.
pub proof fn ley_lineas_con(ls: Seq<Seq<char>>, p: Seq<char>)
    ensures
        forall|i: int|
            0 <= i < filtrar_con(ls, p).len() ==> ls.contains(#[trigger] filtrar_con(ls, p)[i])
                && contiene(filtrar_con(ls, p)[i], p),
        forall|i: int|
            0 <= i < ls.len() && contiene(#[trigger] ls[i], p) ==> filtrar_con(ls, p).contains(ls[i]),
    decreases ls.len(),
{
    if ls.len() > 0 {
        let q = ls.drop_last();
        ley_lineas_con(q, p);
        assert forall|i: int| 0 <= i < filtrar_con(ls, p).len() implies ls.contains(
            #[trigger] filtrar_con(ls, p)[i],
        ) && contiene(filtrar_con(ls, p)[i], p) by {
            if i < filtrar_con(q, p).len() {
                assert(filtrar_con(ls, p)[i] == filtrar_con(q, p)[i]);
                let j = choose|j: int| 0 <= j < q.len() && q[j] == filtrar_con(q, p)[i];
                assert(ls[j] == q[j]);
            } else {
                assert(ls[ls.len() - 1] == ls.last());
            }
        }
        assert forall|i: int| 0 <= i < ls.len() && contiene(#[trigger] ls[i], p) implies filtrar_con(
            ls,
            p,
        ).contains(ls[i]) by {
            if i < ls.len() - 1 {
                assert(q[i] == ls[i]);
                let j = choose|j: int| 0 <= j < filtrar_con(q, p).len() && filtrar_con(q, p)[j] == q[i];
                assert(filtrar_con(ls, p)[j] == filtrar_con(q, p)[j]);
            } else {
                assert(filtrar_con(ls, p)[filtrar_con(ls, p).len() - 1] == ls.last());
            }
        }
    }
}

/// The longest line is one of the lines (or empty when there is none), and
/// no line has more bytes.
pub proof fn ley_mas_larga(ls: Seq<Seq<char>>)
    ensures
        ls.len() == 0 ==> mas_larga(ls) == Seq::<char>::empty(),
        ls.len() > 0 ==> ls.contains(mas_larga(ls)),
        forall|i: int| 0 <= i < ls.len() ==> bytes(#[trigger] ls[i]) <= bytes(mas_larga(ls)),
    decreases ls.len(),
{
    if ls.len() > 0 {
        let q = ls.drop_last();
        ley_mas_larga(q);
        assert(ls[ls.len() - 1] == ls.last());
        if q.len() > 0 && bytes(ls.last()) < bytes(mas_larga(q)) {
            let j = choose|j: int| 0 <= j < q.len() && q[j] == mas_larga(q);
            assert(ls[j] == q[j]);
        }
        assert forall|i: int| 0 <= i < ls.len() implies bytes(#[trigger] ls[i]) <= bytes(
            mas_larga(ls),
        ) by {
            if i < ls.len() - 1 {
                assert(q[i] == ls[i]);
            }
        }
    }
}

} // verus!
