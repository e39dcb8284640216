//! The text side of a sensor log `nombre:valor;nombre:valor;...`: the log
//! is cut at each `;`, each entry at its first `:`, and both sides are
//! trimmed. Entries without a `:` are dropped. Reading each value as a
//! floating-point number is left to the caller.
use vstd::prelude::*;
use crate::texto::{buscar, buscar_desde, caracteres, recortado, recortar, texto_de, tramo, Borde};

verus! {

/// The pieces of `s` between the occurrences of `sep`, the last one
/// possibly empty (`str::split(sep)`).
pub open spec fn partes(s: Seq<char>, sep: char) -> Seq<Seq<char>>
    decreases s.len(),
{
    if s.len() == 0 {
        seq![seq![]]
    } else {
        let previas = partes(s.drop_last(), sep);
        if s.last() == sep {
            previas.push(seq![])
        } else {
            previas.update(previas.len() - 1, previas.last().push(s.last()))
        }
    }
}

/// There is always at least one piece.
proof fn lema_partes(s: Seq<char>, sep: char)
    ensures
        partes(s, sep).len() >= 1,
    decreases s.len(),
{
    if s.len() > 0 {
        lema_partes(s.drop_last(), sep);
    }
}

/// An entry cut at its first `:` (`str::split_once(':')`), both sides
/// trimmed; nothing when it has no `:`.
pub open spec fn entrada(p: Seq<char>) -> Option<(Seq<char>, Seq<char>)> {
    match buscar_desde(p, seq![':'], 0) {
        Some(i) => Some(
            (
                recortado(p.subrange(0, i), Borde::Espacios),
                recortado(p.subrange(i + 1, p.len() as int), Borde::Espacios),
            ),
        ),
        None => None,
    }
}

/// The entries of the pieces `ps` that have a `:`, in order.
pub open spec fn entradas_de(ps: Seq<Seq<char>>) -> Seq<(Seq<char>, Seq<char>)>
    decreases ps.len(),
{
    if ps.len() == 0 {
        seq![]
    } else {
        let previas = entradas_de(ps.drop_last());
        match entrada(ps.last()) {
            Some(e) => previas.push(e),
            None => previas,
        }
    }
}

/// The pairs as plain values.
pub open spec fn vistas_pares(v: Seq<(String, String)>) -> Seq<(Seq<char>, Seq<char>)> {
    v.map_values(|e: (String, String)| (e.0@, e.1@))
}

/// The entry of one piece, if it has a `:`.
fn entrada_de(p: &Vec<char>) -> (r: Option<(String, String)>)
    ensures
        r matches Some(x) ==> entrada(p@) == Some((x.0@, x.1@)),
        r is None ==> entrada(p@) is None,
{
    let dos_puntos: Vec<char> = vec![':'];
    assert(dos_puntos@ =~= seq![':']);
    match buscar(p, &dos_puntos, 0) {
        None => None,
        Some(i) => {
            let n = p.len();
            proof {
                crate::texto::lema_buscar_desde(p@, seq![':'], 0);
                assert(crate::texto::aparece_en(p@, seq![':'], i as int));
                assert(seq![':'].len() == 1);
                assert(i + 1 <= n);
            }
            let nombre = recortar(&tramo(p, 0, i), Borde::Espacios);
            let valor = recortar(&tramo(p, i + 1, n), Borde::Espacios);
            Some((texto_de(&nombre), texto_de(&valor)))
        },
    }
}

/// The `(nombre, valor)` entries of a sensor log, trimmed, in order; the
/// pieces without a `:` are left out.
pub fn entradas_de_registro(log: &str) -> (r: Vec<(String, String)>)
    ensures
        vistas_pares(r@) == entradas_de(partes(log@, ';')),
{
    let v = caracteres(log);
    let n = v.len();
    let mut res: Vec<(String, String)> = Vec::new();
    let mut actual: Vec<char> = Vec::new();
    let mut i: usize = 0;
    proof {
        lema_partes(v@.take(0), ';');
        assert(v@.take(0) =~= seq![]);
        assert(partes(v@.take(0), ';').drop_last() =~= seq![]);
    }
    while i < n
        invariant
            n == v@.len(),
            v@ == log@,
            i <= n,
            partes(v@.take(i as int), ';').len() >= 1,
            vistas_pares(res@) == entradas_de(partes(v@.take(i as int), ';').drop_last()),
            actual@ == partes(v@.take(i as int), ';').last(),
        decreases n - i,
    {
        let c = v[i];
        let ghost previas = partes(v@.take(i as int), ';');
        proof {
            assert(v@.take(i + 1).drop_last() =~= v@.take(i as int));
            assert(v@.take(i + 1).last() == c);
            lema_partes(v@.take(i + 1), ';');
        }
        if c == ';' {
            let ghost antes = res@;
            match entrada_de(&actual) {
                Some(e) => {
                    res.push(e);
                    assert(vistas_pares(res@) =~= vistas_pares(antes).push((e.0@, e.1@)));
                },
                None => {},
            }
            assert(partes(v@.take(i + 1), ';').drop_last() =~= previas);
            actual = Vec::new();
            assert(actual@ =~= seq![]);
        } else {
            actual.push(c);
            assert(partes(v@.take(i + 1), ';').drop_last() =~= previas.drop_last());
        }
        i = i + 1;
    }
    assert(v@.take(n as int) =~= v@);
    let ghost antes = res@;
    match entrada_de(&actual) {
        Some(e) => {
            res.push(e);
            assert(vistas_pares(res@) =~= vistas_pares(antes).push((e.0@, e.1@)));
        },
        None => {},
    }
    res
}

} // verus!
