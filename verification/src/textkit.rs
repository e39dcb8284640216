//! The logic of a recursive search-and-replace tool: what matches in one
//! file's text, how a file's text changes, and the report's totals. Walking
//! the directory tree and reading or writing files is left to the caller.
use vstd::prelude::*;
use crate::busqueda::contiene;
use crate::texto::{
    a_minusculas, anexar, anexar_str, aparece_en, buscar, caracteres, coincide_en, decimal,
    decimal_spec, lineas, minusculas, partir_lineas, texto_de, vistas,
};

verus! {

/// A match: the file, the line number (from 1) and the whole line.
#[derive(Debug, PartialEq)]
pub struct Coincidencia {
    pub archivo: String,
    pub linea: usize,
    pub contenido: String,
}

/// A change made (or that would be made) to a file.
#[derive(Debug, PartialEq)]
pub struct Cambio {
    pub archivo: String,
    pub ocurrencias: usize,
}

/// A match as plain values.
pub open spec fn vista_coincidencia(c: Coincidencia) -> (Seq<char>, nat, Seq<char>) {
    (c.archivo@, c.linea as nat, c.contenido@)
}

/// Whether a line matches: it contains the pattern, comparing the lower-case
/// forms of both unless the search is case-sensitive.
pub open spec fn linea_coincide(l: Seq<char>, p: Seq<char>, sensible: bool) -> bool {
    if sensible {
        contiene(l, p)
    } else {
        contiene(minusculas(l), minusculas(p))
    }
}

/// The matches among the lines `ls` of `archivo`, in order.
pub open spec fn coincidencias_en(
    archivo: Seq<char>,
    ls: Seq<Seq<char>>,
    p: Seq<char>,
    sensible: bool,
) -> Seq<(Seq<char>, nat, Seq<char>)>
    decreases ls.len(),
{
    if ls.len() == 0 {
        seq![]
    } else {
        let previas = coincidencias_en(archivo, ls.drop_last(), p, sensible);
        if linea_coincide(ls.last(), p, sensible) {
            previas.push((archivo, ls.len(), ls.last()))
        } else {
            previas
        }
    }
}

/// The matches of `patron` in the text `contenido` of the file `archivo`:
/// one per matching line, with its number and its text.
pub fn buscar_en_contenido(
    archivo: &str,
    contenido: &str,
    patron: &str,
    sensible_a_mayus: bool,
) -> (r: Vec<Coincidencia>)
    ensures
        r@.map_values(|c: Coincidencia| vista_coincidencia(c)) == coincidencias_en(
            archivo@,
            lineas(contenido@),
            patron@,
            sensible_a_mayus,
        ),
{
    let patron_comparar = if sensible_a_mayus {
        caracteres(patron)
    } else {
        let m = a_minusculas(patron);
        caracteres(m.as_str())
    };
    let v = caracteres(contenido);
    let ls = partir_lineas(&v);
    let n = ls.len();
    let mut res: Vec<Coincidencia> = Vec::new();
    let mut k: usize = 0;
    assert(vistas(ls@).take(0) =~= seq![]);
    while k < n
        invariant
            n == ls@.len(),
            vistas(ls@) == lineas(contenido@),
            sensible_a_mayus ==> patron_comparar@ == patron@,
            !sensible_a_mayus ==> patron_comparar@ == minusculas(patron@),
            k <= n,
            res@.map_values(|c: Coincidencia| vista_coincidencia(c)) == coincidencias_en(
                archivo@,
                vistas(ls@).take(k as int),
                patron@,
                sensible_a_mayus,
            ),
        decreases n - k,
    {
        let ghost previas = vistas(ls@).take(k as int);
        assert(vistas(ls@).take(k + 1).drop_last() =~= previas);
        assert(vistas(ls@).take(k + 1).last() == ls@[k as int]@);
        let linea = texto_de(&ls[k]);
        let comparar = if sensible_a_mayus {
            caracteres(linea.as_str())
        } else {
            let m = a_minusculas(linea.as_str());
            caracteres(m.as_str())
        };
        let ghost antes = res@.map_values(|c: Coincidencia| vista_coincidencia(c));
        if buscar(&comparar, &patron_comparar, 0).is_some() {
            let c = Coincidencia { archivo: archivo.to_owned(), linea: k + 1, contenido: linea };
            res.push(c);
            assert(res@.map_values(|c: Coincidencia| vista_coincidencia(c)) =~= antes.push(
                vista_coincidencia(c),
            ));
        }
        k = k + 1;
    }
    assert(vistas(ls@).take(n as int) =~= vistas(ls@));
    res
}

/// The file extensions taken to be binary, which the search skips.
pub open spec fn extension_binaria(e: Seq<char>) -> bool {
    ||| e == seq!['p', 'n', 'g']
    ||| e == seq!['j', 'p', 'g']
    ||| e == seq!['j', 'p', 'e', 'g']
    ||| e == seq!['g', 'i', 'f']
    ||| e == seq!['i', 'c', 'o']
    ||| e == seq!['p', 'd', 'f']
    ||| e == seq!['z', 'i', 'p']
    ||| e == seq!['e', 'x', 'e']
    ||| e == seq!['s', 'o']
    ||| e == seq!['d', 'y', 'l', 'i', 'b']
    ||| e == seq!['o']
    ||| e == seq!['r', 'l', 'i', 'b']
}

/// Whether a file with this extension (as `Path::extension` gives it, when
/// it is valid UTF-8) is probably binary. The comparison is exact: `PNG`
/// is not `png`.
pub fn es_binario_probable(extension: Option<&str>) -> (r: bool)
    ensures
        r == (extension matches Some(e) && extension_binaria(e@)),
{
    match extension {
        None => false,
        Some(e) => {
            let v = caracteres(e);
            let c0: Vec<char> = vec!['p', 'n', 'g'];
            assert(c0@ =~= seq!['p', 'n', 'g']);
            let c1: Vec<char> = vec!['j', 'p', 'g'];
            assert(c1@ =~= seq!['j', 'p', 'g']);
            let c2: Vec<char> = vec!['j', 'p', 'e', 'g'];
            assert(c2@ =~= seq!['j', 'p', 'e', 'g']);
            let c3: Vec<char> = vec!['g', 'i', 'f'];
            assert(c3@ =~= seq!['g', 'i', 'f']);
            let c4: Vec<char> = vec!['i', 'c', 'o'];
            assert(c4@ =~= seq!['i', 'c', 'o']);
            let c5: Vec<char> = vec!['p', 'd', 'f'];
            assert(c5@ =~= seq!['p', 'd', 'f']);
            let c6: Vec<char> = vec!['z', 'i', 'p'];
            assert(c6@ =~= seq!['z', 'i', 'p']);
            let c7: Vec<char> = vec!['e', 'x', 'e'];
            assert(c7@ =~= seq!['e', 'x', 'e']);
            let c8: Vec<char> = vec!['s', 'o'];
            assert(c8@ =~= seq!['s', 'o']);
            let c9: Vec<char> = vec!['d', 'y', 'l', 'i', 'b'];
            assert(c9@ =~= seq!['d', 'y', 'l', 'i', 'b']);
            let c10: Vec<char> = vec!['o'];
            assert(c10@ =~= seq!['o']);
            let c11: Vec<char> = vec!['r', 'l', 'i', 'b'];
            assert(c11@ =~= seq!['r', 'l', 'i', 'b']);
            crate::texto::iguales(&v, &c0) || crate::texto::iguales(&v, &c1) || crate::texto::iguales(&v, &c2) || crate::texto::iguales(&v, &c3) || crate::texto::iguales(&v, &c4) || crate::texto::iguales(&v, &c5) || crate::texto::iguales(&v, &c6) || crate::texto::iguales(&v, &c7) || crate::texto::iguales(&v, &c8) || crate::texto::iguales(&v, &c9) || crate::texto::iguales(&v, &c10) || crate::texto::iguales(&v, &c11)
        },
    }
}

/// The files named among the matches, without repetition.
pub open spec fn archivos(cs: Seq<Coincidencia>) -> Set<Seq<char>> {
    cs.map_values(|c: Coincidencia| c.archivo@).to_set()
}

/// How many different files hold at least one match.
pub fn contar_archivos_distintos(coincidencias: &[Coincidencia]) -> (r: usize)
    ensures
        r == archivos(coincidencias@).len(),
{
    let n = coincidencias.len();
    let mut vistos: Vec<String> = Vec::new();
    let mut i: usize = 0;
    while i < n
        invariant
            n == coincidencias@.len(),
            i <= n,
            vistos@.len() <= i,
            vistos@.map_values(|s: String| s@).no_duplicates(),
            vistos@.map_values(|s: String| s@).to_set() == coincidencias@.take(
                i as int,
            ).map_values(|c: Coincidencia| c.archivo@).to_set(),
        decreases n - i,
    {
        let ghost previos = vistos@.map_values(|s: String| s@);
        let archivo = &coincidencias[i].archivo;
        let m = vistos.len();
        let mut j: usize = 0;
        let mut visto = false;
        while j < m && !visto
            invariant
                m == vistos@.len(),
                previos == vistos@.map_values(|s: String| s@),
                j <= m,
                visto ==> j < m && previos[j as int] == archivo@,
                forall|k: int| 0 <= k < j ==> previos[k] != archivo@,
            decreases m - j, if visto { 0int } else { 1int },
        {
            if vistos[j] == *archivo {
                visto = true;
            } else {
                j = j + 1;
            }
        }
        let ghost prefijo = coincidencias@.take(i as int).map_values(|c: Coincidencia| c.archivo@);
        assert(coincidencias@.take(i + 1).map_values(|c: Coincidencia| c.archivo@) =~= prefijo.push(
            archivo@,
        ));
        proof {
            Seq::<Seq<char>>::lemma_to_set_insert_commutes(prefijo, archivo@);
            Seq::<Seq<char>>::lemma_to_set_insert_commutes(previos, archivo@);
            assert(prefijo.push(archivo@) =~= prefijo + seq![archivo@]);
            assert(previos.push(archivo@) =~= previos + seq![archivo@]);
        }
        if visto {
            assert(previos.contains(archivo@));
            assert(previos.to_set().contains(archivo@));
            assert(prefijo.push(archivo@).to_set() =~= previos.to_set());
        } else {
            assert(!previos.contains(archivo@));
            vistos.push(archivo.clone());
            assert(vistos@.map_values(|s: String| s@) =~= previos.push(archivo@));
        }
        i = i + 1;
    }
    assert(coincidencias@.take(n as int) =~= coincidencias@);
    proof {
        vistos@.map_values(|s: String| s@).unique_seq_to_set();
    }
    vistos.len()
}


/// How many times `p` occurs in `s` from position `i` on, counting from the
/// left and never overlapping (`str::matches(..).count()`).
pub open spec fn ocurrencias_desde(s: Seq<char>, p: Seq<char>, i: int) -> nat
    decreases s.len() - i,
{
    if p.len() == 0 || i < 0 || i + p.len() > s.len() {
        0
    } else if aparece_en(s, p, i) {
        1 + ocurrencias_desde(s, p, i + p.len())
    } else {
        ocurrencias_desde(s, p, i + 1)
    }
}

/// `s` from position `i` on with every occurrence of `p`, counted as
/// `ocurrencias_desde` counts them, replaced by `r` (`str::replace`).
pub open spec fn reemplazado_desde(s: Seq<char>, p: Seq<char>, r: Seq<char>, i: int) -> Seq<char>
    decreases s.len() - i,
{
    if p.len() == 0 || i < 0 || i + p.len() > s.len() {
        if 0 <= i <= s.len() {
            s.skip(i)
        } else {
            seq![]
        }
    } else if aparece_en(s, p, i) {
        r + reemplazado_desde(s, p, r, i + p.len())
    } else {
        seq![s[i]] + reemplazado_desde(s, p, r, i + 1)
    }
}

/// The occurrences of `patron` in `contenido` and the text with every one
/// of them replaced by `reemplazo`.
pub fn reemplazar_texto(contenido: &str, patron: &str, reemplazo: &str) -> (r: (usize, String))
    requires
        patron@.len() > 0,
    ensures
        r.0 == ocurrencias_desde(contenido@, patron@, 0),
        r.1@ == reemplazado_desde(contenido@, patron@, reemplazo@, 0),
{
    let s = caracteres(contenido);
    let p = caracteres(patron);
    let rep = caracteres(reemplazo);
    let n = s.len();
    let m = p.len();
    let mut salida: Vec<char> = Vec::new();
    let mut cuenta: usize = 0;
    let mut i: usize = 0;
    while m <= n && i <= n - m
        invariant
            n == s@.len(),
            m == p@.len(),
            m > 0,
            s@ == contenido@,
            p@ == patron@,
            rep@ == reemplazo@,
            i <= n,
            cuenta + ocurrencias_desde(s@, p@, i as int) == ocurrencias_desde(s@, p@, 0),
            cuenta <= i,
            salida@ + reemplazado_desde(s@, p@, rep@, i as int) == reemplazado_desde(
                s@,
                p@,
                rep@,
                0,
            ),
        decreases n - i,
    {
        if coincide_en(&s, &p, i) {
            let ghost antes = salida@;
            anexar(&mut salida, &rep);
            assert(antes + reemplazado_desde(s@, p@, rep@, i as int) =~= salida@
                + reemplazado_desde(s@, p@, rep@, i + m));
            cuenta = cuenta + 1;
            i = i + m;
        } else {
            let ghost antes = salida@;
            salida.push(s[i]);
            assert(antes + reemplazado_desde(s@, p@, rep@, i as int) =~= salida@
                + reemplazado_desde(s@, p@, rep@, i + 1));
            i = i + 1;
        }
    }
    let ghost antes = salida@;
    let mut j = i;
    while j < n
        invariant
            n == s@.len(),
            i <= j <= n,
            salida@ == antes + s@.subrange(i as int, j as int),
        decreases n - j,
    {
        salida.push(s[j]);
        j = j + 1;
        assert(salida@ =~= antes + s@.subrange(i as int, j as int));
    }
    assert(s@.subrange(i as int, n as int) =~= s@.skip(i as int));
    (cuenta, texto_de(&salida))
}

/// What replacing in one file gives: the change to report (none when the
/// pattern does not occur) and the new text.
pub fn reemplazar_en_contenido(archivo: &str, contenido: &str, patron: &str, reemplazo: &str) -> (r: (
    Option<Cambio>,
    String,
))
    requires
        patron@.len() > 0,
    ensures
        ocurrencias_desde(contenido@, patron@, 0) == 0 ==> r.0 is None,
        ocurrencias_desde(contenido@, patron@, 0) > 0 ==> (r.0 matches Some(c) && c.archivo@
            == archivo@ && c.ocurrencias == ocurrencias_desde(contenido@, patron@, 0)),
        r.1@ == reemplazado_desde(contenido@, patron@, reemplazo@, 0),
{
    let (cuenta, nuevo) = reemplazar_texto(contenido, patron, reemplazo);
    if cuenta == 0 {
        (None, nuevo)
    } else {
        (Some(Cambio { archivo: archivo.to_owned(), ocurrencias: cuenta }), nuevo)
    }
}

/// The reason given for an empty search pattern.
pub open spec fn patron_vacio() -> Seq<char> {
    "el patrón de búsqueda no puede ser vacío"@
}

/// Refuses an empty pattern before any file is touched: replacing "" would
/// insert the replacement at every position of every file.
pub fn comprobar_patron(patron: &str) -> (r: Result<(), String>)
    ensures
        patron@.len() == 0 <==> r is Err,
        r matches Err(m) ==> m@ == patron_vacio(),
{
    if caracteres(patron).len() == 0 {
        Err("el patrón de búsqueda no puede ser vacío".to_owned())
    } else {
        Ok(())
    }
}

/// The occurrences of all changes added up.
pub open spec fn suma_ocurrencias(cs: Seq<Cambio>) -> nat
    decreases cs.len(),
{
    if cs.len() == 0 {
        0
    } else {
        suma_ocurrencias(cs.drop_last()) + cs.last().ocurrencias as nat
    }
}

/// The partial sums never exceed the total.
pub proof fn lema_suma_prefijos(cs: Seq<Cambio>, i: int)
    requires
        0 <= i <= cs.len(),
    ensures
        suma_ocurrencias(cs.take(i)) <= suma_ocurrencias(cs),
    decreases cs.len() - i,
{
    if i < cs.len() {
        assert(cs.take(i + 1).drop_last() =~= cs.take(i));
        lema_suma_prefijos(cs, i + 1);
    } else {
        assert(cs.take(i) =~= cs);
    }
}

/// The total number of occurrences over all changed files.
pub fn total_ocurrencias(cambios: &[Cambio]) -> (r: usize)
    requires
        suma_ocurrencias(cambios@) <= usize::MAX,
    ensures
        r == suma_ocurrencias(cambios@),
{
    let n = cambios.len();
    let mut total: usize = 0;
    let mut i: usize = 0;
    assert(cambios@.take(0) =~= seq![]);
    while i < n
        invariant
            n == cambios@.len(),
            i <= n,
            total == suma_ocurrencias(cambios@.take(i as int)),
            suma_ocurrencias(cambios@) <= usize::MAX,
        decreases n - i,
    {
        assert(cambios@.take(i + 1).drop_last() =~= cambios@.take(i as int));
        proof {
            lema_suma_prefijos(cambios@, i + 1);
        }
        total = total + cambios[i].ocurrencias;
        i = i + 1;
    }
    assert(cambios@.take(n as int) =~= cambios@);
    total
}

/// A text in which the pattern does not occur is left as it is.
pub proof fn ley_sin_ocurrencias_no_cambia(s: Seq<char>, p: Seq<char>, r: Seq<char>, i: int)
    requires
        0 <= i <= s.len(),
        ocurrencias_desde(s, p, i) == 0,
    ensures
        reemplazado_desde(s, p, r, i) == s.skip(i),
    decreases s.len() - i,
{
    if p.len() == 0 || i + p.len() > s.len() {
    } else {
        ley_sin_ocurrencias_no_cambia(s, p, r, i + 1);
        assert(seq![s[i]] + s.skip(i + 1) =~= s.skip(i));
    }
}

/// There are never more files with matches than matches.
pub proof fn ley_archivos_acotados(cs: Seq<Coincidencia>)
    ensures
        archivos(cs).len() <= cs.len(),
{
    cs.map_values(|c: Coincidencia| c.archivo@).lemma_cardinality_of_set();
}


/// How a match is reported: `archivo:linea:contenido`.
pub open spec fn linea_de_coincidencia(c: (Seq<char>, nat, Seq<char>)) -> Seq<char> {
    c.0 + ":"@ + decimal_spec(c.1) + ":"@ + c.2
}

/// How a change is reported: `archivo: N ocurrencia(s)`.
pub open spec fn linea_de_cambio(archivo: Seq<char>, ocurrencias: nat) -> Seq<char> {
    archivo + ": "@ + decimal_spec(ocurrencias) + " ocurrencia(s)"@
}

/// The summary of a search.
pub open spec fn resumen_de_busqueda(coincidencias: nat, archivos: nat) -> Seq<char> {
    decimal_spec(coincidencias) + " coincidencia(s) en "@ + decimal_spec(archivos)
        + " archivo(s)"@
}

/// The summary of a replacement, which says whether files were changed or
/// would be (a dry run).
pub open spec fn resumen_de_reemplazo(total: nat, archivos: nat, dry_run: bool) -> Seq<char> {
    if dry_run {
        "(dry-run) se reemplazarían "@ + decimal_spec(total) + " ocurrencia(s) en "@
            + decimal_spec(archivos) + " archivo(s)"@
    } else {
        "se reemplazaron "@ + decimal_spec(total) + " ocurrencia(s) en "@ + decimal_spec(archivos)
            + " archivo(s)"@
    }
}

impl Coincidencia {
    /// The line that reports this match.
    pub fn reporte(&self) -> (r: String)
        ensures
            r@ == linea_de_coincidencia(vista_coincidencia(*self)),
    {
        let mut v: Vec<char> = Vec::new();
        anexar_str(&mut v, self.archivo.as_str());
        anexar_str(&mut v, ":");
        anexar(&mut v, &decimal(self.linea as u64));
        anexar_str(&mut v, ":");
        anexar_str(&mut v, self.contenido.as_str());
        assert(v@ =~= linea_de_coincidencia(vista_coincidencia(*self)));
        texto_de(&v)
    }
}

impl Cambio {
    /// The line that reports this change.
    pub fn reporte(&self) -> (r: String)
        ensures
            r@ == linea_de_cambio(self.archivo@, self.ocurrencias as nat),
    {
        let mut v: Vec<char> = Vec::new();
        anexar_str(&mut v, self.archivo.as_str());
        anexar_str(&mut v, ": ");
        anexar(&mut v, &decimal(self.ocurrencias as u64));
        anexar_str(&mut v, " ocurrencia(s)");
        assert(v@ =~= linea_de_cambio(self.archivo@, self.ocurrencias as nat));
        texto_de(&v)
    }
}

/// The summary line of a search.
pub fn resumen_busqueda(coincidencias: usize, archivos: usize) -> (r: String)
    ensures
        r@ == resumen_de_busqueda(coincidencias as nat, archivos as nat),
{
    let mut v: Vec<char> = Vec::new();
    anexar(&mut v, &decimal(coincidencias as u64));
    anexar_str(&mut v, " coincidencia(s) en ");
    anexar(&mut v, &decimal(archivos as u64));
    anexar_str(&mut v, " archivo(s)");
    assert(v@ =~= resumen_de_busqueda(coincidencias as nat, archivos as nat));
    texto_de(&v)
}

/// The summary line of a replacement.
pub fn resumen_reemplazo(total: usize, archivos: usize, dry_run: bool) -> (r: String)
    ensures
        r@ == resumen_de_reemplazo(total as nat, archivos as nat, dry_run),
{
    let mut v: Vec<char> = Vec::new();
    if dry_run {
        anexar_str(&mut v, "(dry-run) se reemplazarían ");
    } else {
        anexar_str(&mut v, "se reemplazaron ");
    }
    anexar(&mut v, &decimal(total as u64));
    anexar_str(&mut v, " ocurrencia(s) en ");
    anexar(&mut v, &decimal(archivos as u64));
    anexar_str(&mut v, " archivo(s)");
    assert(v@ =~= resumen_de_reemplazo(total as nat, archivos as nat, dry_run));
    texto_de(&v)
}


/// The lines that a search prints, each ended by a line feed.
pub open spec fn salida_de_busqueda(cs: Seq<(Seq<char>, nat, Seq<char>)>) -> Seq<char>
    decreases cs.len(),
{
    if cs.len() == 0 {
        seq![]
    } else {
        salida_de_busqueda(cs.drop_last()) + linea_de_coincidencia(cs.last()) + seq!['\n']
    }
}

/// What a search prints: on the standard output one line per match, in
/// order; on the error output the summary line.
pub fn informe_busqueda(coincidencias: &[Coincidencia]) -> (r: (String, String))
    ensures
        r.0@ == salida_de_busqueda(
            coincidencias@.map_values(|c: Coincidencia| vista_coincidencia(c)),
        ),
        r.1@ == resumen_de_busqueda(coincidencias@.len(), archivos(coincidencias@).len())
            + seq!['\n'],
{
    let ghost vs = coincidencias@.map_values(|c: Coincidencia| vista_coincidencia(c));
    let n = coincidencias.len();
    let mut salida: Vec<char> = Vec::new();
    let mut i: usize = 0;
    assert(vs.take(0) =~= seq![]);
    while i < n
        invariant
            n == coincidencias@.len(),
            vs == coincidencias@.map_values(|c: Coincidencia| vista_coincidencia(c)),
            i <= n,
            salida@ == salida_de_busqueda(vs.take(i as int)),
        decreases n - i,
    {
        assert(vs.take(i + 1).drop_last() =~= vs.take(i as int));
        assert(vs.take(i + 1).last() == vista_coincidencia(coincidencias@[i as int]));
        let linea = coincidencias[i].reporte();
        anexar_str(&mut salida, linea.as_str());
        salida.push('\n');
        assert(salida@ =~= salida_de_busqueda(vs.take(i + 1)));
        i = i + 1;
    }
    assert(vs.take(n as int) =~= vs);
    let archivos_distintos = contar_archivos_distintos(coincidencias);
    let mut resumen = caracteres(resumen_busqueda(n, archivos_distintos).as_str());
    resumen.push('\n');
    (texto_de(&salida), texto_de(&resumen))
}

/// The lines that a replacement prints, each ended by a line feed.
pub open spec fn salida_de_reemplazo(cs: Seq<Cambio>) -> Seq<char>
    decreases cs.len(),
{
    if cs.len() == 0 {
        seq![]
    } else {
        salida_de_reemplazo(cs.drop_last()) + linea_de_cambio(
            cs.last().archivo@,
            cs.last().ocurrencias as nat,
        ) + seq!['\n']
    }
}

/// What a replacement prints: on the standard output one line per changed
/// file, in order; on the error output the summary line.
pub fn informe_reemplazo(cambios: &[Cambio], dry_run: bool) -> (r: (String, String))
    requires
        suma_ocurrencias(cambios@) <= usize::MAX,
    ensures
        r.0@ == salida_de_reemplazo(cambios@),
        r.1@ == resumen_de_reemplazo(suma_ocurrencias(cambios@), cambios@.len(), dry_run)
            + seq!['\n'],
{
    let n = cambios.len();
    let mut salida: Vec<char> = Vec::new();
    let mut i: usize = 0;
    assert(cambios@.take(0) =~= seq![]);
    while i < n
        invariant
            n == cambios@.len(),
            i <= n,
            salida@ == salida_de_reemplazo(cambios@.take(i as int)),
        decreases n - i,
    {
        assert(cambios@.take(i + 1).drop_last() =~= cambios@.take(i as int));
        assert(cambios@.take(i + 1).last() == cambios@[i as int]);
        let linea = cambios[i].reporte();
        anexar_str(&mut salida, linea.as_str());
        salida.push('\n');
        assert(salida@ =~= salida_de_reemplazo(cambios@.take(i + 1)));
        i = i + 1;
    }
    assert(cambios@.take(n as int) =~= cambios@);
    let total = total_ocurrencias(cambios);
    let mut resumen = caracteres(resumen_reemplazo(total, n, dry_run).as_str());
    resumen.push('\n');
    (texto_de(&salida), texto_de(&resumen))
}

/// A change as plain values.
pub open spec fn vista_cambio(c: Cambio) -> (Seq<char>, nat) {
    (c.archivo@, c.ocurrencias as nat)
}

/// The changes that replacing `p` in the files `fs` (each a name and its
/// text, in the order they are visited) reports: one per file where `p`
/// occurs, with its count.
pub open spec fn cambios_de(fs: Seq<(Seq<char>, Seq<char>)>, p: Seq<char>) -> Seq<(Seq<char>, nat)>
    decreases fs.len(),
{
    if fs.len() == 0 {
        seq![]
    } else {
        let previos = cambios_de(fs.drop_last(), p);
        let (archivo, texto) = fs.last();
        if ocurrencias_desde(texto, p, 0) > 0 {
            previos.push((archivo, ocurrencias_desde(texto, p, 0)))
        } else {
            previos
        }
    }
}

/// The writes that replacing `p` by `r` in the files `fs` calls for: each
/// file where `p` occurs, with its new text; the other files are not
/// written.
pub open spec fn escrituras_de(fs: Seq<(Seq<char>, Seq<char>)>, p: Seq<char>, r: Seq<char>) -> Seq<
    (Seq<char>, Seq<char>),
>
    decreases fs.len(),
{
    if fs.len() == 0 {
        seq![]
    } else {
        let previas = escrituras_de(fs.drop_last(), p, r);
        let (archivo, texto) = fs.last();
        if ocurrencias_desde(texto, p, 0) > 0 {
            previas.push((archivo, reemplazado_desde(texto, p, r, 0)))
        } else {
            previas
        }
    }
}

/// The files as plain values.
pub open spec fn vistas_archivos(fs: Seq<(String, String)>) -> Seq<(Seq<char>, Seq<char>)> {
    fs.map_values(|f: (String, String)| (f.0@, f.1@))
}

/// Replacing `patron` by `reemplazo` in a whole tree, given the name and
/// text of each file in the order they are visited: the report of the
/// changes and the writes to make (which a dry run leaves out; the report
/// is the same either way). An empty pattern is refused before anything
/// else.
pub fn reemplazar_en_archivos(archivos: &[(String, String)], patron: &str, reemplazo: &str) -> (r:
    Result<(Vec<Cambio>, Vec<(String, String)>), String>)
    ensures
        patron@.len() == 0 <==> r is Err,
        r matches Err(m) ==> m@ == patron_vacio(),
        r matches Ok(x) ==> x.0@.map_values(|c: Cambio| vista_cambio(c)) == cambios_de(
            vistas_archivos(archivos@),
            patron@,
        ) && vistas_archivos(x.1@) == escrituras_de(
            vistas_archivos(archivos@),
            patron@,
            reemplazo@,
        ),
{
    if let Err(m) = comprobar_patron(patron) {
        return Err(m);
    }
    let ghost fs = vistas_archivos(archivos@);
    let n = archivos.len();
    let mut cambios: Vec<Cambio> = Vec::new();
    let mut escrituras: Vec<(String, String)> = Vec::new();
    let mut i: usize = 0;
    assert(fs.take(0) =~= seq![]);
    while i < n
        invariant
            n == archivos@.len(),
            fs == vistas_archivos(archivos@),
            patron@.len() > 0,
            i <= n,
            cambios@.map_values(|c: Cambio| vista_cambio(c)) == cambios_de(fs.take(i as int), patron@),
            vistas_archivos(escrituras@) == escrituras_de(fs.take(i as int), patron@, reemplazo@),
        decreases n - i,
    {
        assert(fs.take(i + 1).drop_last() =~= fs.take(i as int));
        assert(fs.take(i + 1).last() == (archivos@[i as int].0@, archivos@[i as int].1@));
        let ghost antes_c = cambios@;
        let ghost antes_e = escrituras@;
        let (cambio, nuevo) = reemplazar_en_contenido(
            archivos[i].0.as_str(),
            archivos[i].1.as_str(),
            patron,
            reemplazo,
        );
        match cambio {
            Some(c) => {
                cambios.push(c);
                escrituras.push((archivos[i].0.clone(), nuevo));
                assert(cambios@.map_values(|c: Cambio| vista_cambio(c)) =~= antes_c.map_values(
                    |c: Cambio| vista_cambio(c),
                ).push((archivos@[i as int].0@, ocurrencias_desde(archivos@[i as int].1@, patron@, 0))));
                assert(vistas_archivos(escrituras@) =~= vistas_archivos(antes_e).push(
                    (
                        archivos@[i as int].0@,
                        reemplazado_desde(archivos@[i as int].1@, patron@, reemplazo@, 0),
                    ),
                ));
            },
            None => {},
        }
        i = i + 1;
    }
    assert(fs.take(n as int) =~= fs);
    Ok((cambios, escrituras))
}


/// The matches in the files `fs` (each a name and its text, in the order
/// they are visited): those of each file, one file after the other.
pub open spec fn coincidencias_de_archivos(
    fs: Seq<(Seq<char>, Seq<char>)>,
    p: Seq<char>,
    sensible: bool,
) -> Seq<(Seq<char>, nat, Seq<char>)>
    decreases fs.len(),
{
    if fs.len() == 0 {
        seq![]
    } else {
        coincidencias_de_archivos(fs.drop_last(), p, sensible) + coincidencias_en(
            fs.last().0,
            lineas(fs.last().1),
            p,
            sensible,
        )
    }
}

/// Searching a whole tree, given the name and text of each file to search
/// in the order they are visited: the matches of every file, in order.
pub fn buscar_en_archivos(archivos: &[(String, String)], patron: &str, sensible_a_mayus: bool) -> (r:
    Vec<Coincidencia>)
    ensures
        r@.map_values(|c: Coincidencia| vista_coincidencia(c)) == coincidencias_de_archivos(
            vistas_archivos(archivos@),
            patron@,
            sensible_a_mayus,
        ),
{
    let ghost fs = vistas_archivos(archivos@);
    let n = archivos.len();
    let mut res: Vec<Coincidencia> = Vec::new();
    let mut i: usize = 0;
    assert(fs.take(0) =~= seq![]);
    while i < n
        invariant
            n == archivos@.len(),
            fs == vistas_archivos(archivos@),
            i <= n,
            res@.map_values(|c: Coincidencia| vista_coincidencia(c)) == coincidencias_de_archivos(
                fs.take(i as int),
                patron@,
                sensible_a_mayus,
            ),
        decreases n - i,
    {
        assert(fs.take(i + 1).drop_last() =~= fs.take(i as int));
        assert(fs.take(i + 1).last() == (archivos@[i as int].0@, archivos@[i as int].1@));
        let mut de_este = buscar_en_contenido(
            archivos[i].0.as_str(),
            archivos[i].1.as_str(),
            patron,
            sensible_a_mayus,
        );
        let ghost antes = res@;
        let ghost nuevas = de_este@;
        res.append(&mut de_este);
        assert(res@ =~= antes + nuevas);
        assert(res@.map_values(|c: Coincidencia| vista_coincidencia(c)) =~= antes.map_values(
            |c: Coincidencia| vista_coincidencia(c),
        ) + nuevas.map_values(|c: Coincidencia| vista_coincidencia(c)));
        i = i + 1;
    }
    assert(fs.take(n as int) =~= fs);
    res
}

} // verus!
