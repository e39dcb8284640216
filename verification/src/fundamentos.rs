//! Small functions from the ownership, borrowing, lifetime and `Option`
//! lessons.
use vstd::prelude::*;
use vstd::string::StrSliceExecFns;
use vstd::string::StringExecFns;
use vstd::utf8::encode_utf8;
use crate::busqueda::bytes;
use crate::texto::{
    anexar_str, caracteres, es_espacio, es_espacio_spec, iguales, longitud_utf8, sin_inicio, texto_de,
    Borde,
};

verus! {

/// The first channel whose name is `nombre`.
pub open spec fn canal_de(nombre: Seq<char>, canales: Seq<(&str, u8)>) -> Option<u8>
    decreases canales.len(),
{
    if canales.len() == 0 {
        None
    } else if canales[0].0@ == nombre {
        Some(canales[0].1)
    } else {
        canal_de(nombre, canales.drop_first())
    }
}

/// The id of the first channel called `nombre`, if any.
pub fn buscar_canal(nombre: &str, canales: &[(&str, u8)]) -> (r: Option<u8>)
    ensures
        r == canal_de(nombre@, canales@),
{
    let buscado = caracteres(nombre);
    let n = canales.len();
    let mut i: usize = 0;
    assert(canales@.skip(0) =~= canales@);
    while i < n
        invariant
            n == canales@.len(),
            buscado@ == nombre@,
            i <= n,
            canal_de(nombre@, canales@.skip(i as int)) == canal_de(nombre@, canales@),
        decreases n - i,
    {
        assert(canales@.skip(i as int).drop_first() =~= canales@.skip(i + 1));
        assert(canales@.skip(i as int)[0] == canales@[i as int]);
        let (canal, id) = canales[i];
        let v = caracteres(canal);
        if iguales(&v, &buscado) {
            return Some(id);
        }
        i = i + 1;
    }
    None
}

/// `f` applied to `v`.
pub fn aplicar<F: Fn(i32) -> i32>(f: F, v: i32) -> (r: i32)
    requires
        f.requires((v,)),
    ensures
        f.ensures((v,), r),
{
    f(v)
}

/// The length of `s` in bytes.
pub fn longitud(s: &String) -> (r: usize)
    ensures
        r == encode_utf8(s@).len() as usize,
{
    s.as_str().len()
}

/// Appends ", mundo" to `s`.
pub fn agregar_mundo(s: &mut String)
    ensures
        final(s)@ == old(s)@ + ", mundo"@,
{
    s.append(", mundo");
}

/// A new owned greeting.
pub fn dame_saludo() -> (r: String)
    ensures
        r@ == "hola desde el heap"@,
{
    "hola desde el heap".to_owned()
}

/// The longer of two texts in bytes; `y` when they are equally long.
pub fn mas_larga<'a>(x: &'a str, y: &'a str) -> (r: &'a str)
    ensures
        r == if bytes(x@) > bytes(y@) {
            x
        } else {
            y
        },
{
    let lx = longitud_utf8(&caracteres(x));
    let ly = longitud_utf8(&caracteres(y));
    if lx > ly {
        x
    } else {
        y
    }
}

/// The characters of `t` up to the first white space.
pub open spec fn hasta_espacio(t: Seq<char>) -> Seq<char>
    decreases t.len(),
{
    if t.len() > 0 && !es_espacio_spec(t[0]) {
        seq![t[0]] + hasta_espacio(t.drop_first())
    } else {
        seq![]
    }
}

/// The first white-space separated word of `s`, or nothing.
pub open spec fn primera_palabra_de(s: Seq<char>) -> Seq<char> {
    hasta_espacio(sin_inicio(s, Borde::Espacios))
}

/// A piece borrowed from a text.
pub struct Extracto<'a> {
    pub parte: &'a str,
}

impl<'a> Extracto<'a> {
    /// The first word of `texto` (empty when there is none), borrowed.
    pub fn primera_palabra(texto: &'a str) -> (r: Extracto<'a>)
        ensures
            r.parte@ == primera_palabra_de(texto@),
    {
        let v = caracteres(texto);
        let n = v.len();
        let mut a: usize = 0;
        assert(v@.subrange(0, n as int) =~= v@);
        while a < n && es_espacio(v[a])
            invariant
                n == v@.len(),
                a <= n,
                sin_inicio(v@.subrange(a as int, n as int), Borde::Espacios) == sin_inicio(
                    v@,
                    Borde::Espacios,
                ),
            decreases n - a,
        {
            assert(v@.subrange(a as int, n as int).drop_first() =~= v@.subrange(a + 1, n as int));
            a = a + 1;
        }
        let mut b = a;
        assert(v@.subrange(a as int, a as int) + hasta_espacio(v@.subrange(a as int, n as int))
            =~= hasta_espacio(v@.subrange(a as int, n as int)));
        while b < n && !es_espacio(v[b])
            invariant
                n == v@.len(),
                a <= b <= n,
                v@.subrange(a as int, b as int) + hasta_espacio(v@.subrange(b as int, n as int))
                    == hasta_espacio(v@.subrange(a as int, n as int)),
            decreases n - b,
        {
            assert(v@.subrange(b as int, n as int).drop_first() =~= v@.subrange(b + 1, n as int));
            assert(v@.subrange(a as int, b + 1) =~= v@.subrange(a as int, b as int) + seq![v@[b as int]]);
            b = b + 1;
        }
        assert(hasta_espacio(v@.subrange(b as int, n as int)) =~= seq![]);
        assert(v@.subrange(a as int, b as int) =~= v@.subrange(a as int, b as int) + seq![]);
        Extracto { parte: texto.substring_char(a, b) }
    }
}


/// The texts `ss` joined, with `sep` between each two.
pub open spec fn unidos(ss: Seq<Seq<char>>, sep: Seq<char>) -> Seq<char>
    decreases ss.len(),
{
    if ss.len() == 0 {
        seq![]
    } else if ss.len() == 1 {
        ss[0]
    } else {
        unidos(ss.drop_last(), sep) + sep + ss.last()
    }
}

/// The texts `items` joined, with `sep` between each two (`[String]::join`).
pub fn unir(items: &[String], sep: &str) -> (r: String)
    ensures
        r@ == unidos(items@.map_values(|s: String| s@), sep@),
{
    let n = items.len();
    let mut v: Vec<char> = Vec::new();
    let mut i: usize = 0;
    let ghost vs = items@.map_values(|s: String| s@);
    assert(vs.take(0) =~= seq![]);
    while i < n
        invariant
            n == items@.len(),
            vs == items@.map_values(|s: String| s@),
            i <= n,
            v@ == unidos(vs.take(i as int), sep@),
        decreases n - i,
    {
        assert(vs.take(i + 1).drop_last() =~= vs.take(i as int));
        assert(vs.take(i + 1).last() == items@[i as int]@);
        if i > 0 {
            anexar_str(&mut v, sep);
        } else {
            assert(vs.take(1)[0] == vs.take(1).last());
        }
        anexar_str(&mut v, items[i].as_str());
        i = i + 1;
    }
    assert(vs.take(n as int) =~= vs);
    texto_de(&v)
}

/// The descriptions of the items (each as its `to_string` gives it), one
/// after the other, separated by " | ".
pub fn describir_todo(items: &[String]) -> (r: String)
    ensures
        r@ == unidos(items@.map_values(|s: String| s@), " | "@),
{
    unir(items, " | ")
}

} // verus!
