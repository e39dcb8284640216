//! Character-level text utilities shared by the rest of the library.
//!
//! Everything works on `Seq<char>`, the view that vstd gives to `str` and
//! `String`.
use vstd::prelude::*;
use vstd::utf8::{encode_scalar, encode_utf8};

verus! {

/// The Unicode `White_Space` property, which is what `char::is_whitespace`
/// tests.
pub open spec fn es_espacio_spec(c: char) -> bool {
    let u = c as u32;
    ||| 0x9 <= u <= 0xD
    ||| u == 0x20
    ||| u == 0x85
    ||| u == 0xA0
    ||| u == 0x1680
    ||| 0x2000 <= u <= 0x200A
    ||| u == 0x2028
    ||| u == 0x2029
    ||| u == 0x202F
    ||| u == 0x205F
    ||| u == 0x3000
}

/// Whether `c` is Unicode white space.
pub fn es_espacio(c: char) -> (r: bool)
    ensures
        r == es_espacio_spec(c),
{
    let u = c as u32;
    (0x9 <= u && u <= 0xD) || u == 0x20 || u == 0x85 || u == 0xA0 || u == 0x1680 || (0x2000 <= u
        && u <= 0x200A) || u == 0x2028 || u == 0x2029 || u == 0x202F || u == 0x205F || u == 0x3000
}

/// The characters of `s`, in order.
pub fn caracteres(s: &str) -> (r: Vec<char>)
    ensures
        r@ == s@,
{
    let mut r: Vec<char> = Vec::new();
    for c in it: s.chars()
        invariant
            r@ == it.seq().take(it.index() as int),
            it.seq() == s@,
    {
        r.push(c);
    }
    r
}


/// Trusted: `String::push`, which the standard library documents as
/// appending the given `char` to the end of the string.
pub assume_specification[ String::push ](s: &mut String, ch: char)
    ensures
        final(s)@ == old(s)@.push(ch),
;

/// The `String` whose characters are `v`, in order.
pub fn texto_de(v: &Vec<char>) -> (r: String)
    ensures
        r@ == v@,
{
    let mut r = String::new();
    let n = v.len();
    let mut i: usize = 0;
    while i < n
        invariant
            n == v@.len(),
            i <= n,
            r@ == v@.take(i as int),
        decreases n - i,
    {
        r.push(v[i]);
        i = i + 1;
        assert(r@ =~= v@.take(i as int));
    }
    assert(v@.take(n as int) =~= v@);
    r
}

/// The views of a sequence of character vectors.
pub open spec fn vistas(vs: Seq<Vec<char>>) -> Seq<Seq<char>> {
    vs.map_values(|w: Vec<char>| w@)
}

/// What `str::split_whitespace` yields: the maximal runs of characters
/// that are not white space, in order.
pub open spec fn palabras(s: Seq<char>) -> Seq<Seq<char>>
    decreases s.len(),
{
    if s.len() == 0 {
        seq![]
    } else {
        let previas = palabras(s.drop_last());
        let c = s.last();
        if es_espacio_spec(c) {
            previas
        } else if s.len() >= 2 && !es_espacio_spec(s[s.len() - 2]) {
            previas.update(previas.len() - 1, previas.last().push(c))
        } else {
            previas.push(seq![c])
        }
    }
}

/// A word never ends a text that ends in white space, and a text that ends
/// in a word has at least one.
pub proof fn lema_palabras_no_vacias(s: Seq<char>)
    ensures
        s.len() > 0 && !es_espacio_spec(s.last()) ==> palabras(s).len() > 0,
        forall|i: int| 0 <= i < palabras(s).len() ==> #[trigger] palabras(s)[i].len() > 0,
    decreases s.len(),
{
    if s.len() > 0 {
        lema_palabras_no_vacias(s.drop_last());
    }
}

/// The words of `v`, as `str::split_whitespace` splits them.
pub fn partir_palabras(v: &Vec<char>) -> (r: Vec<Vec<char>>)
    ensures
        vistas(r@) == palabras(v@),
{
    let n = v.len();
    let mut res: Vec<Vec<char>> = Vec::new();
    let mut actual: Vec<char> = Vec::new();
    let mut dentro = false;
    let mut i: usize = 0;
    while i < n
        invariant
            n == v@.len(),
            i <= n,
            dentro == (i > 0 && !es_espacio_spec(v@[i - 1])),
            dentro ==> vistas(res@).push(actual@) == palabras(v@.take(i as int)),
            !dentro ==> vistas(res@) == palabras(v@.take(i as int)) && actual@.len() == 0,
        decreases n - i,
    {
        let c = v[i];
        proof {
            assert(v@.take(i + 1).drop_last() =~= v@.take(i as int));
            assert(v@.take(i + 1).last() == c);
            if i > 0 {
                assert(v@.take(i + 1)[i - 1] == v@[i - 1]);
            }
        }
        if es_espacio(c) {
            if dentro {
                let w = actual;
                res.push(w);
                actual = Vec::new();
                dentro = false;
                assert(vistas(res@) =~= palabras(v@.take(i + 1)));
            }
        } else {
            let ghost antes = vistas(res@);
            let ghost previo = actual@;
            actual.push(c);
            if !dentro {
                assert(actual@ =~= seq![c]);
                assert(vistas(res@).push(actual@) =~= palabras(v@.take(i + 1)));
            } else {
                let ghost previas = palabras(v@.take(i as int));
                assert(previas == antes.push(previo));
                assert(previas.last() == previo);
                assert(palabras(v@.take(i + 1)) == previas.update(previas.len() - 1, previo.push(c)));
                assert(vistas(res@).push(actual@) =~= palabras(v@.take(i + 1)));
            }
            dentro = true;
        }
        i = i + 1;
    }
    if dentro {
        res.push(actual);
    }
    assert(v@.take(n as int) =~= v@);
    proof {
        if dentro {
            assert(vistas(res@) =~= palabras(v@));
        }
    }
    res
}


/// The punctuation that the word counter strips from both ends of a word.
pub open spec fn es_puntuacion_spec(c: char) -> bool {
    c == ',' || c == '.' || c == '!' || c == '?' || c == ';' || c == ':' || c == '¡' || c == '¿'
}

/// Which characters a trim removes.
#[derive(Clone, Copy, Debug, PartialEq, Eq)]
pub enum Borde {
    /// White space, as `str::trim` removes it.
    Espacios,
    /// The punctuation `, . ! ? ; : ¡ ¿`.
    Puntuacion,
}

impl Borde {
    /// The characters that this trim removes.
    pub open spec fn quita(self, c: char) -> bool {
        match self {
            Borde::Espacios => es_espacio_spec(c),
            Borde::Puntuacion => es_puntuacion_spec(c),
        }
    }

    /// Whether this trim removes `c`.
    pub fn quita_exec(&self, c: char) -> (r: bool)
        ensures
            r == self.quita(c),
    {
        match self {
            Borde::Espacios => es_espacio(c),
            Borde::Puntuacion => c == ',' || c == '.' || c == '!' || c == '?' || c == ';' || c
                == ':' || c == '¡' || c == '¿',
        }
    }
}

/// `s` without the leading characters that `b` removes.
pub open spec fn sin_inicio(s: Seq<char>, b: Borde) -> Seq<char>
    decreases s.len(),
{
    if s.len() > 0 && b.quita(s[0]) {
        sin_inicio(s.drop_first(), b)
    } else {
        s
    }
}

/// `s` without the trailing characters that `b` removes.
pub open spec fn sin_final(s: Seq<char>, b: Borde) -> Seq<char>
    decreases s.len(),
{
    if s.len() > 0 && b.quita(s.last()) {
        sin_final(s.drop_last(), b)
    } else {
        s
    }
}

/// `s` without the characters that `b` removes at either end
/// (`str::trim` for white space, `str::trim_matches` for punctuation).
pub open spec fn recortado(s: Seq<char>, b: Borde) -> Seq<char> {
    sin_final(sin_inicio(s, b), b)
}

/// Trimming the start of two texts put together: the rest of the first
/// followed by the second, or, when the first is trimmed away, the trimmed
/// second.
proof fn lema_sin_inicio_concat(w: Seq<char>, x: Seq<char>, b: Borde)
    ensures
        sin_inicio(w + x, b) == if sin_inicio(w, b).len() > 0 {
            sin_inicio(w, b) + x
        } else {
            sin_inicio(x, b)
        },
    decreases w.len(),
{
    if w.len() == 0 {
        assert(w + x =~= x);
    } else {
        assert((w + x)[0] == w[0]);
        if b.quita(w[0]) {
            assert((w + x).drop_first() =~= w.drop_first() + x);
            lema_sin_inicio_concat(w.drop_first(), x, b);
        }
    }
}

/// Each of `, . ! ? ; : ¡ ¿` is stripped by the punctuation trim from
/// either end of a word: adding one at the start or at the end of a word
/// does not change the trimmed word.
pub proof fn ley_puntuacion(w: Seq<char>, c: char)
    requires
        c == ',' || c == '.' || c == '!' || c == '?' || c == ';' || c == ':' || c == '¡' || c
            == '¿',
    ensures
        recortado(seq![c] + w, Borde::Puntuacion) == recortado(w, Borde::Puntuacion),
        recortado(w + seq![c], Borde::Puntuacion) == recortado(w, Borde::Puntuacion),
{
    let b = Borde::Puntuacion;
    assert((seq![c] + w)[0] == c);
    assert((seq![c] + w).drop_first() =~= w);
    lema_sin_inicio_concat(w, seq![c], b);
    if sin_inicio(w, b).len() > 0 {
        let u = sin_inicio(w, b);
        assert((u + seq![c]).last() == c);
        assert((u + seq![c]).drop_last() =~= u);
    } else {
        assert(seq![c][0] == c);
        assert(b.quita(c));
        assert(seq![c].drop_first() =~= Seq::<char>::empty());
        assert(sin_inicio(Seq::<char>::empty(), b) =~= Seq::<char>::empty());
        assert(sin_inicio(seq![c], b) =~= Seq::<char>::empty());
        assert(sin_inicio(w, b) =~= Seq::<char>::empty());
    }
}

/// The punctuation trim keeps every other character: a one-character word
/// that is not one of `, . ! ? ; : ¡ ¿` is left as it is.
pub proof fn ley_no_puntuacion(c: char)
    requires
        !(c == ',' || c == '.' || c == '!' || c == '?' || c == ';' || c == ':' || c == '¡' || c
            == '¿'),
    ensures
        recortado(seq![c], Borde::Puntuacion) == seq![c],
{
    assert(seq![c][0] == c);
    assert(seq![c].last() == c);
}

/// `v@[desde..hasta]` as a new vector.
pub fn tramo(v: &Vec<char>, desde: usize, hasta: usize) -> (r: Vec<char>)
    requires
        desde <= hasta <= v@.len(),
    ensures
        r@ == v@.subrange(desde as int, hasta as int),
{
    let mut r: Vec<char> = Vec::new();
    let mut i = desde;
    while i < hasta
        invariant
            desde <= i <= hasta <= v@.len(),
            r@ == v@.subrange(desde as int, i as int),
        decreases hasta - i,
    {
        r.push(v[i]);
        i = i + 1;
        assert(r@ =~= v@.subrange(desde as int, i as int));
    }
    r
}

/// `v` without the characters that `b` removes at either end.
pub fn recortar(v: &Vec<char>, b: Borde) -> (r: Vec<char>)
    ensures
        r@ == recortado(v@, b),
{
    let n = v.len();
    let mut a: usize = 0;
    assert(v@.subrange(0, n as int) =~= v@);
    while a < n && b.quita_exec(v[a])
        invariant
            n == v@.len(),
            a <= n,
            sin_inicio(v@.subrange(a as int, n as int), b) == sin_inicio(v@, b),
        decreases n - a,
    {
        assert(v@.subrange(a as int, n as int).drop_first() =~= v@.subrange(a + 1, n as int));
        a = a + 1;
    }
    let mut z: usize = n;
    while z > a && b.quita_exec(v[z - 1])
        invariant
            n == v@.len(),
            a <= z <= n,
            sin_inicio(v@, b) == v@.subrange(a as int, n as int),
            sin_final(v@.subrange(a as int, z as int), b) == recortado(v@, b),
        decreases z,
    {
        assert(v@.subrange(a as int, z as int).drop_last() =~= v@.subrange(a as int, z - 1));
        z = z - 1;
    }
    tramo(v, a, z)
}

/// Whether `p` occurs in `s` at position `i`.
pub open spec fn aparece_en(s: Seq<char>, p: Seq<char>, i: int) -> bool {
    0 <= i && i + p.len() <= s.len() && s.subrange(i, i + p.len()) == p
}

/// The first position at or after `i` where `p` occurs in `s`
/// (what `str::find` returns, counted in characters).
pub open spec fn buscar_desde(s: Seq<char>, p: Seq<char>, i: int) -> Option<int>
    decreases s.len() + 1 - i,
{
    if i < 0 || i + p.len() > s.len() {
        None
    } else if aparece_en(s, p, i) {
        Some(i)
    } else {
        buscar_desde(s, p, i + 1)
    }
}

/// What `buscar_desde` returns is an occurrence, and the first one.
pub proof fn lema_buscar_desde(s: Seq<char>, p: Seq<char>, i: int)
    requires
        0 <= i,
    ensures
        buscar_desde(s, p, i) matches Some(j) ==> i <= j && aparece_en(s, p, j) && forall|k: int|
            i <= k < j ==> !aparece_en(s, p, k),
        buscar_desde(s, p, i) is None ==> forall|k: int| i <= k ==> !aparece_en(s, p, k),
    decreases s.len() + 1 - i,
{
    if i + p.len() > s.len() {
    } else if aparece_en(s, p, i) {
    } else {
        lema_buscar_desde(s, p, i + 1);
    }
}

/// Whether `p` occurs in `s` at position `i`.
pub fn coincide_en(s: &Vec<char>, p: &Vec<char>, i: usize) -> (r: bool)
    ensures
        r == aparece_en(s@, p@, i as int),
{
    if p.len() > s.len() || i > s.len() - p.len() {
        return false;
    }
    let m = p.len();
    let mut k: usize = 0;
    while k < m
        invariant
            m == p@.len(),
            i + m <= s@.len(),
            s@.len() == s.len(),
            k <= m,
            forall|j: int| 0 <= j < k ==> s@[i + j] == p@[j],
        decreases m - k,
    {
        if s[i + k] != p[k] {
            assert(s@.subrange(i as int, i + m)[k as int] != p@[k as int]);
            return false;
        }
        k = k + 1;
    }
    assert(s@.subrange(i as int, i + m) =~= p@);
    true
}

/// The first position at or after `desde` where `p` occurs in `s`.
pub fn buscar(s: &Vec<char>, p: &Vec<char>, desde: usize) -> (r: Option<usize>)
    ensures
        r matches Some(j) ==> buscar_desde(s@, p@, desde as int) == Some(j as int),
        r is None ==> buscar_desde(s@, p@, desde as int) is None,
{
    if p.len() > s.len() {
        return None;
    }
    let tope = s.len() - p.len();
    let mut i = desde;
    while i <= tope
        invariant
            tope + p@.len() == s@.len(),
            desde <= i,
            buscar_desde(s@, p@, i as int) == buscar_desde(s@, p@, desde as int),
        decreases tope + 1 - i,
    {
        if coincide_en(s, p, i) {
            return Some(i);
        }
        if i == tope {
            assert(buscar_desde(s@, p@, i + 1) is None);
            return None;
        }
        i = i + 1;
    }
    None
}


/// The pieces of `s` between line feeds, the last one possibly empty
/// (`str::split('\n')`).
pub open spec fn trozos(s: Seq<char>) -> Seq<Seq<char>>
    decreases s.len(),
{
    if s.len() == 0 {
        seq![seq![]]
    } else {
        let previos = trozos(s.drop_last());
        if s.last() == '\n' {
            previos.push(seq![])
        } else {
            previos.update(previos.len() - 1, previos.last().push(s.last()))
        }
    }
}

/// There is always at least one piece.
pub proof fn lema_trozos(s: Seq<char>)
    ensures
        trozos(s).len() >= 1,
    decreases s.len(),
{
    if s.len() > 0 {
        lema_trozos(s.drop_last());
    }
}

/// A line that was ended by `\r\n` loses its `\r`.
pub open spec fn sin_cr(l: Seq<char>) -> Seq<char> {
    if l.len() > 0 && l.last() == '\r' {
        l.drop_last()
    } else {
        l
    }
}

/// What `str::lines` yields: the pieces between line feeds, each one that
/// was ended by a line feed without a `\r` before it, and without the last
/// piece when it is empty.
pub open spec fn lineas(s: Seq<char>) -> Seq<Seq<char>> {
    let t = trozos(s);
    let n = if t.last().len() == 0 {
        t.len() - 1
    } else {
        t.len() as int
    };
    Seq::new(
        n as nat,
        |i: int|
            if i < t.len() - 1 {
                sin_cr(t[i])
            } else {
                t[i]
            },
    )
}

/// `l` without a final `\r`.
fn quitar_cr(l: Vec<char>) -> (r: Vec<char>)
    ensures
        r@ == sin_cr(l@),
{
    let mut l = l;
    if l.len() > 0 && l[l.len() - 1] == '\r' {
        l.pop();
    }
    l
}

/// The lines of `v`, as `str::lines` splits them.
pub fn partir_lineas(v: &Vec<char>) -> (r: Vec<Vec<char>>)
    ensures
        vistas(r@) == lineas(v@),
{
    let n = v.len();
    let mut res: Vec<Vec<char>> = Vec::new();
    let mut actual: Vec<char> = Vec::new();
    let mut i: usize = 0;
    proof {
        lema_trozos(v@.take(0));
    }
    while i < n
        invariant
            n == v@.len(),
            i <= n,
            trozos(v@.take(i as int)).len() == res@.len() + 1,
            forall|j: int|
                0 <= j < res@.len() ==> (#[trigger] res@[j])@ == sin_cr(trozos(v@.take(i as int))[j]),
            actual@ == trozos(v@.take(i as int)).last(),
        decreases n - i,
    {
        let c = v[i];
        proof {
            assert(v@.take(i + 1).drop_last() =~= v@.take(i as int));
            assert(v@.take(i + 1).last() == c);
        }
        if c == '\n' {
            let w = quitar_cr(actual);
            res.push(w);
            actual = Vec::new();
            assert(actual@ =~= seq![]);
        } else {
            actual.push(c);
        }
        i = i + 1;
    }
    assert(v@.take(n as int) =~= v@);
    proof {
        lema_trozos(v@);
    }
    if actual.len() > 0 {
        res.push(actual);
    }
    assert(vistas(res@) =~= lineas(v@));
    res
}


/// Whether two character vectors hold the same characters.
pub fn iguales(a: &Vec<char>, b: &Vec<char>) -> (r: bool)
    ensures
        r == (a@ == b@),
{
    if a.len() != b.len() {
        return false;
    }
    let n = a.len();
    let mut i: usize = 0;
    while i < n
        invariant
            n == a@.len() == b@.len(),
            i <= n,
            forall|j: int| 0 <= j < i ==> a@[j] == b@[j],
        decreases n - i,
    {
        if a[i] != b[i] {
            return false;
        }
        i = i + 1;
    }
    assert(a@ =~= b@);
    true
}

/// The decimal digit `d` as a character.
pub open spec fn digito_spec(d: nat) -> char {
    (d + 48) as char
}

/// The decimal representation of `n`, without leading zeros
/// (what `Display` prints for an unsigned integer).
pub open spec fn decimal_spec(n: nat) -> Seq<char>
    decreases n,
{
    if n < 10 {
        seq![digito_spec(n)]
    } else {
        decimal_spec(n / 10).push(digito_spec(n % 10))
    }
}

/// The character of the decimal digit `d`.
pub fn digito(d: u64) -> (r: char)
    requires
        d < 10,
    ensures
        r == digito_spec(d as nat),
{
    let b: u8 = (d as u8) + 48;
    b as char
}

/// The decimal representation of `n`.
pub fn decimal(n: u64) -> (r: Vec<char>)
    ensures
        r@ == decimal_spec(n as nat),
    decreases n,
{
    if n < 10 {
        let mut v: Vec<char> = Vec::new();
        v.push(digito(n));
        v
    } else {
        let mut v = decimal(n / 10);
        v.push(digito(n % 10));
        v
    }
}

/// Appends the characters of `w` to `v`.
pub fn anexar(v: &mut Vec<char>, w: &Vec<char>)
    ensures
        final(v)@ == old(v)@ + w@,
{
    let n = w.len();
    let mut i: usize = 0;
    let ghost inicio = v@;
    while i < n
        invariant
            n == w@.len(),
            i <= n,
            v@ == inicio + w@.take(i as int),
        decreases n - i,
    {
        v.push(w[i]);
        i = i + 1;
        assert(v@ =~= inicio + w@.take(i as int));
    }
    assert(w@.take(n as int) =~= w@);
}

/// Appends the characters of `s` to `v`.
pub fn anexar_str(v: &mut Vec<char>, s: &str)
    ensures
        final(v)@ == old(v)@ + s@,
{
    let w = caracteres(s);
    anexar(v, &w);
}


/// Name for what `str::to_lowercase` returns for a text: the Unicode
/// lower-case mapping of each character, with the final-sigma rule.
pub uninterp spec fn minusculas(s: Seq<char>) -> Seq<char>;

/// Trusted: `str::to_lowercase`, whose documentation defines the result by
/// the Unicode tables of the standard library, a function of the text
/// alone; the contract names that result `minusculas` and states nothing
/// more of it.
pub assume_specification[ str::to_lowercase ](s: &str) -> (r: String)
    ensures
        r@ == minusculas(s@),
;

/// The lower-case form of `s` (`str::to_lowercase`).
pub(crate) fn a_minusculas(s: &str) -> (r: String)
    ensures
        r@ == minusculas(s@),
{
    s.to_lowercase()
}


/// The positions of the lines of `v`: line `k` is `v@[a..b]` for the
/// pair `(a, b)` at `k`.
pub open spec fn rangos_de_lineas(v: Seq<char>, rs: Seq<(usize, usize)>) -> bool {
    &&& rs.len() == lineas(v).len()
    &&& forall|k: int|
        0 <= k < rs.len() ==> {
            &&& (#[trigger] rs[k]).0 <= rs[k].1 <= v.len()
            &&& v.subrange(rs[k].0 as int, rs[k].1 as int) == lineas(v)[k]
        }
}

/// Where each line of `v` starts and ends.
pub fn rangos_lineas(v: &Vec<char>) -> (r: Vec<(usize, usize)>)
    ensures
        rangos_de_lineas(v@, r@),
{
    let n = v.len();
    let mut res: Vec<(usize, usize)> = Vec::new();
    let mut inicio: usize = 0;
    let mut i: usize = 0;
    proof {
        lema_trozos(v@.take(0));
    }
    assert(v@.subrange(0, 0) =~= trozos(v@.take(0)).last());
    while i < n
        invariant
            n == v@.len(),
            inicio <= i <= n,
            trozos(v@.take(i as int)).len() == res@.len() + 1,
            forall|j: int|
                0 <= j < res@.len() ==> {
                    &&& (#[trigger] res@[j]).0 <= res@[j].1 <= n
                    &&& v@.subrange(res@[j].0 as int, res@[j].1 as int) == sin_cr(
                        trozos(v@.take(i as int))[j],
                    )
                },
            v@.subrange(inicio as int, i as int) == trozos(v@.take(i as int)).last(),
        decreases n - i,
    {
        let c = v[i];
        proof {
            assert(v@.take(i + 1).drop_last() =~= v@.take(i as int));
            assert(v@.take(i + 1).last() == c);
        }
        if c == '\n' {
            let mut fin = i;
            if fin > inicio && v[fin - 1] == '\r' {
                fin = fin - 1;
                assert(v@.subrange(inicio as int, fin as int) =~= v@.subrange(
                    inicio as int,
                    i as int,
                ).drop_last());
            }
            res.push((inicio, fin));
            inicio = i + 1;
            assert(v@.subrange(inicio as int, i + 1) =~= seq![]);
        } else {
            assert(v@.subrange(inicio as int, i + 1) =~= v@.subrange(inicio as int, i as int).push(
                c,
            ));
        }
        i = i + 1;
    }
    assert(v@.take(n as int) =~= v@);
    proof {
        lema_trozos(v@);
    }
    if inicio < n {
        res.push((inicio, n));
    }
    res
}


/// Encoding a text with one more character appends that character's bytes.
pub proof fn lema_utf8_push(s: Seq<char>, c: char)
    ensures
        encode_utf8(s.push(c)) == encode_utf8(s) + encode_scalar(c as u32),
    decreases s.len(),
{
    if s.len() == 0 {
        assert(s.push(c).drop_first() =~= seq![]);
        assert(s.push(c)[0] == c);
        assert(encode_utf8(s.push(c).drop_first()) =~= seq![]);
        assert(encode_utf8(s.push(c)) =~= encode_scalar(c as u32));
    } else {
        assert(s.push(c).drop_first() =~= s.drop_first().push(c));
        lema_utf8_push(s.drop_first(), c);
        assert(encode_utf8(s.push(c)) =~= encode_utf8(s) + encode_scalar(c as u32));
    }
}

/// How many bytes `c` takes in UTF-8 (`char::len_utf8`).
pub fn ancho_utf8(c: char) -> (r: u8)
    ensures
        r as nat == encode_scalar(c as u32).len(),
{
    proof {
        vstd::utf8::char_is_scalar(c);
    }
    let u = c as u32;
    if u <= 0x7F {
        1
    } else if u <= 0x7FF {
        2
    } else if u <= 0xFFFF {
        3
    } else {
        4
    }
}

/// The length in bytes of the UTF-8 encoding of `v` (what `str::len`
/// returns for the same text).
pub fn longitud_utf8(v: &Vec<char>) -> (r: u128)
    ensures
        r as nat == encode_utf8(v@).len(),
{
    let n = v.len();
    let mut total: u128 = 0;
    let mut i: usize = 0;
    assert(v@.take(0) =~= seq![]);
    while i < n
        invariant
            n == v@.len(),
            i <= n,
            total as nat == encode_utf8(v@.take(i as int)).len(),
            total <= 4 * i,
        decreases n - i,
    {
        proof {
            assert(v@.take(i + 1) =~= v@.take(i as int).push(v@[i as int]));
            lema_utf8_push(v@.take(i as int), v@[i as int]);
        }
        total = total + ancho_utf8(v[i]) as u128;
        i = i + 1;
    }
    assert(v@.take(n as int) =~= v@);
    total
}

} // verus!
