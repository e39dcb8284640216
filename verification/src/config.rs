//! A `clave = valor` configuration parser with precise, line-numbered errors.
//!
//! Lines are trimmed; empty lines and lines that start with `#` are skipped.
//! The keys are `host` (not empty), `puerto` (a `u16` above zero) and
//! `reintentos` (a `u8`); a later line overrides an earlier one. Every key
//! must appear.
use vstd::prelude::*;
use crate::texto::{
    Borde, anexar, anexar_str, buscar, buscar_desde, caracteres, decimal, decimal_spec, iguales, lema_buscar_desde, lineas, partir_lineas,
    recortado, recortar, texto_de, tramo, vistas,
};

verus! {

/// A validated configuration.
#[derive(Debug, PartialEq)]
pub struct Config {
    pub host: String,
    pub puerto: u16,
    pub reintentos: u8,
}

/// Why a configuration text was refused. Line numbers start at 1.
#[derive(Debug, PartialEq)]
pub enum ErrorConfig {
    /// The line has no `=`.
    FormatoInvalido { linea: usize, contenido: String },
    /// The key is not one of the three known keys.
    ClaveDesconocida { linea: usize, clave: String },
    /// The value does not fit the key.
    ValorInvalido { linea: usize, clave: String, valor: String },
    /// The text ended without this key.
    ClaveFaltante(&'static str),
}

/// The mathematical model of a configuration.
pub struct ConfigVista {
    pub host: Seq<char>,
    pub puerto: u16,
    pub reintentos: u8,
}

/// The mathematical model of an error.
pub enum ErrorVista {
    FormatoInvalido { linea: int, contenido: Seq<char> },
    ClaveDesconocida { linea: int, clave: Seq<char> },
    ValorInvalido { linea: int, clave: Seq<char>, valor: Seq<char> },
    ClaveFaltante(Seq<char>),
}

impl View for Config {
    type V = ConfigVista;

    open spec fn view(&self) -> ConfigVista {
        ConfigVista { host: self.host@, puerto: self.puerto, reintentos: self.reintentos }
    }
}

impl View for ErrorConfig {
    type V = ErrorVista;

    open spec fn view(&self) -> ErrorVista {
        match self {
            ErrorConfig::FormatoInvalido { linea, contenido } => ErrorVista::FormatoInvalido {
                linea: *linea as int,
                contenido: contenido@,
            },
            ErrorConfig::ClaveDesconocida { linea, clave } => ErrorVista::ClaveDesconocida {
                linea: *linea as int,
                clave: clave@,
            },
            ErrorConfig::ValorInvalido { linea, clave, valor } => ErrorVista::ValorInvalido {
                linea: *linea as int,
                clave: clave@,
                valor: valor@,
            },
            ErrorConfig::ClaveFaltante(c) => ErrorVista::ClaveFaltante(c@),
        }
    }
}

/// The key of the host.
pub open spec fn clave_host() -> Seq<char> {
    seq!['h', 'o', 's', 't']
}

/// The key of the port.
pub open spec fn clave_puerto() -> Seq<char> {
    seq!['p', 'u', 'e', 'r', 't', 'o']
}

/// The key of the number of retries.
pub open spec fn clave_reintentos() -> Seq<char> {
    seq!['r', 'e', 'i', 'n', 't', 'e', 'n', 't', 'o', 's']
}

/// An ASCII decimal digit.
pub open spec fn es_digito(c: char) -> bool {
    48 <= (c as u32) <= 57
}

/// The number that a sequence of decimal digits writes.
pub open spec fn valor_digitos(d: Seq<char>) -> nat
    decreases d.len(),
{
    if d.len() == 0 {
        0
    } else {
        valor_digitos(d.drop_last()) * 10 + ((d.last() as u32) - 48) as nat
    }
}

/// The digits of an unsigned number: an optional leading `+` is skipped.
pub open spec fn sin_signo(s: Seq<char>) -> Seq<char> {
    if s.len() > 0 && s[0] == '+' {
        s.drop_first()
    } else {
        s
    }
}

/// What `str::parse` gives for an unsigned integer type whose largest value
/// is `max`: an optional `+`, then at least one ASCII digit and nothing
/// else, with a value up to `max`.
pub open spec fn parse_sin_signo(s: Seq<char>, max: nat) -> Option<nat> {
    let d = sin_signo(s);
    if d.len() > 0 && (forall|i: int| 0 <= i < d.len() ==> es_digito(#[trigger] d[i]))
        && valor_digitos(d) <= max {
        Some(valor_digitos(d))
    } else {
        None
    }
}

/// `str::parse::<u16>` (when `max` is 65535) and `str::parse::<u8>`
/// (when `max` is 255).
pub fn parsear_sin_signo(v: &Vec<char>, max: u32) -> (r: Option<u32>)
    requires
        max <= 65535,
    ensures
        r matches Some(x) ==> parse_sin_signo(v@, max as nat) == Some(x as nat),
        r is None ==> parse_sin_signo(v@, max as nat) is None,
{
    let n = v.len();
    let mut i: usize = 0;
    if n > 0 && v[0] == '+' {
        i = 1;
    }
    let ghost d = sin_signo(v@);
    let ghost inicio = i as int;
    assert(d =~= v@.subrange(inicio, n as int));
    if i == n {
        return None;
    }
    let mut acc: u32 = 0;
    let tope: u32 = max + 1;
    while i < n
        invariant
            n == v@.len(),
            0 <= inicio <= i <= n,
            d == v@.subrange(inicio, n as int),
            d == sin_signo(v@),
            max <= 65535,
            tope == max + 1,
            forall|k: int| inicio <= k < i ==> es_digito(v@[k]),
            acc as nat == if valor_digitos(v@.subrange(inicio, i as int)) < tope {
                valor_digitos(v@.subrange(inicio, i as int))
            } else {
                tope as nat
            },
        decreases n - i,
    {
        let c = v[i];
        let u = c as u32;
        if u < 48 || u > 57 {
            assert(c == d[i - inicio]);
            assert(!es_digito(d[i - inicio]));
            assert(!(forall|k: int| 0 <= k < d.len() ==> es_digito(#[trigger] d[k])));
            return None;
        }
        assert(v@.subrange(inicio, i + 1).drop_last() =~= v@.subrange(inicio, i as int));
        let dig = u - 48;
        let nuevo = acc * 10 + dig;
        if nuevo >= tope {
            acc = tope;
        } else {
            acc = nuevo;
        }
        i = i + 1;
    }
    assert(v@.subrange(inicio, n as int) =~= d);
    if acc >= tope {
        None
    } else {
        Some(acc)
    }
}

/// What the parser knows after some lines.
pub struct Estado {
    pub host: Option<Seq<char>>,
    pub puerto: Option<u16>,
    pub reintentos: Option<u8>,
}

/// The state before any line.
pub open spec fn estado_inicial() -> Estado {
    Estado { host: None, puerto: None, reintentos: None }
}

/// The effect of line number `n` (counting from 1), whose raw text is `l`.
pub open spec fn paso(st: Estado, n: int, l: Seq<char>) -> Result<Estado, ErrorVista> {
    let t = recortado(l, Borde::Espacios);
    if t.len() == 0 || t[0] == '#' {
        Ok(st)
    } else {
        match buscar_desde(t, seq!['='], 0) {
            None => Err(ErrorVista::FormatoInvalido { linea: n, contenido: t }),
            Some(j) => {
                let clave = recortado(t.take(j), Borde::Espacios);
                let valor = recortado(t.skip(j + 1), Borde::Espacios);
                let invalido = ErrorVista::ValorInvalido { linea: n, clave, valor };
                if clave == clave_host() {
                    if valor.len() == 0 {
                        Err(invalido)
                    } else {
                        Ok(Estado { host: Some(valor), ..st })
                    }
                } else if clave == clave_puerto() {
                    match parse_sin_signo(valor, 65535) {
                        Some(p) => if p == 0 {
                            Err(invalido)
                        } else {
                            Ok(Estado { puerto: Some(p as u16), ..st })
                        },
                        None => Err(invalido),
                    }
                } else if clave == clave_reintentos() {
                    match parse_sin_signo(valor, 255) {
                        Some(r) => Ok(Estado { reintentos: Some(r as u8), ..st }),
                        None => Err(invalido),
                    }
                } else {
                    Err(ErrorVista::ClaveDesconocida { linea: n, clave })
                }
            },
        }
    }
}

/// The state after the lines `ls`, or the error of the first line refused.
pub open spec fn procesar(ls: Seq<Seq<char>>) -> Result<Estado, ErrorVista>
    decreases ls.len(),
{
    if ls.len() == 0 {
        Ok(estado_inicial())
    } else {
        match procesar(ls.drop_last()) {
            Err(e) => Err(e),
            Ok(st) => paso(st, ls.len() as int, ls.last()),
        }
    }
}

/// What `parsear_config` returns for the text `s`.
pub open spec fn config_de(s: Seq<char>) -> Result<ConfigVista, ErrorVista> {
    match procesar(lineas(s)) {
        Err(e) => Err(e),
        Ok(st) => match (st.host, st.puerto, st.reintentos) {
            (None, _, _) => Err(ErrorVista::ClaveFaltante(clave_host())),
            (Some(_), None, _) => Err(ErrorVista::ClaveFaltante(clave_puerto())),
            (Some(_), Some(_), None) => Err(ErrorVista::ClaveFaltante(clave_reintentos())),
            (Some(h), Some(p), Some(r)) => Ok(ConfigVista { host: h, puerto: p, reintentos: r }),
        },
    }
}


/// The running state of the parser.
struct Acumulado {
    host: Option<Vec<char>>,
    puerto: Option<u16>,
    reintentos: Option<u8>,
}

impl Acumulado {
    spec fn vista(&self) -> Estado {
        Estado {
            host: match self.host {
                Some(h) => Some(h@),
                None => None,
            },
            puerto: self.puerto,
            reintentos: self.reintentos,
        }
    }
}

/// Whether an executable step agrees with its model.
spec fn paso_coincide(r: Result<Acumulado, ErrorConfig>, m: Result<Estado, ErrorVista>) -> bool {
    match (r, m) {
        (Ok(a), Ok(b)) => a.vista() == b,
        (Err(e), Err(f)) => e@ == f,
        _ => false,
    }
}

/// One line of the configuration.
fn paso_exec(st: Acumulado, n: usize, l: &Vec<char>) -> (r: Result<Acumulado, ErrorConfig>)
    ensures
        paso_coincide(r, paso(st.vista(), n as int, l@)),
{
    let t = recortar(l, Borde::Espacios);
    if t.len() == 0 || t[0] == '#' {
        return Ok(st);
    }
    let igual: Vec<char> = vec!['='];
    assert(igual@ =~= seq!['=']);
    match buscar(&t, &igual, 0) {
        None => Err(ErrorConfig::FormatoInvalido { linea: n, contenido: texto_de(&t) }),
        Some(j) => {
            proof {
                lema_buscar_desde(t@, igual@, 0);
            }
            let crudo_clave = tramo(&t, 0, j);
            let crudo_valor = tramo(&t, j + 1, t.len());
            assert(crudo_clave@ =~= t@.take(j as int));
            assert(crudo_valor@ =~= t@.skip(j + 1));
            let clave = recortar(&crudo_clave, Borde::Espacios);
            let valor = recortar(&crudo_valor, Borde::Espacios);
            let k_host: Vec<char> = vec!['h', 'o', 's', 't'];
            let k_puerto: Vec<char> = vec!['p', 'u', 'e', 'r', 't', 'o'];
            let k_reintentos: Vec<char> = vec!['r', 'e', 'i', 'n', 't', 'e', 'n', 't', 'o', 's'];
            assert(k_host@ =~= clave_host());
            assert(k_puerto@ =~= clave_puerto());
            assert(k_reintentos@ =~= clave_reintentos());
            if iguales(&clave, &k_host) {
                if valor.len() == 0 {
                    Err(
                        ErrorConfig::ValorInvalido {
                            linea: n,
                            clave: texto_de(&clave),
                            valor: texto_de(&valor),
                        },
                    )
                } else {
                    Ok(Acumulado { host: Some(valor), puerto: st.puerto, reintentos: st.reintentos })
                }
            } else if iguales(&clave, &k_puerto) {
                match parsear_sin_signo(&valor, 65535) {
                    Some(p) => {
                        if p == 0 {
                            Err(
                                ErrorConfig::ValorInvalido {
                                    linea: n,
                                    clave: texto_de(&clave),
                                    valor: texto_de(&valor),
                                },
                            )
                        } else {
                            Ok(
                                Acumulado {
                                    host: st.host,
                                    puerto: Some(p as u16),
                                    reintentos: st.reintentos,
                                },
                            )
                        }
                    },
                    None => Err(
                        ErrorConfig::ValorInvalido {
                            linea: n,
                            clave: texto_de(&clave),
                            valor: texto_de(&valor),
                        },
                    ),
                }
            } else if iguales(&clave, &k_reintentos) {
                match parsear_sin_signo(&valor, 255) {
                    Some(x) => Ok(
                        Acumulado { host: st.host, puerto: st.puerto, reintentos: Some(x as u8) },
                    ),
                    None => Err(
                        ErrorConfig::ValorInvalido {
                            linea: n,
                            clave: texto_de(&clave),
                            valor: texto_de(&valor),
                        },
                    ),
                }
            } else {
                Err(ErrorConfig::ClaveDesconocida { linea: n, clave: texto_de(&clave) })
            }
        },
    }
}

/// Whether an executable result agrees with its model.
pub open spec fn config_coincide(r: Result<Config, ErrorConfig>, m: Result<ConfigVista, ErrorVista>) -> bool {
    match (r, m) {
        (Ok(a), Ok(b)) => a@ == b,
        (Err(e), Err(f)) => e@ == f,
        _ => false,
    }
}

/// Parses a whole configuration text.
///
/// The result is `Ok` exactly when `config_de` is: then it holds the last
/// value given to each key. Otherwise the error is that of the first line
/// refused, or, when no line is refused, the first of `host`, `puerto`,
/// `reintentos` that never appeared.
pub fn parsear_config(texto: &str) -> (r: Result<Config, ErrorConfig>)
    ensures
        config_coincide(r, config_de(texto@)),
{
    let v = caracteres(texto);
    let ls = partir_lineas(&v);
    let mut st = Acumulado { host: None, puerto: None, reintentos: None };
    let n = ls.len();
    let mut k: usize = 0;
    assert(vistas(ls@).take(0) =~= seq![]);
    while k < n
        invariant
            n == ls@.len(),
            vistas(ls@) == lineas(v@),
            v@ == texto@,
            k <= n,
            procesar(vistas(ls@).take(k as int)) == Ok::<Estado, ErrorVista>(st.vista()),
        decreases n - k,
    {
        let ghost previas = vistas(ls@).take(k as int);
        assert(vistas(ls@).take(k + 1).drop_last() =~= previas);
        assert(vistas(ls@).take(k + 1).last() == ls@[k as int]@);
        let r = paso_exec(st, k + 1, &ls[k]);
        match r {
            Ok(nuevo) => {
                st = nuevo;
            },
            Err(e) => {
                proof {
                    assert(procesar(vistas(ls@).take(k + 1)) is Err);
                    lema_error_persiste(vistas(ls@), k + 1);
                    assert(vistas(ls@).take(n as int) =~= vistas(ls@));
                }
                return Err(e);
            },
        }
        k = k + 1;
    }
    assert(vistas(ls@).take(n as int) =~= vistas(ls@));
    match st.host {
        None => {
            proof {
                reveal_strlit("host");
            }
            assert("host"@ =~= clave_host());
            Err(ErrorConfig::ClaveFaltante("host"))
        },
        Some(h) => match st.puerto {
            None => {
                proof {
                    reveal_strlit("puerto");
                }
                assert("puerto"@ =~= clave_puerto());
                Err(ErrorConfig::ClaveFaltante("puerto"))
            },
            Some(p) => match st.reintentos {
                None => {
                    proof {
                        reveal_strlit("reintentos");
                    }
                    assert("reintentos"@ =~= clave_reintentos());
                    Err(ErrorConfig::ClaveFaltante("reintentos"))
                },
                Some(x) => Ok(Config { host: texto_de(&h), puerto: p, reintentos: x }),
            },
        },
    }
}

/// Once a line is refused, every longer prefix is refused with the same error.
proof fn lema_error_persiste(ls: Seq<Seq<char>>, k: int)
    requires
        0 <= k <= ls.len(),
        procesar(ls.take(k)) is Err,
    ensures
        procesar(ls) == procesar(ls.take(k)),
    decreases ls.len() - k,
{
    if k < ls.len() {
        assert(ls.take(k + 1).drop_last() =~= ls.take(k));
        lema_error_persiste(ls, k + 1);
    } else {
        assert(ls.take(k) =~= ls);
    }
}


/// The message that describes an error to a person.
pub open spec fn mensaje_de(e: ErrorVista) -> Seq<char> {
    match e {
        ErrorVista::FormatoInvalido { linea, contenido } => "línea "@ + decimal_spec(linea as nat)
            + ": '"@ + contenido + "' no tiene formato clave = valor"@,
        ErrorVista::ClaveDesconocida { linea, clave } => "línea "@ + decimal_spec(linea as nat)
            + ": clave desconocida '"@ + clave + "'"@,
        ErrorVista::ValorInvalido { linea, clave, valor } => "línea "@ + decimal_spec(
            linea as nat,
        ) + ": '"@ + valor + "' no es válido para '"@ + clave + "'"@,
        ErrorVista::ClaveFaltante(clave) => "falta la clave obligatoria '"@ + clave + "'"@,
    }
}

impl ErrorConfig {
    /// The message of this error, one line for a person to read.
    pub fn mensaje(&self) -> (r: String)
        ensures
            r@ == mensaje_de(self@),
    {
        let mut v: Vec<char> = Vec::new();
        match self {
            ErrorConfig::FormatoInvalido { linea, contenido } => {
                anexar_str(&mut v, "línea ");
                anexar(&mut v, &decimal(*linea as u64));
                anexar_str(&mut v, ": '");
                anexar_str(&mut v, contenido.as_str());
                anexar_str(&mut v, "' no tiene formato clave = valor");
            },
            ErrorConfig::ClaveDesconocida { linea, clave } => {
                anexar_str(&mut v, "línea ");
                anexar(&mut v, &decimal(*linea as u64));
                anexar_str(&mut v, ": clave desconocida '");
                anexar_str(&mut v, clave.as_str());
                anexar_str(&mut v, "'");
            },
            ErrorConfig::ValorInvalido { linea, clave, valor } => {
                anexar_str(&mut v, "línea ");
                anexar(&mut v, &decimal(*linea as u64));
                anexar_str(&mut v, ": '");
                anexar_str(&mut v, valor.as_str());
                anexar_str(&mut v, "' no es válido para '");
                anexar_str(&mut v, clave.as_str());
                anexar_str(&mut v, "'");
            },
            ErrorConfig::ClaveFaltante(clave) => {
                anexar_str(&mut v, "falta la clave obligatoria '");
                anexar_str(&mut v, clave);
                anexar_str(&mut v, "'");
            },
        }
        assert(v@ =~= mensaje_de(self@));
        texto_de(&v)
    }
}

/// Empty lines and comment lines (after trimming, empty or starting with
/// `#`) leave the parser's state as it was.
pub proof fn ley_comentarios(st: Estado, n: int, l: Seq<char>)
    requires
        ({
            let t = recortado(l, Borde::Espacios);
            t.len() == 0 || t[0] == '#'
        }),
    ensures
        paso(st, n, l) == Ok::<Estado, ErrorVista>(st),
{
}


/// The line that an error names, if it names one.
pub open spec fn linea_del_error(e: ErrorVista) -> Option<int> {
    match e {
        ErrorVista::FormatoInvalido { linea, .. } => Some(linea),
        ErrorVista::ClaveDesconocida { linea, .. } => Some(linea),
        ErrorVista::ValorInvalido { linea, .. } => Some(linea),
        ErrorVista::ClaveFaltante(_) => None,
    }
}

/// Every error that a line causes names that line.
proof fn lema_paso_linea(st: Estado, n: int, l: Seq<char>)
    ensures
        paso(st, n, l) matches Err(e) ==> linea_del_error(e) == Some(n),
{
}

/// Each error of a line reports the line where it occurred: when the lines
/// are refused for a line (rather than for a missing key), the error names
/// line `k + 1`, every line before it was accepted, and that line itself
/// causes that very error.
pub proof fn ley_error_con_linea(ls: Seq<Seq<char>>)
    requires
        procesar(ls) is Err,
    ensures
        exists|k: int|
            0 <= k < ls.len() && linea_del_error(procesar(ls)->Err_0) == Some(k + 1) && procesar(
                ls.take(k),
            ) is Ok && paso(procesar(ls.take(k))->Ok_0, k + 1, #[trigger] ls[k]) == Err::<
                Estado,
                ErrorVista,
            >(procesar(ls)->Err_0),
    decreases ls.len(),
{
    let e = procesar(ls)->Err_0;
    let p = ls.drop_last();
    if procesar(p) is Err {
        ley_error_con_linea(p);
        let k = choose|k: int|
            0 <= k < p.len() && linea_del_error(procesar(p)->Err_0) == Some(k + 1) && procesar(
                p.take(k),
            ) is Ok && paso(procesar(p.take(k))->Ok_0, k + 1, #[trigger] p[k]) == Err::<
                Estado,
                ErrorVista,
            >(procesar(p)->Err_0);
        assert(ls.take(k) =~= p.take(k));
        assert(ls[k] == p[k]);
    } else {
        let k = ls.len() - 1;
        lema_paso_linea(procesar(p)->Ok_0, k + 1, ls.last());
        assert(ls.take(k) =~= p);
        assert(ls[k] == ls.last());
    }
}

/// A line's effect does not depend on the lines before it: it is refused,
/// with the same error, in every state or in none; and when accepted it
/// sets the same keys to the same values in every state, leaving the other
/// keys as they were. So a later line for a key overrides an earlier one.
pub proof fn ley_linea_sobrescribe(st: Estado, n: int, l: Seq<char>)
    ensures
        paso(st, n, l) is Err <==> paso(estado_inicial(), n, l) is Err,
        paso(st, n, l) is Err ==> paso(st, n, l) == paso(estado_inicial(), n, l),
        paso(estado_inicial(), n, l) matches Ok(a) ==> paso(st, n, l) == Ok::<Estado, ErrorVista>(
            Estado {
                host: if a.host is Some {
                    a.host
                } else {
                    st.host
                },
                puerto: if a.puerto is Some {
                    a.puerto
                } else {
                    st.puerto
                },
                reintentos: if a.reintentos is Some {
                    a.reintentos
                } else {
                    st.reintentos
                },
            },
        ),
{
}

} // verus!
