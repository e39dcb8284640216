//! The decisions of a task REST API: which requests are refused, what an
//! update stores, and how each error is answered. Storage and HTTP are the
//! caller's.
use vstd::prelude::*;
use crate::texto::{
    anexar, anexar_str, caracteres, decimal, decimal_spec, recortado, recortar, texto_de, Borde,
};

verus! {

/// A task as stored and returned.
#[derive(Debug, PartialEq, Clone)]
pub struct Tarea {
    pub id: i64,
    pub titulo: String,
    pub completada: bool,
    pub creada_en: String,
}

/// What a client sends to create a task.
#[derive(Debug)]
pub struct NuevaTarea {
    pub titulo: String,
}

/// What a client sends to update a task: only the fields to change.
#[derive(Debug)]
pub struct ActualizarTarea {
    pub titulo: Option<String>,
    pub completada: Option<bool>,
}

/// Why a request failed.
#[derive(Debug, PartialEq)]
pub enum ErrorApi {
    /// There is no task with this id.
    NoEncontrada(i64),
    /// The request is not acceptable, for this reason.
    SolicitudInvalida(String),
    /// The database failed.
    BaseDeDatos,
}

/// An error as plain values.
pub enum ErrorApiVista {
    NoEncontrada(int),
    SolicitudInvalida(Seq<char>),
    BaseDeDatos,
}

impl View for ErrorApi {
    type V = ErrorApiVista;

    open spec fn view(&self) -> ErrorApiVista {
        match self {
            ErrorApi::NoEncontrada(id) => ErrorApiVista::NoEncontrada(*id as int),
            ErrorApi::SolicitudInvalida(m) => ErrorApiVista::SolicitudInvalida(m@),
            ErrorApi::BaseDeDatos => ErrorApiVista::BaseDeDatos,
        }
    }
}

/// The decimal representation of an integer, with a `-` when negative.
pub open spec fn entero_spec(n: int) -> Seq<char> {
    if n < 0 {
        seq!['-'] + decimal_spec((-n) as nat)
    } else {
        decimal_spec(n as nat)
    }
}

/// The decimal representation of `n`.
pub fn entero(n: i64) -> (r: Vec<char>)
    ensures
        r@ == entero_spec(n as int),
{
    if n < 0 {
        let magnitud: u64 = if n == i64::MIN {
            9223372036854775808u64
        } else {
            (-n) as u64
        };
        let mut v: Vec<char> = Vec::new();
        v.push('-');
        anexar(&mut v, &decimal(magnitud));
        assert(v@ =~= entero_spec(n as int));
        v
    } else {
        decimal(n as u64)
    }
}

/// The message of an error, as a person reads it.
pub open spec fn mensaje_error(e: ErrorApiVista) -> Seq<char> {
    match e {
        ErrorApiVista::NoEncontrada(id) => "tarea "@ + entero_spec(id) + " no encontrada"@,
        ErrorApiVista::SolicitudInvalida(m) => "solicitud inválida: "@ + m,
        ErrorApiVista::BaseDeDatos => "error de base de datos"@,
    }
}

/// The HTTP status of an error: 404, 400 or 500.
pub open spec fn estado_error(e: ErrorApiVista) -> u16 {
    match e {
        ErrorApiVista::NoEncontrada(_) => 404,
        ErrorApiVista::SolicitudInvalida(_) => 400,
        ErrorApiVista::BaseDeDatos => 500,
    }
}

/// What a client is told of an error: the message, except that database
/// failures are only "error interno".
pub open spec fn mensaje_publico(e: ErrorApiVista) -> Seq<char> {
    match e {
        ErrorApiVista::BaseDeDatos => "error interno"@,
        _ => mensaje_error(e),
    }
}

impl ErrorApi {
    /// The message of this error.
    pub fn mensaje(&self) -> (r: String)
        ensures
            r@ == mensaje_error(self@),
    {
        let mut v: Vec<char> = Vec::new();
        match self {
            ErrorApi::NoEncontrada(id) => {
                anexar_str(&mut v, "tarea ");
                anexar(&mut v, &entero(*id));
                anexar_str(&mut v, " no encontrada");
            },
            ErrorApi::SolicitudInvalida(m) => {
                anexar_str(&mut v, "solicitud inválida: ");
                anexar_str(&mut v, m.as_str());
            },
            ErrorApi::BaseDeDatos => {
                anexar_str(&mut v, "error de base de datos");
            },
        }
        assert(v@ =~= mensaje_error(self@));
        texto_de(&v)
    }

    /// The HTTP status and the public message that answer this error.
    pub fn respuesta(&self) -> (r: (u16, String))
        ensures
            r.0 == estado_error(self@),
            r.1@ == mensaje_publico(self@),
    {
        match self {
            ErrorApi::BaseDeDatos => (500, "error interno".to_owned()),
            ErrorApi::NoEncontrada(_) => (404, self.mensaje()),
            ErrorApi::SolicitudInvalida(_) => (400, self.mensaje()),
        }
    }
}

/// The reason given for an empty title.
pub open spec fn titulo_vacio() -> Seq<char> {
    "el título no puede estar vacío"@
}

/// The title that creating a task stores: the one sent, trimmed; refused
/// when nothing is left.
pub fn titulo_para_crear(nueva: &NuevaTarea) -> (r: Result<String, ErrorApi>)
    ensures
        recortado(nueva.titulo@, Borde::Espacios).len() == 0 ==> (r matches Err(e) && e@
            == ErrorApiVista::SolicitudInvalida(titulo_vacio())),
        recortado(nueva.titulo@, Borde::Espacios).len() > 0 ==> (r matches Ok(t) && t@
            == recortado(nueva.titulo@, Borde::Espacios)),
{
    let v = caracteres(nueva.titulo.as_str());
    let t = recortar(&v, Borde::Espacios);
    if t.len() == 0 {
        Err(ErrorApi::SolicitudInvalida("el título no puede estar vacío".to_owned()))
    } else {
        Ok(texto_de(&t))
    }
}

/// The title and state that updating `actual` with `cambios` stores: each
/// field sent replaces the stored one, the others stay. A title that is
/// only white space is refused (a title sent is stored as sent, not
/// trimmed).
pub fn cambios_para_actualizar(actual: &Tarea, cambios: ActualizarTarea) -> (r: Result<
    (String, bool),
    ErrorApi,
>)
    ensures
        ({
            let titulo = match cambios.titulo {
                Some(t) => t@,
                None => actual.titulo@,
            };
            let completada = match cambios.completada {
                Some(c) => c,
                None => actual.completada,
            };
            &&& recortado(titulo, Borde::Espacios).len() == 0 ==> (r matches Err(e) && e@
                == ErrorApiVista::SolicitudInvalida(titulo_vacio()))
            &&& recortado(titulo, Borde::Espacios).len() > 0 ==> (r matches Ok(x) && x.0@ == titulo
                && x.1 == completada)
        }),
{
    let titulo = match cambios.titulo {
        Some(t) => t,
        None => actual.titulo.clone(),
    };
    let completada = match cambios.completada {
        Some(c) => c,
        None => actual.completada,
    };
    let v = caracteres(titulo.as_str());
    let t = recortar(&v, Borde::Espacios);
    if t.len() == 0 {
        Err(ErrorApi::SolicitudInvalida("el título no puede estar vacío".to_owned()))
    } else {
        Ok((titulo, completada))
    }
}

/// The answer to a lookup of the task `id`: the task, or not found.
pub fn tarea_o_404(id: i64, encontrada: Option<Tarea>) -> (r: Result<Tarea, ErrorApi>)
    ensures
        encontrada matches Some(t) ==> r == Ok::<Tarea, ErrorApi>(t),
        encontrada is None ==> (r matches Err(e) && e@ == ErrorApiVista::NoEncontrada(id as int)),
{
    match encontrada {
        Some(t) => Ok(t),
        None => Err(ErrorApi::NoEncontrada(id)),
    }
}

/// The answer to deleting the task `id` once the store says how many rows
/// it removed: 204 (no content), or not found when it removed none.
pub fn resultado_eliminar(id: i64, filas_afectadas: u64) -> (r: Result<u16, ErrorApi>)
    ensures
        filas_afectadas == 0 ==> (r matches Err(e) && e@ == ErrorApiVista::NoEncontrada(id as int)),
        filas_afectadas > 0 ==> r == Ok::<u16, ErrorApi>(204),
{
    if filas_afectadas == 0 {
        Err(ErrorApi::NoEncontrada(id))
    } else {
        Ok(204)
    }
}

} // verus!
