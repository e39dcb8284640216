//! The shared state of the concurrency lessons: an event log that tasks
//! append to, the counters of a pool of workers and the jobs it takes. The
//! locking and the tasks themselves are the caller's.
use vstd::prelude::*;
use crate::texto::{anexar, anexar_str, caracteres, decimal, decimal_spec, recortado, recortar, texto_de, Borde};

verus! {

/// The event that task `i` reports.
pub open spec fn evento_de(i: nat) -> Seq<char> {
    "task "@ + decimal_spec(i) + " reportó"@
}

/// A log of events, in the order they were recorded.
#[derive(Debug)]
pub struct Registro {
    pub eventos: Vec<String>,
}

impl Default for Registro {
    /// An empty log.
    fn default() -> (r: Registro)
        ensures
            r.eventos@.len() == 0,
    {
        Registro { eventos: Vec::new() }
    }
}

impl Registro {
    /// Records that task `i` reported.
    pub fn registrar(&mut self, i: u32)
        ensures
            final(self).eventos@.map_values(|s: String| s@) == old(self).eventos@.map_values(
                |s: String| s@,
            ).push(evento_de(i as nat)),
    {
        let mut v: Vec<char> = Vec::new();
        anexar_str(&mut v, "task ");
        anexar(&mut v, &decimal(i as u64));
        anexar_str(&mut v, " reportó");
        assert(v@ =~= evento_de(i as nat));
        let ghost antes = self.eventos@;
        self.eventos.push(texto_de(&v));
        assert(self.eventos@.map_values(|s: String| s@) =~= antes.map_values(|s: String| s@).push(
            evento_de(i as nat),
        ));
    }
}

/// Counters shared by the workers of a pool.
#[derive(Debug)]
pub struct Estadisticas {
    pub procesadas: u64,
    pub errores: u64,
}

impl Default for Estadisticas {
    /// Both counters at zero.
    fn default() -> (r: Estadisticas)
        ensures
            r.procesadas == 0,
            r.errores == 0,
    {
        Estadisticas { procesadas: 0, errores: 0 }
    }
}


/// A job for the pool: the raw reading of a sensor, to be read as a number.
#[derive(Debug)]
pub struct Trabajo {
    pub id: u32,
    pub crudo: String,
}

impl Trabajo {
    /// The text that is read as the number: the raw reading without the
    /// white space at either end (`str::trim`).
    pub fn lectura(&self) -> (r: String)
        ensures
            r@ == recortado(self.crudo@, Borde::Espacios),
    {
        texto_de(&recortar(&caracteres(self.crudo.as_str()), Borde::Espacios))
    }
}

} // verus!
