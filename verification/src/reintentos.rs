//! The decisions of a retry loop with exponential backoff, and of a worker
//! that stops on a shutdown signal. The waiting and the work itself are done
//! by the caller, which hands each outcome back.
use vstd::prelude::*;

verus! {

/// `inicial` doubled `k` times.
pub open spec fn duplicado(inicial: nat, k: nat) -> nat
    decreases k,
{
    if k == 0 {
        inicial
    } else {
        2 * duplicado(inicial, (k - 1) as nat)
    }
}

/// Where a retry loop stands: the attempt under way (from 1) and the wait
/// before the next one.
pub struct Reintentos {
    max_intentos: u32,
    espera_inicial_ms: u64,
    intento: u32,
    espera_ms: u64,
}

/// What to do after an attempt.
pub enum Decision<T, E> {
    /// Stop and give this result to the caller.
    Terminar(Result<T, E>),
    /// Wait this many milliseconds, then try again.
    Esperar(u64),
}

impl Reintentos {
    /// The most attempts allowed.
    pub closed spec fn max_intentos_vista(&self) -> nat {
        self.max_intentos as nat
    }

    /// The attempt under way, from 1.
    pub closed spec fn intento_vista(&self) -> nat {
        self.intento as nat
    }

    /// The wait before the next attempt, in milliseconds.
    pub closed spec fn espera_vista(&self) -> nat {
        self.espera_ms as nat
    }

    /// The first wait.
    pub closed spec fn espera_inicial_vista(&self) -> nat {
        self.espera_inicial_ms as nat
    }

    /// Attempts stay within the limit, and the wait doubles after each
    /// failure.
    pub open spec fn bien_formado(&self) -> bool {
        &&& 1 <= self.intento_vista() <= self.max_intentos_vista()
        &&& self.espera_vista() == duplicado(
            self.espera_inicial_vista(),
            (self.intento_vista() - 1) as nat,
        )
    }

    /// Starts a retry loop of at most `max_intentos` attempts whose first
    /// wait is `espera_inicial_ms`.
    pub fn nuevo(max_intentos: u32, espera_inicial_ms: u64) -> (r: Reintentos)
        requires
            max_intentos >= 1,
        ensures
            r.bien_formado(),
            r.max_intentos_vista() == max_intentos,
            r.espera_inicial_vista() == espera_inicial_ms,
            r.intento_vista() == 1,
    {
        Reintentos { max_intentos, espera_inicial_ms, intento: 1, espera_ms: espera_inicial_ms }
    }

    /// Decides after an attempt: a success ends the loop with its value; a
    /// failure on the last attempt ends it with that (the last) error; any
    /// other failure asks for the current wait, then the next attempt with
    /// twice the wait.
    pub fn decidir<T, E>(&mut self, resultado: Result<T, E>) -> (d: Decision<T, E>)
        requires
            old(self).bien_formado(),
            resultado is Err && old(self).intento_vista() < old(self).max_intentos_vista() ==> 2
                * old(self).espera_vista() <= u64::MAX,
        ensures
            final(self).bien_formado(),
            final(self).max_intentos_vista() == old(self).max_intentos_vista(),
            final(self).espera_inicial_vista() == old(self).espera_inicial_vista(),
            resultado is Ok ==> d == Decision::<T, E>::Terminar(resultado) && *final(self) == *old(
                self,
            ),
            resultado is Err && old(self).intento_vista() == old(self).max_intentos_vista() ==> d
                == Decision::<T, E>::Terminar(resultado) && *final(self) == *old(self),
            resultado is Err && old(self).intento_vista() < old(self).max_intentos_vista() ==> d
                == Decision::<T, E>::Esperar(old(self).espera_vista() as u64),
            resultado is Err && old(self).intento_vista() < old(self).max_intentos_vista() ==> final(self).intento_vista() == old(self).intento_vista() + 1,
    {
        match resultado {
            Ok(v) => Decision::Terminar(Ok(v)),
            Err(e) => {
                if self.intento == self.max_intentos {
                    Decision::Terminar(Err(e))
                } else {
                    let espera = self.espera_ms;
                    self.intento = self.intento + 1;
                    self.espera_ms = espera * 2;
                    Decision::Esperar(espera)
                }
            },
        }
    }

    /// The wait that the next failure will ask for, in milliseconds.
    pub fn espera_actual(&self) -> (r: u64)
        ensures
            r == self.espera_vista(),
    {
        self.espera_ms
    }

    /// Whether the attempt under way is the last one allowed.
    pub fn es_ultimo_intento(&self) -> (r: bool)
        ensures
            r == (self.intento_vista() == self.max_intentos_vista()),
    {
        self.intento == self.max_intentos
    }
}

/// What a worker observes while it waits.
pub enum Evento {
    /// A job arrived.
    Trabajo,
    /// Every sender of jobs is gone.
    CanalCerrado,
    /// The shutdown signal arrived (or its sender is gone).
    Apagado,
}

/// The worker's next step: after a job, go on with one more processed; on a
/// closed channel or a shutdown, stop with the count so far.
pub fn paso_worker(procesados: u64, evento: Evento) -> (r: (u64, bool))
    requires
        evento is Trabajo ==> procesados < u64::MAX,
    ensures
        evento is Trabajo ==> r.0 == procesados + 1 && r.1,
        !(evento is Trabajo) ==> r.0 == procesados && !r.1,
{
    match evento {
        Evento::Trabajo => (procesados + 1, true),
        Evento::CanalCerrado => (procesados, false),
        Evento::Apagado => (procesados, false),
    }
}

} // verus!
