//! Verified core of a Rust study portfolio: text utilities, a word-frequency
//! counter, a min-stack, a configuration parser, line search helpers, a
//! memoising calculator, a retry policy, a text search/replace engine, the
//! decisions of a task API and an educational proof-of-work blockchain,
//! plus measuring instruments and the shared state of the concurrency lessons.
pub mod texto;
pub mod config;
pub mod frecuencias;
pub mod blockchain;
pub mod pila;
pub mod busqueda;
pub mod memo;
pub mod textkit;
pub mod reintentos;
pub mod tareas;
pub mod fundamentos;
pub mod instrumentos;
pub mod registro;
pub mod bloques;
pub mod lecciones;
pub mod sensores;
