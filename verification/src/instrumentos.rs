//! Measuring instruments whose yearly calibration cost is a whole number of
//! dollars, and the one-line description that a report shows for each.
use vstd::prelude::*;
use crate::texto::{anexar, anexar_str, decimal, decimal_spec, texto_de};

verus! {

/// A bench power supply.
pub struct FuenteAlimentacion {
    pub modelo: String,
    pub canales: u8,
}

/// A thermal camera.
pub struct CamaraTermica {
    pub modelo: String,
}

/// The usual description of an instrument: its name and its yearly
/// calibration cost in dollars, with two decimals.
pub open spec fn descripcion_de(nombre: Seq<char>, costo: nat) -> Seq<char> {
    nombre + " (calibración: $"@ + decimal_spec(costo) + ".00/año)"@
}

/// The description of an instrument called `nombre` that costs `costo`.
fn describir(nombre: &str, costo: u32) -> (r: String)
    ensures
        r@ == descripcion_de(nombre@, costo as nat),
{
    let mut v: Vec<char> = Vec::new();
    anexar_str(&mut v, nombre);
    anexar_str(&mut v, " (calibración: $");
    anexar(&mut v, &decimal(costo as u64));
    anexar_str(&mut v, ".00/año)");
    assert(v@ =~= descripcion_de(nombre@, costo as nat));
    texto_de(&v)
}

impl FuenteAlimentacion {
    /// The model name.
    pub fn nombre(&self) -> (r: &str)
        ensures
            r@ == self.modelo@,
    {
        self.modelo.as_str()
    }

    /// The yearly calibration cost in dollars: 120 per channel.
    pub fn costo_calibracion(&self) -> (r: u32)
        ensures
            r == 120 * self.canales,
    {
        120 * (self.canales as u32)
    }

    /// The usual description, with the cost of all channels.
    pub fn descripcion(&self) -> (r: String)
        ensures
            r@ == descripcion_de(self.modelo@, 120 * self.canales as nat),
    {
        describir(self.nombre(), self.costo_calibracion())
    }
}

impl CamaraTermica {
    /// The model name.
    pub fn nombre(&self) -> (r: &str)
        ensures
            r@ == self.modelo@,
    {
        self.modelo.as_str()
    }

    /// The yearly calibration cost in dollars: always 450.
    pub fn costo_calibracion(&self) -> (r: u32)
        ensures
            r == 450,
    {
        450
    }

    /// The usual description.
    pub fn descripcion(&self) -> (r: String)
        ensures
            r@ == descripcion_de(self.modelo@, 450),
    {
        describir(self.nombre(), self.costo_calibracion())
    }
}

} // verus!
