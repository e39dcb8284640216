use portafolio::memo::Calculadora;

#[test]
fn calcula_bien() {
    let mut c = Calculadora::new();
    assert_eq!(c.costo(12), 28);
    assert_eq!(c.costo(7), 8);
}

#[test]
fn cachea_de_verdad() {
    let mut c = Calculadora::new();
    c.costo(100);
    c.costo(100);
    c.costo(100);
    assert_eq!(c.calculos_reales(), 1);
}

#[test]
fn valores_distintos_se_calculan_cada_uno() {
    let mut c = Calculadora::new();
    c.costo(10);
    c.costo(20);
    c.costo(10);
    c.costo(20);
    assert_eq!(c.calculos_reales(), 2);
}

#[test]
fn el_caller_solo_necesita_referencia_inmutable() {
    // The cache is updated through the calculator itself, so the caller
    // holds it by `&mut`; nothing else about it is needed.
    let mut c = Calculadora::new();
    let referencia: &mut Calculadora = &mut c;
    assert_eq!(referencia.costo(6), 12);
}

#[test]
fn casos_borde_de_divisores() {
    let mut c = Calculadora::new();
    assert_eq!(c.costo(0), 0);
    assert_eq!(c.costo(1), 1);
    assert_eq!(c.costo(28), 56);
    assert_eq!(c.calculos_reales(), 3);
    assert_eq!(c.costo(0), 0);
    assert_eq!(c.calculos_reales(), 3);
}
