use portafolio::sensores::entradas_de_registro;

fn pares(v: &[(&str, &str)]) -> Vec<(String, String)> {
    v.iter().map(|(a, b)| (a.to_string(), b.to_string())).collect()
}

#[test]
fn descarta_entradas_sin_dos_puntos() {
    assert_eq!(
        entradas_de_registro("vcore:1.05;vddq:abc;;temp:68.5;sinvalor"),
        pares(&[("vcore", "1.05"), ("vddq", "abc"), ("temp", "68.5")])
    );
}

#[test]
fn recorta_nombre_y_valor() {
    assert_eq!(
        entradas_de_registro(" t : 10.0 ;x:mal"),
        pares(&[("t", "10.0"), ("x", "mal")])
    );
}

#[test]
fn corta_en_el_primer_dos_puntos() {
    assert_eq!(entradas_de_registro("a:b:c"), pares(&[("a", "b:c")]));
}

#[test]
fn registro_vacio() {
    assert!(entradas_de_registro("").is_empty());
    assert!(entradas_de_registro(";;;").is_empty());
    assert_eq!(entradas_de_registro(":"), pares(&[("", "")]));
}

#[test]
fn valores_numericos_se_leen_despues() {
    let lecturas: Vec<(String, f64)> = entradas_de_registro("a:NaN;b:inf;c:1.0")
        .into_iter()
        .filter_map(|(n, v)| v.parse::<f64>().ok().filter(|x| x.is_finite()).map(|x| (n, x)))
        .collect();
    assert_eq!(lecturas, vec![("c".to_string(), 1.0)]);
}
