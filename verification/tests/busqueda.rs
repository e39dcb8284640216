use portafolio::busqueda::{linea_mas_larga, lineas_con, Resaltado};

#[test]
fn encuentra_lineas() {
    let log = "INFO: arranque\nERROR: voltaje fuera de rango\nINFO: fin\nERROR: timeout";
    let errores = lineas_con(log, "ERROR");
    assert_eq!(
        errores,
        vec!["ERROR: voltaje fuera de rango", "ERROR: timeout"]
    );
}

#[test]
fn sin_coincidencias() {
    assert!(lineas_con("a\nb\nc", "z").is_empty());
}

#[test]
fn las_referencias_apuntan_al_original() {
    let texto = String::from("una línea con dato");
    let resultado = lineas_con(&texto, "dato");
    assert_eq!(resultado[0].as_ptr(), texto.as_ptr());
}

#[test]
fn mas_larga_entre_dos_textos() {
    let a = "corta\nla línea más larga de todas";
    let b = "media\nchica";
    assert_eq!(linea_mas_larga(a, b), "la línea más larga de todas");
    assert_eq!(linea_mas_larga(b, a), "la línea más larga de todas");
}

#[test]
fn mas_larga_con_vacios() {
    assert_eq!(linea_mas_larga("", ""), "");
    assert_eq!(linea_mas_larga("solo", ""), "solo");
}

#[test]
fn resaltado_parte_en_tres() {
    let r = Resaltado::buscar("voltaje vcore alto", "vcore").unwrap();
    assert_eq!(r.antes, "voltaje ");
    assert_eq!(r.coincidencia, "vcore");
    assert_eq!(r.despues, " alto");
}

#[test]
fn resaltado_sin_match() {
    assert_eq!(Resaltado::buscar("nada por aquí", "vcore"), None);
}

#[test]
fn resaltado_al_inicio_y_al_final() {
    let r = Resaltado::buscar("vcore", "vcore").unwrap();
    assert_eq!(r.antes, "");
    assert_eq!(r.despues, "");
}

#[test]
fn mas_larga_cuenta_bytes_y_gana_la_ultima() {
    // "ñññ" has 3 characters but 6 bytes; "abcde" has 5 bytes.
    assert_eq!(linea_mas_larga("ñññ\nabcde", ""), "ñññ");
    // Equal byte lengths: the last one wins.
    assert_eq!(linea_mas_larga("aaa\nbbb", "ccc"), "ccc");
}

#[test]
fn resaltado_recompone_la_linea() {
    let linea = "día: vcore=1.05 vcore=1.10";
    let r = Resaltado::buscar(linea, "vcore").unwrap();
    assert_eq!(format!("{}{}{}", r.antes, r.coincidencia, r.despues), linea);
    assert_eq!(r.antes, "día: ");
}

#[test]
fn lineas_con_patron_vacio_y_crlf() {
    assert_eq!(lineas_con("a\r\nb\n", ""), vec!["a", "b"]);
    assert_eq!(lineas_con("x\r", "x"), vec!["x\r"]);
}
