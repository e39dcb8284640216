use portafolio::bloques::{
    bloques, cabe_tramo, contar_palabras_por_bloques, contar_tramo, lineas_de,
};
use portafolio::frecuencias::{contar_palabras, Frecuencias};

const TEXTO: &str = "\
el rápido zorro marrón salta
sobre el perro perezoso
el zorro es rápido
y el perro no";

fn iguales(a: &Frecuencias, b: &Frecuencias) -> bool {
    a.len() == b.len() && a.claves().iter().all(|k| a.get(k) == b.get(k))
}

#[test]
fn paralelo_coincide_con_secuencial() {
    let esperado = contar_palabras(TEXTO);
    for n in [1, 2, 3, 8] {
        assert!(
            iguales(&contar_palabras_por_bloques(TEXTO, n), &esperado),
            "difiere con {n} threads"
        );
    }
}

#[test]
fn cuenta_correcta_puntual() {
    let resultado = contar_palabras_por_bloques(TEXTO, 2);
    assert_eq!(resultado.get("el"), Some(&4));
    assert_eq!(resultado.get("zorro"), Some(&2));
    assert_eq!(resultado.get("perezoso"), Some(&1));
}

#[test]
fn ej02_mapreduce_texto_vacio() {
    assert!(contar_palabras_por_bloques("", 4).is_empty());
}

#[test]
fn mas_threads_que_lineas() {
    let esperado = contar_palabras(TEXTO);
    assert!(iguales(&contar_palabras_por_bloques(TEXTO, 32), &esperado));
}

#[test]
fn cero_threads_no_paniquea() {
    assert!(contar_palabras_por_bloques(TEXTO, 0).is_empty());
}

#[test]
fn texto_grande() {
    let grande: String = (0..500)
        .map(|i| format!("linea {} con palabras repetidas {}\n", i, i % 7))
        .collect();
    let esperado = contar_palabras(&grande);
    assert!(iguales(&contar_palabras_por_bloques(&grande, 8), &esperado));
}

#[test]
fn bloques_como_chunks() {
    assert_eq!(bloques(4, 2), vec![(0, 2), (2, 4)]);
    assert_eq!(bloques(4, 3), vec![(0, 2), (2, 4)]);
    assert_eq!(bloques(5, 2), vec![(0, 3), (3, 5)]);
    assert_eq!(bloques(4, 32), vec![(0, 1), (1, 2), (2, 3), (3, 4)]);
    assert_eq!(bloques(7, 1), vec![(0, 7)]);
    assert!(bloques(0, 3).is_empty());
}

#[test]
fn lineas_como_str_lines() {
    assert_eq!(lineas_de("a\r\nb\n\nc\n"), vec!["a", "b", "", "c"]);
    assert!(lineas_de("").is_empty());
    assert_eq!(lineas_de("x\r"), vec!["x\r"]);
}

#[test]
fn tramo_cuenta_solo_sus_lineas() {
    let ls = lineas_de(TEXTO);
    assert!(cabe_tramo(&ls, 1, 3));
    let f = contar_tramo(&ls, 1, 3);
    assert_eq!(f.get("el"), Some(&2));
    assert_eq!(f.get("perro"), Some(&1));
    assert_eq!(f.get("salta"), None);
    assert!(contar_tramo(&ls, 2, 2).is_empty());
}

#[test]
fn fusion_suma_y_comprueba() {
    let mut a = contar_palabras("x y x");
    let b = contar_palabras("x z");
    assert!(a.cabe_fusion(&b));
    a.fusionar(&b);
    assert_eq!(a.get("x"), Some(&3));
    assert_eq!(a.get("z"), Some(&1));
    let mut grande = Frecuencias::new();
    grande.sumar("x".to_string(), usize::MAX);
    assert!(!grande.cabe_fusion(&b));
    assert!(grande.cabe_fusion(&contar_palabras("y")));
}
