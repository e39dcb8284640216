use portafolio::frecuencias::{contar_palabras, frecuencias, Frecuencias};

#[test]
fn cuenta_basica() {
    let f = frecuencias("hola mundo hola");
    assert_eq!(f.get("hola"), Some(&2));
    assert_eq!(f.get("mundo"), Some(&1));
}

#[test]
fn insensible_a_mayusculas() {
    let f = frecuencias("Rust rust RUST");
    assert_eq!(f.get("rust"), Some(&3));
    assert_eq!(f.len(), 1);
}

#[test]
fn ignora_puntuacion() {
    let f = frecuencias("¡vamos! rust, rust. rust; ¿rust?");
    assert_eq!(f.get("rust"), Some(&4));
    assert_eq!(f.get("vamos"), Some(&1));
}

#[test]
fn ej01_frecuencias_texto_vacio() {
    assert!(frecuencias("").is_empty());
    assert!(frecuencias("   \n\t  ").is_empty());
}

#[test]
fn puntuacion_sola_no_cuenta() {
    let f = frecuencias("hola ... !!! mundo");
    assert_eq!(f.len(), 2);
    assert_eq!(f.get("hola"), Some(&1));
    assert_eq!(f.get("mundo"), Some(&1));
}

#[test]
fn puntuacion_interna_se_conserva() {
    let f = frecuencias("a.b a.b.");
    assert_eq!(f.get("a.b"), Some(&2));
    assert_eq!(f.len(), 1);
}

#[test]
fn espacios_unicode_separan_palabras() {
    let f = frecuencias("uno\u{00A0}dos\u{3000}uno");
    assert_eq!(f.get("uno"), Some(&2));
    assert_eq!(f.get("dos"), Some(&1));
}

#[test]
fn contar_palabras_no_quita_puntuacion() {
    let f = contar_palabras("El zorro, el ZORRO");
    assert_eq!(f.get("el"), Some(&2));
    assert_eq!(f.get("zorro,"), Some(&1));
    assert_eq!(f.get("zorro"), Some(&1));
    assert_eq!(f.len(), 3);
}

#[test]
fn contar_palabras_texto_vacio() {
    assert!(contar_palabras("").is_empty());
    assert_eq!(contar_palabras("a\nb\n").len(), 2);
}

#[test]
fn fusionar_suma_los_parciales() {
    // The law behind counting in pieces: counting two halves and merging
    // gives the count of the whole.
    let texto = "el rápido zorro marrón salta\nsobre el perro perezoso\nel zorro es rápido\ny el perro no";
    let esperado = contar_palabras(texto);
    let mut total = contar_palabras("el rápido zorro marrón salta\nsobre el perro perezoso");
    let parcial = contar_palabras("el zorro es rápido\ny el perro no");
    total.fusionar(&parcial);
    assert_eq!(total.len(), esperado.len());
    for palabra in ["el", "rápido", "zorro", "marrón", "salta", "sobre", "perro", "perezoso", "es", "y", "no"] {
        assert_eq!(total.get(palabra), esperado.get(palabra));
    }
    assert_eq!(total.get("el"), Some(&4));
    assert_eq!(total.get("zorro"), Some(&2));
}

#[test]
fn fusionar_con_vacio_no_cambia() {
    let mut f = frecuencias("a b a");
    f.fusionar(&Frecuencias::new());
    assert_eq!(f.get("a"), Some(&2));
    assert_eq!(f.get("b"), Some(&1));
    assert_eq!(f.len(), 2);
}

#[test]
fn sumar_agrega_o_incrementa() {
    let mut f = Frecuencias::new();
    f.sumar("x".to_string(), 3);
    f.sumar("x".to_string(), 2);
    f.sumar("y".to_string(), 1);
    assert_eq!(f.get("x"), Some(&5));
    assert_eq!(f.get("y"), Some(&1));
    assert_eq!(f.get("z"), None);
}
