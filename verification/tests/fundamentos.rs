use portafolio::fundamentos::{
    agregar_mundo, aplicar, buscar_canal, dame_saludo, describir_todo, longitud, mas_larga,
    Extracto,
};

#[test]
fn busca_el_primer_canal_con_ese_nombre() {
    let canales = [("vcore", 0u8), ("vddq", 1), ("vcore", 2)];
    assert_eq!(buscar_canal("vcore", &canales), Some(0));
    assert_eq!(buscar_canal("vddq", &canales), Some(1));
    assert_eq!(buscar_canal("temp", &canales), None);
    assert_eq!(buscar_canal("x", &[]), None);
}

#[test]
fn aplicar_llama_a_la_funcion() {
    assert_eq!(aplicar(|x| x * 2, 21), 42);
}

#[test]
fn longitud_en_bytes() {
    assert_eq!(longitud(&"hola".to_string()), 4);
    assert_eq!(longitud(&"ñandú".to_string()), 7);
}

#[test]
fn agrega_mundo() {
    let mut s = String::from("hola");
    agregar_mundo(&mut s);
    assert_eq!(s, "hola, mundo");
}

#[test]
fn saludo_propio() {
    assert_eq!(dame_saludo(), "hola desde el heap");
}

#[test]
fn la_mas_larga_en_bytes() {
    assert_eq!(mas_larga("corto", "largo!"), "largo!");
    assert_eq!(mas_larga("abc", "xyz"), "xyz");
    assert_eq!(mas_larga("ññ", "abc"), "ññ");
}

#[test]
fn primera_palabra_prestada() {
    let texto = String::from("  hola mundo");
    let e = Extracto::primera_palabra(&texto);
    assert_eq!(e.parte, "hola");
    assert_eq!(Extracto::primera_palabra("   ").parte, "");
    assert_eq!(Extracto::primera_palabra("sola").parte, "sola");
}

#[test]
fn describe_todo_separado_por_barras() {
    let items: Vec<String> = [10, 20, 30].iter().map(|i| i.to_string()).collect();
    assert_eq!(describir_todo(&items), "10 | 20 | 30");
    assert_eq!(describir_todo(&["uno".to_string()]), "uno");
    assert_eq!(describir_todo(&[]), "");
}
