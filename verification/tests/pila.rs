use portafolio::pila::PilaMin;

#[test]
fn push_pop_lifo() {
    let mut p = PilaMin::new();
    p.push(1);
    p.push(2);
    p.push(3);
    assert_eq!(p.pop(), Some(3));
    assert_eq!(p.pop(), Some(2));
    assert_eq!(p.pop(), Some(1));
    assert_eq!(p.pop(), None);
}

#[test]
fn minimo_se_actualiza_al_apilar() {
    let mut p = PilaMin::new();
    p.push(5);
    assert_eq!(p.minimo(), Some(&5));
    p.push(3);
    assert_eq!(p.minimo(), Some(&3));
    p.push(7);
    assert_eq!(p.minimo(), Some(&3));
}

#[test]
fn minimo_se_restaura_al_desapilar() {
    let mut p = PilaMin::new();
    p.push(5);
    p.push(1);
    p.push(9);
    assert_eq!(p.minimo(), Some(&1));
    p.pop();
    assert_eq!(p.minimo(), Some(&1));
    p.pop();
    assert_eq!(p.minimo(), Some(&5));
}

#[test]
fn vacia() {
    let p: PilaMin<i32> = PilaMin::new();
    assert!(p.is_empty());
    assert_eq!(p.minimo(), None);
    assert_eq!(p.tope(), None);
}

#[test]
fn tope_y_len_siguen_a_push_y_pop() {
    let mut p: PilaMin<u64> = PilaMin::new();
    p.push(4);
    p.push(2);
    assert_eq!(p.tope(), Some(&2));
    assert_eq!(p.len(), 2);
    p.pop();
    assert_eq!(p.tope(), Some(&4));
    assert_eq!(p.len(), 1);
    assert!(!p.is_empty());
}

#[test]
fn valores_repetidos_y_negativos() {
    let mut p: PilaMin<i64> = PilaMin::new();
    p.push(-3);
    p.push(-3);
    p.push(10);
    assert_eq!(p.minimo(), Some(&-3));
    p.pop();
    p.pop();
    assert_eq!(p.minimo(), Some(&-3));
    p.pop();
    assert_eq!(p.minimo(), None);
    assert_eq!(p.pop(), None);
}

#[test]
fn funciona_con_strings() {
    let mut p = PilaMin::new();
    p.push(String::from("pera"));
    p.push(String::from("banana"));
    p.push(String::from("kiwi"));
    assert_eq!(p.minimo().map(|s| s.as_str()), Some("banana"));
}

#[test]
fn strings_en_orden_lexicografico() {
    let mut p: PilaMin<String> = PilaMin::default();
    p.push("b".to_string());
    p.push("ab".to_string());
    p.push("a".to_string());
    assert_eq!(p.minimo().map(|s| s.as_str()), Some("a"));
    p.pop();
    assert_eq!(p.minimo().map(|s| s.as_str()), Some("ab"));
    p.push("ñ".to_string());
    p.push("z".to_string());
    assert_eq!(p.minimo().map(|s| s.as_str()), Some("ab"));
}
