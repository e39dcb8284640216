use portafolio::fundamentos::unir;
use portafolio::lecciones::{Fibonacci, Lista};

#[test]
fn fibonacci_desde_el_principio() {
    let mut f = Fibonacci::new();
    let primeros: Vec<u64> = (0..10).map(|_| f.next().unwrap()).collect();
    assert_eq!(primeros, vec![0, 1, 1, 2, 3, 5, 8, 13, 21, 34]);
}

#[test]
fn primeros_seis_fibonacci_pares() {
    let mut f = Fibonacci::new();
    let mut pares = Vec::new();
    while pares.len() < 6 {
        let n = f.next().unwrap();
        if n % 2 == 0 {
            pares.push(n);
        }
    }
    assert_eq!(pares, vec![0, 2, 8, 34, 144, 610]);
}

#[test]
fn fibonacci_llega_al_mayor_que_cabe() {
    let mut f = Fibonacci::new();
    let mut ultimo = 0;
    for _ in 0..92 {
        ultimo = f.next().unwrap();
    }
    assert_eq!(ultimo, 4660046610375530309);
}

#[test]
fn lista_en_orden() {
    let lista = Lista::Nodo(1, Box::new(Lista::Nodo(2, Box::new(Lista::Nodo(3, Box::new(Lista::Fin))))));
    assert_eq!(lista.valores(), vec![1, 2, 3]);
    assert!(Lista::Fin.valores().is_empty());
}

#[test]
fn unir_con_separador() {
    let lineas = vec!["a".to_string(), "b".to_string()];
    assert_eq!(unir(&lineas, "\n"), "a\nb");
    assert_eq!(unir(&[], "\n"), "");
}

#[test]
fn fibonacci_sabe_cuando_no_puede_avanzar() {
    let mut f = Fibonacci::new();
    for _ in 0..92 {
        assert!(f.puede_avanzar());
        f.next();
    }
    assert!(!f.puede_avanzar());
}
