use portafolio::blockchain::{Bloque, Cadena};

#[test]
fn genesis_tiene_hash_anterior_de_ceros() {
    let g = Bloque::genesis();
    assert_eq!(g.index, 0);
    assert_eq!(g.hash_anterior, "0".repeat(64));
}

#[test]
fn el_hash_es_deterministico() {
    let b1 = Bloque::nuevo(1, 1000, "hola".to_string(), "abc".to_string());
    let b2 = Bloque::nuevo(1, 1000, "hola".to_string(), "abc".to_string());
    assert_eq!(b1.hash, b2.hash);
}

#[test]
fn cambiar_un_campo_cambia_el_hash() {
    let b1 = Bloque::nuevo(1, 1000, "hola".to_string(), "abc".to_string());
    let b2 = Bloque::nuevo(1, 1000, "chau".to_string(), "abc".to_string());
    assert_ne!(b1.hash, b2.hash);
}

#[test]
fn minar_produce_un_hash_con_ceros_iniciales() {
    let mut bloque = Bloque::nuevo(1, 1000, "datos".to_string(), "0".repeat(64));
    bloque.minar(3);
    assert!(bloque.hash.starts_with("000"));
}

#[test]
fn mayor_dificultad_requiere_mas_intentos() {
    let mut facil = Bloque::nuevo(1, 42, "carga".to_string(), "0".repeat(64));
    facil.minar(2);
    let mut dificil = Bloque::nuevo(1, 42, "carga".to_string(), "0".repeat(64));
    dificil.minar(4);
    assert!(dificil.hash.starts_with("0000"));
    assert!(facil.hash.starts_with("00"));
}

#[test]
fn es_valido_detecta_manipulacion_del_contenido() {
    let mut bloque = Bloque::nuevo(1, 1000, "datos originales".to_string(), "0".repeat(64));
    bloque.minar(2);
    assert!(bloque.es_valido(2));
    bloque.data = "datos manipulados".to_string();
    assert!(!bloque.es_valido(2));
}

#[test]
fn es_valido_rechaza_hash_que_no_cumple_la_dificultad() {
    let bloque = Bloque::nuevo(1, 1000, "sin minar".to_string(), "0".repeat(64));
    assert!(!bloque.es_valido(4));
}

#[test]
fn cadena_nueva_tiene_solo_el_genesis() {
    let cadena = Cadena::nueva(2);
    assert_eq!(cadena.longitud(), 1);
    assert_eq!(cadena.bloques[0].index, 0);
}

#[test]
fn agregar_bloques_encadena_los_hashes() {
    let mut cadena = Cadena::nueva(2);
    cadena.agregar_bloque("primera transacción".to_string(), 1000);
    cadena.agregar_bloque("segunda transacción".to_string(), 2000);
    assert_eq!(cadena.longitud(), 3);
    assert_eq!(cadena.bloques[1].hash_anterior, cadena.bloques[0].hash);
    assert_eq!(cadena.bloques[2].hash_anterior, cadena.bloques[1].hash);
}

#[test]
fn cadena_recien_creada_es_valida() {
    let mut cadena = Cadena::nueva(2);
    cadena.agregar_bloque("a".to_string(), 1);
    cadena.agregar_bloque("b".to_string(), 2);
    cadena.agregar_bloque("c".to_string(), 3);
    assert!(cadena.es_valida());
}

#[test]
fn manipular_un_bloque_intermedio_invalida_toda_la_cadena() {
    let mut cadena = Cadena::nueva(2);
    cadena.agregar_bloque("saldo: 100".to_string(), 1);
    cadena.agregar_bloque("saldo: 50".to_string(), 2);
    cadena.agregar_bloque("saldo: 200".to_string(), 3);
    assert!(cadena.es_valida());
    cadena.bloques[1].data = "saldo: 999999".to_string();
    assert!(!cadena.es_valida());
}

#[test]
fn manipular_y_re_minar_sin_actualizar_el_siguiente_sigue_invalido() {
    let mut cadena = Cadena::nueva(2);
    cadena.agregar_bloque("dato original".to_string(), 1);
    cadena.agregar_bloque("dato siguiente".to_string(), 2);
    cadena.bloques[1].data = "dato alterado".to_string();
    let dificultad = cadena.dificultad;
    cadena.bloques[1].minar(dificultad);
    assert!(!cadena.es_valida());
}

#[test]
fn cadena_de_un_solo_bloque_genesis_es_valida() {
    let cadena = Cadena::nueva(3);
    assert!(cadena.es_valida());
}

#[test]
fn distintas_dificultades_producen_cadenas_validas() {
    for dificultad in [1, 2, 3] {
        let mut cadena = Cadena::nueva(dificultad);
        cadena.agregar_bloque("x".to_string(), 1);
        assert!(cadena.es_valida(), "falló con dificultad {dificultad}");
        assert!(cadena.bloques[1].hash.starts_with(&"0".repeat(dificultad)));
    }
}

#[test]
fn hash_conocido_de_sha256() {
    // SHA-256 of "00bloque génesis" followed by 64 zeros and "0".
    let g = Bloque::genesis();
    assert_eq!(
        g.hash,
        "131dbc2e3366ffc7e75da6926bf4f206816c7cc214a20ae0e0ec7274ac1ef953"
    );
    assert_eq!(g.calcular_hash(), g.hash);
    // SHA-256 of "11000holaabc0".
    let b = Bloque::nuevo(1, 1000, "hola".to_string(), "abc".to_string());
    assert_eq!(
        b.hash,
        "024d2dcf7a6fee3cad1d0a6b698a50c089194ba6b1e4c5e7e7e3b5ddb5bc5926"
    );
    assert_eq!(b.nonce, 0);
}

#[test]
fn minar_un_bloque_ya_valido_no_lo_cambia() {
    let mut b = Bloque::nuevo(3, 7, "z".to_string(), "h".to_string());
    let antes = b.clone();
    b.minar(0);
    assert_eq!(b, antes);
    assert_eq!(b.buscar_nonce(0), Some(0));
}

#[test]
fn minar_elige_el_menor_nonce() {
    let mut b = Bloque::nuevo(1, 5, "datos".to_string(), "x".to_string());
    b.minar(2);
    let k = b.nonce;
    assert!(b.es_valido(2));
    for j in 0..k {
        let mut otro = Bloque::nuevo(1, 5, "datos".to_string(), "x".to_string());
        otro.nonce = j;
        assert!(!otro.calcular_hash().starts_with("00"));
    }
}

#[test]
fn intentar_minar_y_agregar() {
    let mut b = Bloque::nuevo(1, 1, "a".to_string(), "b".to_string());
    assert!(b.intentar_minar(1));
    assert!(b.es_valido(1));
    let mut c = Cadena::nueva(1);
    assert!(c.intentar_agregar_bloque("t".to_string(), 9));
    assert_eq!(c.longitud(), 2);
    assert!(c.es_valida());
    assert_eq!(c.ultimo_bloque().index, 1);
}

#[test]
fn dificultad_mayor_que_el_hash_no_es_minable() {
    let mut b = Bloque::nuevo(1, 1, "a".to_string(), "b".to_string());
    b.nonce = u64::MAX;
    b.hash = b.calcular_hash();
    let antes = b.clone();
    assert_eq!(b.buscar_nonce(65), None);
    assert!(!b.intentar_minar(65));
    assert_eq!(b, antes);
}

#[test]
fn mas_dificultad_nunca_termina_en_un_nonce_menor() {
    let mut facil = Bloque::nuevo(1, 42, "carga".to_string(), "0".repeat(64));
    facil.minar(2);
    let mut dificil = Bloque::nuevo(1, 42, "carga".to_string(), "0".repeat(64));
    dificil.minar(4);
    assert!(facil.nonce <= dificil.nonce);
    assert!(dificil.es_valido(2));
}

#[test]
fn re_minar_un_bloque_manipulado_lo_deja_internamente_valido() {
    let mut cadena = Cadena::nueva(2);
    cadena.agregar_bloque("dato original".to_string(), 1);
    cadena.agregar_bloque("dato siguiente".to_string(), 2);
    cadena.bloques[1].data = "dato alterado".to_string();
    assert!(!cadena.bloques[1].es_valido(2));
    let dificultad = cadena.dificultad;
    cadena.bloques[1].minar(dificultad);
    assert!(cadena.bloques[1].es_valido(2));
    assert_ne!(cadena.bloques[2].hash_anterior, cadena.bloques[1].hash);
    assert!(!cadena.es_valida());
}

#[test]
fn minar_recalcula_un_hash_guardado_que_ya_tenia_ceros() {
    let mut b = Bloque::nuevo(1, 5, "datos".to_string(), "x".to_string());
    b.hash = "000".to_string();
    b.minar(2);
    assert!(b.es_valido(2));
    assert_eq!(b.hash, b.calcular_hash());
    assert_eq!(b.calcular_hash().len(), 64);
}

#[test]
fn minar_un_bloque_invalido_empieza_por_el_nonce_siguiente() {
    for dificultad in [1usize, 2] {
        let mut b = Bloque::nuevo(4, 9, "a".to_string(), "b".to_string());
        b.nonce = 7;
        b.hash = "f".repeat(64);
        b.minar(dificultad);
        assert!(b.nonce > 7);
        assert!(b.es_valido(dificultad));
        for j in 8..b.nonce {
            let mut otro = b.clone();
            otro.nonce = j;
            assert!(!otro.calcular_hash().starts_with(&"0".repeat(dificultad)));
        }
    }
}
