use portafolio::textkit::{
    buscar_en_archivos, buscar_en_contenido, comprobar_patron, informe_busqueda, informe_reemplazo,
    reemplazar_en_archivos, contar_archivos_distintos, es_binario_probable,
    reemplazar_en_contenido, reemplazar_texto, resumen_busqueda, resumen_reemplazo,
    total_ocurrencias, Cambio, Coincidencia,
};

#[test]
fn cuenta_archivos_distintos_correctamente() {
    let coincidencias = vec![
        Coincidencia {
            archivo: "a.txt".into(),
            linea: 1,
            contenido: "x".into(),
        },
        Coincidencia {
            archivo: "a.txt".into(),
            linea: 2,
            contenido: "x".into(),
        },
        Coincidencia {
            archivo: "b.txt".into(),
            linea: 1,
            contenido: "x".into(),
        },
    ];
    assert_eq!(contar_archivos_distintos(&coincidencias), 2);
}

#[test]
fn total_ocurrencias_suma_todos_los_archivos() {
    let cambios = vec![
        Cambio {
            archivo: "a".into(),
            ocurrencias: 3,
        },
        Cambio {
            archivo: "b".into(),
            ocurrencias: 5,
        },
    ];
    assert_eq!(total_ocurrencias(&cambios), 8);
}

#[test]
fn encuentra_coincidencias_en_un_contenido() {
    let resultados = buscar_en_contenido("a.txt", "hola mundo\nRust es genial\notra linea", "rust", false);
    assert_eq!(resultados.len(), 1);
    assert_eq!(resultados[0].archivo, "a.txt");
    assert_eq!(resultados[0].linea, 2);
    assert_eq!(resultados[0].contenido, "Rust es genial");
}

#[test]
fn contenido_respeta_sensibilidad_a_mayusculas() {
    assert_eq!(buscar_en_contenido("a.txt", "Rust\nrust\nRUST", "rust", false).len(), 3);
    assert_eq!(buscar_en_contenido("a.txt", "Rust\nrust\nRUST", "rust", true).len(), 1);
}

#[test]
fn contenido_sin_coincidencias_devuelve_vacio() {
    assert!(buscar_en_contenido("a.txt", "nada que ver", "inexistente", false).is_empty());
}

#[test]
fn patron_en_mayusculas_sin_sensibilidad() {
    let r = buscar_en_contenido("n.txt", "primera linea\nRust es genial\nultima", "RUST", false);
    assert_eq!(r.len(), 1);
    assert_eq!(r[0].linea, 2);
}

#[test]
fn lineas_con_crlf_se_reportan_sin_el_retorno() {
    let r = buscar_en_contenido("w.txt", "uno\r\ndos manzana\r\ntres", "manzana", true);
    assert_eq!(r.len(), 1);
    assert_eq!(r[0].linea, 2);
    assert_eq!(r[0].contenido, "dos manzana");
}

#[test]
fn extensiones_binarias() {
    assert!(es_binario_probable(Some("png")));
    assert!(es_binario_probable(Some("rlib")));
    assert!(es_binario_probable(Some("o")));
    assert!(!es_binario_probable(Some("PNG")));
    assert!(!es_binario_probable(Some("txt")));
    assert!(!es_binario_probable(Some("")));
    assert!(!es_binario_probable(None));
}

#[test]
fn reemplaza_todas_las_ocurrencias() {
    let (cuenta, nuevo) = reemplazar_texto("hola mundo, mundo cruel", "mundo", "planeta");
    assert_eq!(cuenta, 2);
    assert_eq!(nuevo, "hola planeta, planeta cruel");
}

#[test]
fn reemplazo_sin_solapamientos() {
    let (cuenta, nuevo) = reemplazar_texto("aaaa", "aa", "b");
    assert_eq!(cuenta, 2);
    assert_eq!(nuevo, "bb");
    let (cuenta, nuevo) = reemplazar_texto("aaa", "aa", "b");
    assert_eq!(cuenta, 1);
    assert_eq!(nuevo, "ba");
}

#[test]
fn reemplazar_en_contenido_reporta_el_cambio() {
    let (cambio, nuevo) = reemplazar_en_contenido("a.txt", "el gato duerme", "gato", "perro");
    assert_eq!(
        cambio,
        Some(Cambio {
            archivo: "a.txt".into(),
            ocurrencias: 1
        })
    );
    assert_eq!(nuevo, "el perro duerme");
}

#[test]
fn archivo_sin_coincidencias_no_se_reporta() {
    let (cambio, nuevo) = reemplazar_en_contenido("a.txt", "nada relevante", "manzana", "pera");
    assert_eq!(cambio, None);
    assert_eq!(nuevo, "nada relevante");
}

#[test]
fn patron_vacio_es_error() {
    assert!(comprobar_patron("").is_err());
    assert_eq!(
        comprobar_patron("").unwrap_err(),
        "el patrón de búsqueda no puede ser vacío"
    );
    assert!(comprobar_patron("x").is_ok());
}

#[test]
fn total_sin_cambios_es_cero() {
    assert_eq!(total_ocurrencias(&[]), 0);
}

#[test]
fn reportes_de_busqueda() {
    let c = Coincidencia {
        archivo: "nota.txt".into(),
        linea: 2,
        contenido: "Rust es genial".into(),
    };
    assert_eq!(c.reporte(), "nota.txt:2:Rust es genial");
    assert_eq!(resumen_busqueda(1, 1), "1 coincidencia(s) en 1 archivo(s)");
    assert_eq!(resumen_busqueda(0, 0), "0 coincidencia(s) en 0 archivo(s)");
}

#[test]
fn reportes_de_reemplazo() {
    let c = Cambio {
        archivo: "config.txt".into(),
        ocurrencias: 1,
    };
    assert_eq!(c.reporte(), "config.txt: 1 ocurrencia(s)");
    assert_eq!(
        resumen_reemplazo(1, 1, false),
        "se reemplazaron 1 ocurrencia(s) en 1 archivo(s)"
    );
    assert_eq!(
        resumen_reemplazo(12, 3, true),
        "(dry-run) se reemplazarían 12 ocurrencia(s) en 3 archivo(s)"
    );
}

fn archivos(v: &[(&str, &str)]) -> Vec<(String, String)> {
    v.iter().map(|(a, b)| (a.to_string(), b.to_string())).collect()
}

#[test]
fn arbol_reemplaza_y_reporta() {
    let (cambios, escrituras) = reemplazar_en_archivos(
        &archivos(&[("a.txt", "hola mundo, mundo cruel")]),
        "mundo",
        "planeta",
    )
    .unwrap();
    assert_eq!(
        cambios,
        vec![Cambio {
            archivo: "a.txt".into(),
            ocurrencias: 2
        }]
    );
    assert_eq!(escrituras, archivos(&[("a.txt", "hola planeta, planeta cruel")]));
}

#[test]
fn arbol_sin_coincidencias_no_se_reporta_ni_se_escribe() {
    let (cambios, escrituras) = reemplazar_en_archivos(
        &archivos(&[("a.txt", "nada relevante"), ("b.txt", "esto tiene manzana")]),
        "manzana",
        "pera",
    )
    .unwrap();
    assert_eq!(cambios.len(), 1);
    assert!(cambios[0].archivo.ends_with("b.txt"));
    assert_eq!(escrituras, archivos(&[("b.txt", "esto tiene pera")]));
}

#[test]
fn arbol_con_patron_vacio_es_error() {
    assert_eq!(
        reemplazar_en_archivos(&archivos(&[("a.txt", "algo")]), "", "x").unwrap_err(),
        "el patrón de búsqueda no puede ser vacío"
    );
}

#[test]
fn informe_de_busqueda_completo() {
    let cs = vec![Coincidencia {
        archivo: "nota.txt".into(),
        linea: 2,
        contenido: "Rust es genial".into(),
    }];
    let (salida, resumen) = informe_busqueda(&cs);
    assert_eq!(salida, "nota.txt:2:Rust es genial\n");
    assert_eq!(resumen, "1 coincidencia(s) en 1 archivo(s)\n");
    let (salida, resumen) = informe_busqueda(&[]);
    assert_eq!(salida, "");
    assert_eq!(resumen, "0 coincidencia(s) en 0 archivo(s)\n");
}

#[test]
fn informe_de_reemplazo_completo() {
    let cs = vec![Cambio {
        archivo: "config.txt".into(),
        ocurrencias: 1,
    }];
    let (salida, resumen) = informe_reemplazo(&cs, false);
    assert_eq!(salida, "config.txt: 1 ocurrencia(s)\n");
    assert_eq!(resumen, "se reemplazaron 1 ocurrencia(s) en 1 archivo(s)\n");
    let (_, resumen) = informe_reemplazo(&cs, true);
    assert_eq!(resumen, "(dry-run) se reemplazarían 1 ocurrencia(s) en 1 archivo(s)\n");
}

#[test]
fn arbol_junta_las_coincidencias_de_cada_archivo() {
    let r = buscar_en_archivos(
        &archivos(&[("raiz.txt", "manzana"), ("sub/hoja.txt", "manzana verde\nnada")]),
        "manzana",
        false,
    );
    assert_eq!(r.len(), 2);
    assert_eq!(r[0].archivo, "raiz.txt");
    assert_eq!(r[1].archivo, "sub/hoja.txt");
    assert_eq!(r[1].linea, 1);
    assert!(buscar_en_archivos(&archivos(&[("a.txt", "nada que ver")]), "inexistente", false).is_empty());
}
