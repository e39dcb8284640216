use portafolio::tareas::{
    cambios_para_actualizar, entero, resultado_eliminar, tarea_o_404, titulo_para_crear,
    ActualizarTarea, ErrorApi, NuevaTarea, Tarea,
};

fn tarea(titulo: &str) -> Tarea {
    Tarea {
        id: 7,
        titulo: titulo.to_string(),
        completada: false,
        creada_en: "2024-01-01 00:00:00".to_string(),
    }
}

#[test]
fn crear_recorta_el_titulo() {
    let r = titulo_para_crear(&NuevaTarea { titulo: "  comprar café ".into() });
    assert_eq!(r, Ok("comprar café".to_string()));
}

#[test]
fn crear_con_titulo_vacio_es_400() {
    let r = titulo_para_crear(&NuevaTarea { titulo: "   ".into() });
    let e = r.unwrap_err();
    assert_eq!(e, ErrorApi::SolicitudInvalida("el título no puede estar vacío".into()));
    assert_eq!(e.respuesta().0, 400);
    assert_eq!(e.mensaje(), "solicitud inválida: el título no puede estar vacío");
}

#[test]
fn actualizar_cambia_solo_lo_enviado() {
    let actual = tarea("lavar el auto");
    let r = cambios_para_actualizar(
        &actual,
        ActualizarTarea { titulo: None, completada: Some(true) },
    );
    assert_eq!(r, Ok(("lavar el auto".to_string(), true)));
    let r = cambios_para_actualizar(
        &actual,
        ActualizarTarea { titulo: Some("lavar el auto (de nuevo)".into()), completada: None },
    );
    assert_eq!(r, Ok(("lavar el auto (de nuevo)".to_string(), false)));
}

#[test]
fn actualizar_con_titulo_en_blanco_es_400() {
    let actual = tarea("x");
    let r = cambios_para_actualizar(
        &actual,
        ActualizarTarea { titulo: Some(" \t ".into()), completada: Some(true) },
    );
    assert_eq!(r, Err(ErrorApi::SolicitudInvalida("el título no puede estar vacío".into())));
}

#[test]
fn obtener_tarea_inexistente_es_404() {
    let e = tarea_o_404(999, None).unwrap_err();
    assert_eq!(e, ErrorApi::NoEncontrada(999));
    assert_eq!(e.respuesta(), (404, "tarea 999 no encontrada".to_string()));
    assert_eq!(tarea_o_404(7, Some(tarea("a"))), Ok(tarea("a")));
}

#[test]
fn eliminar_inexistente_es_404() {
    assert_eq!(resultado_eliminar(54321, 0), Err(ErrorApi::NoEncontrada(54321)));
    assert_eq!(resultado_eliminar(1, 1), Ok(204));
}

#[test]
fn error_de_base_de_datos_no_filtra_detalles() {
    let e = ErrorApi::BaseDeDatos;
    assert_eq!(e.mensaje(), "error de base de datos");
    assert_eq!(e.respuesta(), (500, "error interno".to_string()));
}

#[test]
fn enteros_en_decimal() {
    assert_eq!(entero(0).iter().collect::<String>(), "0");
    assert_eq!(entero(-42).iter().collect::<String>(), "-42");
    assert_eq!(entero(i64::MIN).iter().collect::<String>(), "-9223372036854775808");
    assert_eq!(ErrorApi::NoEncontrada(-3).mensaje(), "tarea -3 no encontrada");
}
