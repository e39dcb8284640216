use portafolio::instrumentos::{CamaraTermica, FuenteAlimentacion};
use portafolio::registro::{Estadisticas, Registro, Trabajo};

#[test]
fn fuente_cuesta_por_canal() {
    let f = FuenteAlimentacion { modelo: "N6705C".into(), canales: 4 };
    assert_eq!(f.nombre(), "N6705C");
    assert_eq!(f.costo_calibracion(), 480);
    assert_eq!(f.descripcion(), "N6705C (calibración: $480.00/año)");
}

#[test]
fn camara_cuesta_fijo() {
    let c = CamaraTermica { modelo: "FLIR-A70".into() };
    assert_eq!(c.nombre(), "FLIR-A70");
    assert_eq!(c.costo_calibracion(), 450);
    assert_eq!(c.descripcion(), "FLIR-A70 (calibración: $450.00/año)");
}

#[test]
fn fuente_de_255_canales_no_desborda() {
    let f = FuenteAlimentacion { modelo: "X".into(), canales: 255 };
    assert_eq!(f.costo_calibracion(), 30600);
}

#[test]
fn registro_guarda_en_orden() {
    let mut r = Registro::default();
    assert!(r.eventos.is_empty());
    r.registrar(3);
    r.registrar(10);
    assert_eq!(r.eventos, vec!["task 3 reportó".to_string(), "task 10 reportó".to_string()]);
}

#[test]
fn estadisticas_empiezan_en_cero() {
    let e = Estadisticas::default();
    assert_eq!((e.procesadas, e.errores), (0, 0));
}

#[test]
fn trabajo_se_lee_sin_espacios() {
    let t = Trabajo { id: 3, crudo: "  1.5\n".to_string() };
    assert_eq!(t.lectura(), "1.5");
    assert_eq!(t.id, 3);
}
