use portafolio::reintentos::{paso_worker, Decision, Evento, Reintentos};

fn esperas(fallos_antes_de_exito: u32, max_intentos: u32, espera_inicial: u64) -> (Vec<u64>, Result<&'static str, String>) {
    let mut r = Reintentos::nuevo(max_intentos, espera_inicial);
    let mut esperas = Vec::new();
    let mut intento = 0u32;
    loop {
        intento += 1;
        let resultado = if intento > fallos_antes_de_exito {
            Ok("éxito")
        } else {
            Err(format!("fallo simulado #{intento}"))
        };
        match r.decidir(resultado) {
            Decision::Terminar(res) => return (esperas, res),
            Decision::Esperar(ms) => esperas.push(ms),
        }
    }
}

#[test]
fn exito_al_primer_intento_no_espera() {
    let (e, res) = esperas(0, 3, 10);
    assert_eq!(res, Ok("éxito"));
    assert!(e.is_empty());
}

#[test]
fn exito_tras_dos_fallos_espera_dos_veces() {
    let (e, res) = esperas(2, 3, 10);
    assert_eq!(res, Ok("éxito"));
    assert_eq!(e, vec![10, 20]);
}

#[test]
fn agota_intentos_y_devuelve_el_ultimo_error() {
    let (e, res) = esperas(100, 3, 10);
    assert_eq!(res, Err("fallo simulado #3".to_string()));
    assert_eq!(e, vec![10, 20]);
}

#[test]
fn el_backoff_es_exponencial() {
    let (e, _) = esperas(100, 5, 20);
    assert_eq!(e, vec![20, 40, 80, 160]);
}

#[test]
fn estado_del_reintento() {
    let mut r = Reintentos::nuevo(2, 7);
    assert_eq!(r.espera_actual(), 7);
    assert!(!r.es_ultimo_intento());
    let _ = r.decidir::<(), ()>(Err(()));
    assert_eq!(r.espera_actual(), 14);
    assert!(r.es_ultimo_intento());
}

#[test]
fn un_solo_intento_no_espera_nunca() {
    let (e, res) = esperas(1, 1, 50);
    assert_eq!(res, Err("fallo simulado #1".to_string()));
    assert!(e.is_empty());
}

#[test]
fn worker_cuenta_trabajos_y_para() {
    assert_eq!(paso_worker(0, Evento::Trabajo), (1, true));
    assert_eq!(paso_worker(15, Evento::Trabajo), (16, true));
    assert_eq!(paso_worker(16, Evento::CanalCerrado), (16, false));
    assert_eq!(paso_worker(3, Evento::Apagado), (3, false));
}
