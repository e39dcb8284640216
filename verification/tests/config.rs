use portafolio::config::{parsear_config, Config, ErrorConfig};

#[test]
fn config_valida() {
    let texto = "\
# configuración del servidor
host = 127.0.0.1
puerto = 8080

reintentos = 3";
    let config = parsear_config(texto).unwrap();
    assert_eq!(
        config,
        Config {
            host: "127.0.0.1".into(),
            puerto: 8080,
            reintentos: 3
        }
    );
}

#[test]
fn detecta_formato_invalido_con_linea() {
    let err = parsear_config("host = ok\nesto no es clave valor").unwrap_err();
    assert_eq!(
        err,
        ErrorConfig::FormatoInvalido {
            linea: 2,
            contenido: "esto no es clave valor".into()
        }
    );
}

#[test]
fn detecta_clave_desconocida() {
    let err = parsear_config("timeout = 30").unwrap_err();
    assert!(matches!(err, ErrorConfig::ClaveDesconocida { linea: 1, .. }));
}

#[test]
fn puerto_no_numerico() {
    let err = parsear_config("puerto = ochenta").unwrap_err();
    assert!(matches!(err, ErrorConfig::ValorInvalido { .. }));
}

#[test]
fn puerto_fuera_de_rango_u16() {
    let err = parsear_config("puerto = 70000").unwrap_err();
    assert!(matches!(err, ErrorConfig::ValorInvalido { .. }));
}

#[test]
fn clave_faltante() {
    let err = parsear_config("host = localhost\npuerto = 80").unwrap_err();
    assert_eq!(err, ErrorConfig::ClaveFaltante("reintentos"));
}

#[test]
fn los_errores_se_muestran_bien() {
    let err = parsear_config("puerto = -5").unwrap_err();
    let msg = err.mensaje();
    assert!(msg.contains("línea 1"));
    assert!(msg.contains("-5"));
}

#[test]
fn mensajes_exactos_de_cada_error() {
    assert_eq!(
        parsear_config("a\nb\nsin igual").unwrap_err().mensaje(),
        "línea 1: 'a' no tiene formato clave = valor"
    );
    assert_eq!(
        parsear_config("\n\ntimeout = 30").unwrap_err().mensaje(),
        "línea 3: clave desconocida 'timeout'"
    );
    assert_eq!(
        parsear_config("reintentos = 300").unwrap_err().mensaje(),
        "línea 1: '300' no es válido para 'reintentos'"
    );
    assert_eq!(
        parsear_config("").unwrap_err().mensaje(),
        "falta la clave obligatoria 'host'"
    );
}

#[test]
fn puerto_cero_es_invalido() {
    let err = parsear_config("host = h\npuerto = 0\nreintentos = 1").unwrap_err();
    assert_eq!(
        err,
        ErrorConfig::ValorInvalido {
            linea: 2,
            clave: "puerto".into(),
            valor: "0".into()
        }
    );
}

#[test]
fn host_vacio_es_invalido() {
    let err = parsear_config("host =   ").unwrap_err();
    assert_eq!(
        err,
        ErrorConfig::ValorInvalido {
            linea: 1,
            clave: "host".into(),
            valor: "".into()
        }
    );
}

#[test]
fn bordes_de_los_enteros() {
    let c = parsear_config("host=x\npuerto=+65535\nreintentos=255").unwrap();
    assert_eq!(c.puerto, 65535);
    assert_eq!(c.reintentos, 255);
    let c = parsear_config("host=x\npuerto=00080\nreintentos=0").unwrap();
    assert_eq!(c.puerto, 80);
    assert_eq!(c.reintentos, 0);
    assert!(matches!(
        parsear_config("host=x\npuerto=65536\nreintentos=1").unwrap_err(),
        ErrorConfig::ValorInvalido { linea: 2, .. }
    ));
    assert!(matches!(
        parsear_config("host=x\npuerto=+\nreintentos=1").unwrap_err(),
        ErrorConfig::ValorInvalido { linea: 2, .. }
    ));
    assert!(matches!(
        parsear_config("host=x\npuerto=8 0\nreintentos=1").unwrap_err(),
        ErrorConfig::ValorInvalido { linea: 2, .. }
    ));
}

#[test]
fn la_ultima_asignacion_gana_y_crlf() {
    let c = parsear_config("host = a\r\nhost = b\r\n  # comentario\r\npuerto=1\r\nreintentos = 2\r\n").unwrap();
    assert_eq!(
        c,
        Config {
            host: "b".into(),
            puerto: 1,
            reintentos: 2
        }
    );
}

#[test]
fn el_primer_error_gana_y_faltantes_en_orden() {
    let err = parsear_config("x = 1\nsin igual").unwrap_err();
    assert!(matches!(err, ErrorConfig::ClaveDesconocida { linea: 1, .. }));
    assert_eq!(
        parsear_config("reintentos = 1").unwrap_err(),
        ErrorConfig::ClaveFaltante("host")
    );
    assert_eq!(
        parsear_config("host = h").unwrap_err(),
        ErrorConfig::ClaveFaltante("puerto")
    );
}

#[test]
fn valor_con_igual_y_espacios_unicode() {
    let c = parsear_config("host = a=b\npuerto\u{3000}= 9\nreintentos = 1").unwrap();
    assert_eq!(c.host, "a=b");
    assert_eq!(c.puerto, 9);
}
