use vasak_contacts::vcard::contacto::MAX_VALOR;
use vasak_contacts::vcard::{
    a_texto, campos_de, contacto_de, etiqueta_de, partir, tarjetas_de, texto_de, unir_lineas,
};

const ANA: &str = "BEGIN:VCARD\r\nVERSION:3.0\r\nUID:abc-123\r\n\
    FN:Ana Pérez\r\nN:Pérez;Ana;;;\r\n\
    EMAIL;TYPE=WORK:ana@ejemplo.com\r\n\
    TEL;TYPE=CELL:+54 11 5555-5555\r\n\
    ORG:Vasak Group;Soporte\r\nEND:VCARD\r\n";

#[test]
fn se_lee_una_tarjeta() {
    let c = contacto_de(ANA, "https://x/ana.vcf").unwrap();

    assert_eq!(c.uid, "abc-123");
    assert_eq!(c.nombre, "Ana Pérez");
    assert_eq!(c.correos[0].valor, "ana@ejemplo.com");
    assert_eq!(c.correos[0].tipo, "work");
    assert_eq!(c.telefonos[0].valor, "+54 11 5555-5555");
    assert_eq!(c.url, "https://x/ana.vcf");
}

#[test]
fn las_lineas_partidas_se_vuelven_a_juntar() {
    let crudo = "FN:Ana\r\n  Pérez\r\nUID:1\r\n";
    let lineas = unir_lineas(crudo);
    assert_eq!(lineas[0], "FN:Ana Pérez");
    assert_eq!(lineas[1], "UID:1");
}

#[test]
fn el_caracter_que_pliega_no_deja_espacio() {
    assert_eq!(unir_lineas("FN:Ana\r\n\tPérez")[0], "FN:AnaPérez");
}

#[test]
fn una_continuacion_de_quoted_printable_se_junta() {
    let vieja = "BEGIN:VCARD\r\nVERSION:2.1\r\n\
        FN;ENCODING=QUOTED-PRINTABLE:Ana Mar=C3=ADa P=C3=A9r=\r\nez\r\nEND:VCARD";

    let c = contacto_de(vieja, "").unwrap();
    assert_eq!(c.nombre, "Ana María Pérez");
    assert!(!c.nombre.contains('='), "quedó el signo de igual: {}", c.nombre);
}

#[test]
fn varias_continuaciones_seguidas_tambien() {
    let vieja = "NOTE;ENCODING=QUOTED-PRINTABLE:uno=\r\ndos=\r\ntres\r\nFN:Ana";
    let lineas = unir_lineas(vieja);

    assert_eq!(lineas[0], "NOTE;ENCODING=QUOTED-PRINTABLE:unodostres");
    assert_eq!(lineas[1], "FN:Ana");
}

#[test]
fn un_base64_que_termina_en_igual_no_se_come_lo_que_sigue() {
    let con_foto = "PHOTO;ENCODING=b:iVBORw0KGgo=\r\nFN:Ana\r\n";
    let lineas = unir_lineas(con_foto);

    assert_eq!(lineas[0], "PHOTO;ENCODING=b:iVBORw0KGgo=");
    assert_eq!(lineas[1], "FN:Ana");
}

#[test]
fn la_linea_se_corta_por_el_primer_dos_puntos() {
    let p = partir("URL:https://ejemplo.com/ana").unwrap();
    assert_eq!(p.nombre, "URL");
    assert_eq!(p.valor, "https://ejemplo.com/ana");
}

#[test]
fn el_grupo_de_apple_no_esconde_la_propiedad() {
    let p = partir("item1.EMAIL;TYPE=HOME:ana@x.com").unwrap();
    assert_eq!(p.nombre, "EMAIL");

    let c = contacto_de(
        "BEGIN:VCARD\r\nFN:Ana\r\nitem1.EMAIL;TYPE=HOME:ana@x.com\r\nEND:VCARD",
        "",
    )
    .unwrap();
    assert_eq!(c.correos.len(), 1);
}

#[test]
fn el_texto_se_desescapa() {
    assert_eq!(texto_de(r"Pérez\, Ana"), "Pérez, Ana");
    assert_eq!(texto_de(r"uno\ndos"), "uno\ndos");
    assert_eq!(texto_de(r"punto\; y coma"), "punto; y coma");
}

#[test]
fn un_punto_y_coma_escapado_no_parte_el_campo() {
    assert_eq!(campos_de(r"Pérez\;Gómez;Ana"), vec!["Pérez;Gómez", "Ana"]);
    assert_eq!(campos_de("Pérez;Ana;;;"), vec!["Pérez", "Ana", "", "", ""]);
}

#[test]
fn se_lee_la_etiqueta_de_las_tres_versiones() {
    assert_eq!(etiqueta_de(&["TYPE=WORK".into()]), "work");
    assert_eq!(etiqueta_de(&["HOME".into()]), "home");
    assert_eq!(etiqueta_de(&["TYPE=\"HOME\"".into()]), "home");
    assert_eq!(etiqueta_de(&["TYPE=VOICE,HOME".into()]), "home");
}

#[test]
fn lo_que_no_es_una_etiqueta_no_se_muestra_como_tal() {
    assert_eq!(etiqueta_de(&["INTERNET".into()]), "");
    assert_eq!(etiqueta_de(&["PREF".into()]), "");
    assert_eq!(etiqueta_de(&["ENCODING=QUOTED-PRINTABLE".into()]), "");
    assert_eq!(etiqueta_de(&["CHARSET=UTF-8".into()]), "");
    assert_eq!(etiqueta_de(&[]), "");
    assert_eq!(etiqueta_de(&["INTERNET".into(), "HOME".into()]), "home");
}

#[test]
fn una_tarjeta_vieja_con_acentos_se_lee() {
    let vieja = "BEGIN:VCARD\r\nVERSION:2.1\r\n\
        FN;CHARSET=UTF-8;ENCODING=QUOTED-PRINTABLE:Ana P=C3=A9rez\r\n\
        TEL;HOME:11-5555\r\nEND:VCARD";

    let c = contacto_de(vieja, "").unwrap();
    assert_eq!(c.nombre, "Ana Pérez");
    assert_eq!(c.telefonos[0].tipo, "home");
}

#[test]
fn el_nombre_estructurado_se_decodifica_antes_de_partirse() {
    let vieja = "BEGIN:VCARD\r\nVERSION:2.1\r\n\
        N;ENCODING=QUOTED-PRINTABLE:P=E9rez;Ana;;;\r\nEND:VCARD";

    let c = contacto_de(vieja, "").unwrap();
    assert_eq!(c.nombre, "Ana Pérez");
    assert_eq!(c.orden, "Pérez, Ana");
}

#[test]
fn la_organizacion_tambien_se_decodifica_antes() {
    let vieja = "BEGIN:VCARD\r\nFN:Ana\r\n\
        ORG;ENCODING=QUOTED-PRINTABLE:Panader=EDa;Mostrador\r\nEND:VCARD";
    assert_eq!(contacto_de(vieja, "").unwrap().organizacion, "Panadería, Mostrador");
}

#[test]
fn el_charset_declarado_se_respeta() {
    let bytes = b"dijo \x93hola\x94";
    assert_eq!(a_texto(bytes, Some("windows-1252")), "dijo “hola”");

    assert_eq!(a_texto(b"caf\xe9", Some("juego-inventado")), "café");
}

#[test]
fn el_esquema_se_saca_sin_mirar_mayusculas() {
    let nueva = "BEGIN:VCARD\r\nVERSION:4.0\r\nFN:Ana\r\n\
        EMAIL:MailTo:ana@ejemplo.com\r\nTEL:TEL:+541155555555\r\nEND:VCARD";

    let c = contacto_de(nueva, "").unwrap();
    assert_eq!(c.correos[0].valor, "ana@ejemplo.com");
    assert_eq!(c.telefonos[0].valor, "+541155555555");
}

#[test]
fn una_tarjeta_vieja_en_latin1_tambien() {
    let vieja = "BEGIN:VCARD\r\nVERSION:2.1\r\n\
        FN;ENCODING=QUOTED-PRINTABLE:Ana P=E9rez\r\nEND:VCARD";
    assert_eq!(contacto_de(vieja, "").unwrap().nombre, "Ana Pérez");
}

#[test]
fn el_mailto_de_la_version_4_no_queda_pegado() {
    let nueva = "BEGIN:VCARD\r\nVERSION:4.0\r\nFN:Ana\r\n\
        EMAIL:mailto:ana@ejemplo.com\r\nTEL:tel:+541155555555\r\nEND:VCARD";

    let c = contacto_de(nueva, "").unwrap();
    assert_eq!(c.correos[0].valor, "ana@ejemplo.com");
    assert_eq!(c.telefonos[0].valor, "+541155555555");
}

#[test]
fn sin_fn_el_nombre_se_arma_con_el_n() {
    let sin_fn = "BEGIN:VCARD\r\nN:Pérez;Ana;María;Sra.;\r\nEND:VCARD";
    assert_eq!(contacto_de(sin_fn, "").unwrap().nombre, "Sra. Ana María Pérez");
}

#[test]
fn se_ordena_por_apellido() {
    assert_eq!(contacto_de(ANA, "").unwrap().orden, "Pérez, Ana");

    let solo_fn = "BEGIN:VCARD\r\nFN:Panadería del barrio\r\nEND:VCARD";
    assert_eq!(contacto_de(solo_fn, "").unwrap().orden, "Panadería del barrio");
}

#[test]
fn la_organizacion_incluye_la_division() {
    assert_eq!(contacto_de(ANA, "").unwrap().organizacion, "Vasak Group, Soporte");
}

#[test]
fn una_tarjeta_vacia_no_es_un_contacto() {
    assert!(contacto_de("BEGIN:VCARD\r\nVERSION:3.0\r\nEND:VCARD", "").is_none());
    assert!(contacto_de("", "").is_none());
    assert!(contacto_de("no es una tarjeta", "").is_none());
}

#[test]
fn lo_que_esta_roto_no_hace_caer_nada() {
    for basura in [":::", "FN:", ";;;", "BEGIN:VCARD", "\r\n\r\n", "\\", "N:;;;;;;;;;;"] {
        let _ = contacto_de(basura, "");
        let _ = tarjetas_de(basura);
    }
}

#[test]
fn una_tarjeta_desmedida_no_cuelga() {
    let enorme = "BEGIN:VCARD\r\nFN:Ana\r\n".to_string()
        + &"X-BASURA:algo\r\n".repeat(50_000)
        + "END:VCARD";
    let c = contacto_de(&enorme, "").unwrap();
    assert_eq!(c.nombre, "Ana");
}

#[test]
fn un_valor_desmedido_se_recorta_sin_partir_un_caracter() {
    let largo = format!("BEGIN:VCARD\r\nFN:{}\r\nEND:VCARD", "ñ".repeat(MAX_VALOR));
    let c = contacto_de(&largo, "").unwrap();

    assert!(c.nombre.len() <= MAX_VALOR + 4);
    assert!(c.nombre.ends_with('…'));
    assert!(!c.nombre.contains('\u{FFFD}'));
}

#[test]
fn se_separan_las_tarjetas_de_un_archivo() {
    let dos = format!("{ANA}BEGIN:VCARD\r\nFN:Juan\r\nEND:VCARD\r\n");
    let tarjetas = tarjetas_de(&dos);

    assert_eq!(tarjetas.len(), 2);
    assert_eq!(contacto_de(&tarjetas[0], "").unwrap().nombre, "Ana Pérez");
    assert_eq!(contacto_de(&tarjetas[1], "").unwrap().nombre, "Juan");
}

#[test]
fn una_tarjeta_sin_cierre_se_aprovecha_igual() {
    let sin_cierre = "BEGIN:VCARD\r\nFN:Ana\r\n";
    let tarjetas = tarjetas_de(sin_cierre);
    assert_eq!(tarjetas.len(), 1);
    assert_eq!(contacto_de(&tarjetas[0], "").unwrap().nombre, "Ana");
}
