use vasak_contacts::carddav::{
    cabecera_basica, contactos_de_respuesta, estado_de, libretas_de, mensaje_no_autorizado,
    Cuerpo, Estado, Libreta, MAX_CUERPO,
};
use vasak_contacts::comandos::LecturaDeCuenta;
use vasak_contacts::vcard::contacto::MAX_VALOR;
use vasak_contacts::vcard::lineas::quedo_a_medias;
use vasak_contacts::vcard::{
    a_texto, campos_de, contacto_de, decodificado, etiqueta_de, imprimible_de, partir,
    tarjetas_de, texto_de, unir_lineas, valor_legible, Contacto,
};

#[test]
fn la_cabecera_basica_lleva_el_base64_de_la_credencial() {
    assert_eq!(cabecera_basica("ana", "secreto"), "Basic YW5hOnNlY3JldG8=");
    assert_eq!(cabecera_basica("", ""), "Basic Og==");
}

#[test]
fn quoted_printable_deshace_los_escapes_validos_y_deja_los_otros() {
    assert_eq!(imprimible_de("P=E9rez"), b"P\xe9rez".to_vec());
    assert_eq!(imprimible_de("a=ZZ"), b"a=ZZ".to_vec());
    assert_eq!(imprimible_de("fin="), b"fin=".to_vec());
    assert_eq!(imprimible_de("=3d=3D"), b"==".to_vec());
    assert_eq!(imprimible_de("sin iguales"), b"sin iguales".to_vec());
}

#[test]
fn una_barra_que_no_escapa_nada_se_queda() {
    assert_eq!(texto_de("fin\\"), "fin\\");
    assert_eq!(texto_de("\\x"), "\\x");
    assert_eq!(texto_de("uno\\Ndos\\\\"), "uno\ndos\\");
    assert_eq!(texto_de("nada que hacer"), "nada que hacer");
}

#[test]
fn los_campos_respetan_la_barra_final() {
    assert_eq!(campos_de("a\\"), vec!["a\\"]);
    assert_eq!(campos_de(""), vec![""]);
    assert_eq!(campos_de("solo"), vec!["solo"]);
    assert_eq!(campos_de("a\\,b;c"), vec!["a,b", "c"]);
}

#[test]
fn sin_juego_declarado_el_utf8_valido_queda_como_esta() {
    assert_eq!(a_texto("Pérez".as_bytes(), None), "Pérez");
    assert_eq!(a_texto(b"\xef\xbb\xbfhola", None), "hola");
    assert_eq!(a_texto(b"caf\xe9", None), "café");
}

#[test]
fn windows_1252_declarado_sobre_utf8_valido_se_lee_como_utf8() {
    assert_eq!(a_texto("é".as_bytes(), Some(" windows-1252 ")), "é");
    assert_eq!(a_texto(b"\xe9", Some("latin1")), "é");
}

#[test]
fn el_estado_decide_que_hacer_con_la_respuesta() {
    assert_eq!(estado_de(401), Estado::NoAutorizado);
    assert_eq!(estado_de(200), Estado::Exito);
    assert_eq!(estado_de(207), Estado::Exito);
    assert_eq!(estado_de(299), Estado::Exito);
    assert_eq!(estado_de(199), Estado::Fallo);
    assert_eq!(estado_de(300), Estado::Fallo);
    assert_eq!(estado_de(500), Estado::Fallo);
    assert!(mensaje_no_autorizado().starts_with("el servidor rechazó"));
}

#[test]
fn el_cuerpo_corta_al_pasar_el_tope() {
    let mut cuerpo = Cuerpo::nuevo();
    assert!(cuerpo.recibir(b"hola ").is_ok());
    assert!(cuerpo.recibir("año".as_bytes()).is_ok());
    assert_eq!(cuerpo.texto(), "hola año");

    let grande = vec![b'x'; MAX_CUERPO];
    let error = cuerpo.recibir(&grande).unwrap_err();
    assert_eq!(
        error,
        "el servidor mandó más de 16777216 bytes, que es lo que se lee de una vez"
    );
    // Lo leído quedó como estaba.
    assert_eq!(cuerpo.texto(), "hola año");
}

#[test]
fn el_cuerpo_en_el_tope_justo_entra() {
    let mut cuerpo = Cuerpo::nuevo();
    assert!(cuerpo.recibir(&vec![b'a'; MAX_CUERPO]).is_ok());
    assert!(cuerpo.recibir(b"").is_ok());
    assert!(cuerpo.recibir(b"b").is_err());
}

#[test]
fn un_cuerpo_que_no_es_utf8_sale_con_reemplazo() {
    let mut cuerpo = Cuerpo::nuevo();
    assert!(cuerpo.recibir(b"a\xffb").is_ok());
    assert_eq!(cuerpo.texto(), "a\u{FFFD}b");
}

#[test]
fn la_lectura_junta_contactos_y_anota_fallos() {
    let personal = Libreta { url: "https://x/p/".into(), nombre: "Personal".into() };
    let trabajo = Libreta { url: "https://x/t/".into(), nombre: "Trabajo".into() };
    let mut lectura = LecturaDeCuenta::nueva(vec![personal.clone(), trabajo.clone()]);
    let ana = Contacto { nombre: "Ana".into(), ..Default::default() };
    lectura.registrar(&personal, Ok(vec![ana.clone()]));
    lectura.registrar(&trabajo, Err("el servidor respondió 500".into()));

    assert_eq!(lectura.libretas.len(), 2);
    assert_eq!(lectura.contactos, vec![ana]);
    assert_eq!(lectura.fallos, vec!["Trabajo: el servidor respondió 500".to_string()]);
}

const RESPUESTA: &str = r#"<?xml version="1.0"?>
<d:multistatus xmlns:d="DAV:" xmlns:c="urn:ietf:params:xml:ns:carddav">
  <d:response>
    <d:href>/libreta/dos.vcf</d:href>
    <d:propstat><d:prop><c:address-data>BEGIN:VCARD
FN:Ana
END:VCARD
BEGIN:VCARD
VERSION:3.0
END:VCARD
BEGIN:VCARD
FN:Juan
END:VCARD
</c:address-data></d:prop></d:propstat>
  </d:response>
  <d:response>
    <d:href>/libreta/vacia.vcf</d:href>
  </d:response>
</d:multistatus>"#;

#[test]
fn cada_tarjeta_de_un_bloque_sale_con_la_direccion_del_bloque() {
    let contactos = contactos_de_respuesta(RESPUESTA, "https://nube.ejemplo.com/libreta/");
    assert_eq!(contactos.len(), 2);
    assert_eq!(contactos[0].nombre, "Ana");
    assert_eq!(contactos[1].nombre, "Juan");
    assert_eq!(contactos[0].url, "https://nube.ejemplo.com/libreta/dos.vcf");
    assert_eq!(contactos[1].url, "https://nube.ejemplo.com/libreta/dos.vcf");
}

#[test]
fn una_respuesta_que_no_es_xml_no_da_contactos() {
    assert!(contactos_de_respuesta("<roto", "https://x/").is_empty());
}

#[test]
fn una_libreta_con_nombre_en_blanco_se_llama_contactos() {
    let xml = r#"<d:multistatus xmlns:d="DAV:" xmlns:c="urn:ietf:params:xml:ns:carddav">
  <d:response>
    <d:href> /a/ </d:href>
    <d:resourcetype><c:addressbook/></d:resourcetype>
    <d:displayname>   </d:displayname>
  </d:response>
  <d:response>
    <d:resourcetype><c:addressbook/></d:resourcetype>
    <d:displayname>Sin dirección</d:displayname>
  </d:response>
</d:multistatus>"#;
    let libretas = libretas_de(xml, "https://x/y/");
    assert_eq!(libretas.len(), 1);
    assert_eq!(libretas[0].nombre, "Contactos");
    assert_eq!(libretas[0].url, "https://x/a/");
}

#[test]
fn con_una_carpeta_que_no_es_url_no_hay_libretas() {
    let xml = r#"<d:multistatus xmlns:d="DAV:" xmlns:c="urn:ietf:params:xml:ns:carddav">
  <d:response><d:href>/a/</d:href><c:addressbook/></d:response>
</d:multistatus>"#;
    assert!(libretas_de(xml, "no es una url").is_empty());
    assert_eq!(libretas_de(xml, "https://x/").len(), 1);
}

#[test]
fn sin_pliegues_las_lineas_quedan_como_vienen() {
    assert_eq!(unir_lineas("A:1\nB:2\r\nC:3"), vec!["A:1", "B:2", "C:3"]);
    assert_eq!(unir_lineas(""), vec![""]);
    assert_eq!(unir_lineas(" suelta"), vec!["suelta"]);
}

#[test]
fn solo_un_valor_en_quoted_printable_queda_a_medias() {
    assert!(quedo_a_medias("NOTE;ENCODING=QUOTED-PRINTABLE:uno="));
    assert!(quedo_a_medias("NOTE;Encoding = Quoted-Printable:uno="));
    assert!(!quedo_a_medias("NOTE;ENCODING=QUOTED-PRINTABLE:uno"));
    assert!(!quedo_a_medias("PHOTO;ENCODING=b:abc="));
    assert!(!quedo_a_medias("sin dos puntos ENCODING=QUOTED-PRINTABLE="));
}

#[test]
fn sin_comienzo_no_hay_tarjetas() {
    assert!(tarjetas_de("FN:Ana\r\nEND:VCARD\r\n").is_empty());
    assert!(tarjetas_de("").is_empty());
    assert_eq!(tarjetas_de("  begin:vcard \r\nFN:Ana\r\nend:vcard"), vec![
        // El primer espacio se va: una línea que empieza con uno es un pliegue.
        " begin:vcard \r\nFN:Ana\r\nend:vcard".to_string()
    ]);
}

#[test]
fn los_dos_puntos_entre_comillas_no_cortan() {
    let p = partir("X-A;LABEL=\"a:b\" ; TYPE=home :valor").unwrap();
    assert_eq!(p.nombre, "X-A");
    assert_eq!(p.parametros, vec!["LABEL=\"a:b\"".to_string(), "TYPE=home".to_string()]);
    assert_eq!(p.valor, "valor");
    assert!(partir("sin nada").is_none());
    assert_eq!(partir(" grupo.uno.tel :x").unwrap().nombre, "TEL");
}

#[test]
fn la_etiqueta_salta_lo_que_no_es_etiqueta() {
    assert_eq!(etiqueta_de(&["type=pref,Cell".into()]), "cell");
    assert_eq!(etiqueta_de(&["VALUE=uri".into(), "X400".into(), "work".into()]), "work");
    assert_eq!(etiqueta_de(&["tipo=HOME".into()]), "");
    assert_eq!(etiqueta_de(&["PID=1".into(), "LANGUAGE=es".into()]), "");
    assert_eq!(etiqueta_de(&["ALTID=1".into(), "HOME".into()]), "home");
}

#[test]
fn decodificado_y_legible_en_sus_tres_formas() {
    let tres = partir("NOTE:uno\\, dos").unwrap();
    assert_eq!(decodificado(&tres), "uno\\, dos");
    assert_eq!(valor_legible(&tres), "uno, dos");

    let vieja = partir("NOTE;QUOTED-PRINTABLE;CHARSET=\"iso-8859-1\":caf=E9\\;").unwrap();
    assert_eq!(decodificado(&vieja), "café\\;");
    assert_eq!(valor_legible(&vieja), "café;");

    let declarada = partir("NOTE;CHARSET=UTF-8:año").unwrap();
    assert_eq!(decodificado(&declarada), "año");
}

#[test]
fn el_contacto_sale_con_su_direccion_y_valores_acotados() {
    let nota = "x".repeat(MAX_VALOR + 10);
    let tarjeta = format!("BEGIN:VCARD\r\nFN:Ana\r\nNOTE:{nota}\r\nEND:VCARD");
    let c = contacto_de(&tarjeta, "https://x/ana.vcf").unwrap();
    assert_eq!(c.url, "https://x/ana.vcf");
    assert_eq!(c.notas.len(), MAX_VALOR + 3);
    assert!(c.notas.ends_with('…'));
    assert!(c.notas.starts_with("xxx"));
}

#[test]
fn un_valor_que_no_parte_en_el_esquema_no_hace_caer_nada() {
    let c = contacto_de("BEGIN:VCARD\r\nEMAIL:abcdefé\r\nEND:VCARD", "").unwrap();
    assert_eq!(c.correos[0].valor, "abcdefé");
    assert_eq!(c.nombre, "");
}

#[test]
fn solo_se_leen_las_primeras_mil_propiedades() {
    let tarjeta = "BEGIN:VCARD\r\n".to_string() + &"X-A:b\r\n".repeat(999) + "FN:Ana\r\nEND:VCARD";
    assert!(contacto_de(&tarjeta, "").is_none());
    let tarjeta = "BEGIN:VCARD\r\n".to_string() + &"X-A:b\r\n".repeat(998) + "FN:Ana\r\nEND:VCARD";
    assert_eq!(contacto_de(&tarjeta, "").unwrap().nombre, "Ana");
}

#[test]
fn solo_con_correo_o_telefono_tambien_es_contacto() {
    let c = contacto_de("TEL;TYPE=CELL:  \r\nEMAIL:ana@x.com", "").unwrap();
    assert_eq!(c.nombre, "");
    assert_eq!(c.orden, "");
    assert_eq!(c.telefonos.len(), 0);
    assert_eq!(c.correos[0].valor, "ana@x.com");
    assert_eq!(c.correos[0].tipo, "");
}

#[test]
fn solo_el_apellido_ordena_por_el_apellido() {
    let c = contacto_de("N:Pérez;;;;\r\n", "").unwrap();
    assert_eq!(c.nombre, "Pérez");
    assert_eq!(c.orden, "Pérez");
}

#[test]
fn el_parametro_suelto_quoted_printable_tambien_sigue_en_la_linea_siguiente() {
    assert!(quedo_a_medias("FN;QUOTED-PRINTABLE:P=C3=A9r="));
    assert!(quedo_a_medias("NOTE;CHARSET=UTF-8;quoted-printable:uno="));
    assert!(!quedo_a_medias("FN;X-QUOTED-PRINTABLE:uno="));
    let c = contacto_de("BEGIN:VCARD\r\nFN;QUOTED-PRINTABLE:P=C3=A9r=\r\nez\r\nEND:VCARD", "").unwrap();
    assert_eq!(c.nombre, "Pérez");
}

#[test]
fn una_tarjeta_sin_fin_se_cierra_al_empezar_la_siguiente() {
    let t = tarjetas_de("BEGIN:VCARD\r\nFN:A\r\nBEGIN:VCARD\r\nFN:B\r\nEND:VCARD");
    assert_eq!(t, vec!["BEGIN:VCARD\r\nFN:A", "BEGIN:VCARD\r\nFN:B\r\nEND:VCARD"]);
    let t = tarjetas_de("BEGIN:VCARD\r\nFN:A\r\nBEGIN:VCARD\r\nFN:B");
    assert_eq!(t.len(), 2);
}

#[test]
fn el_nombre_armado_con_el_n_tambien_se_acota() {
    let largo = "a".repeat(5000);
    let c = contacto_de(&format!("N:{largo}"), "").unwrap();
    assert_eq!(c.nombre.len(), MAX_VALOR + 3);
    assert!(c.nombre.ends_with('…'));
    assert!(c.nombre.starts_with("aaa"));
}

#[test]
fn un_pliegue_se_deshace_donde_sea() {
    assert_eq!(unir_lineas("FN:Ana\r\n María"), unir_lineas("FN:AnaMaría"));
    assert_eq!(unir_lineas("NOTE:uno\r\n\tdos"), vec!["NOTE:unodos"]);
    assert_eq!(unir_lineas("FN:An\r\n a\r\n"), vec!["FN:Ana", ""]);
}

#[test]
fn escribir_y_leer_un_valor_de_texto_da_lo_mismo() {
    assert_eq!(texto_de("a\\,b\\;c\\\\d\\ne"), "a,b;c\\d\ne");
    assert_eq!(campos_de("P\\;rez;Ana\\, María;"), vec!["P;rez", "Ana, María", ""]);
    assert_eq!(imprimible_de("=C3=A9=3D"), vec![0xC3, 0xA9, 0x3D]);
}

#[test]
fn la_lectura_de_una_cuenta_guarda_el_orden_de_las_libretas() {
    let a = Libreta { url: "https://x/a/".into(), nombre: "A".into() };
    let b = Libreta { url: "https://x/b/".into(), nombre: "B".into() };
    let c = Libreta { url: "https://x/c/".into(), nombre: "C".into() };
    let d = Libreta { url: "https://x/d/".into(), nombre: "D".into() };
    let mut lectura = LecturaDeCuenta::nueva(vec![a.clone(), b.clone(), c.clone(), d.clone()]);
    let ana = Contacto { nombre: "Ana".into(), ..Default::default() };
    let juan = Contacto { nombre: "Juan".into(), ..Default::default() };
    let eva = Contacto { nombre: "Eva".into(), ..Default::default() };
    lectura.registrar(&a, Ok(vec![ana.clone(), juan.clone()]));
    lectura.registrar(&b, Err("uno".into()));
    lectura.registrar(&c, Ok(vec![eva.clone()]));
    lectura.registrar(&d, Err("dos".into()));
    assert_eq!(lectura.contactos, vec![ana, juan, eva]);
    assert_eq!(lectura.fallos, vec!["B: uno".to_string(), "D: dos".to_string()]);
}

#[test]
fn sin_nombre_ni_correo_ni_telefono_no_hay_contacto() {
    assert!(contacto_de("BEGIN:VCARD\r\nFN: \r\nN: ;;\t;;\r\nEMAIL:mailto:\r\nTEL:tel: \r\nEND:VCARD", "").is_none());
    assert!(contacto_de("", "").is_none());
    let c = contacto_de("BEGIN:VCARD\r\nFN: \r\nN:;;;;Jr.\r\nEND:VCARD", "").unwrap();
    assert_eq!(c.nombre, "Jr.");
}

#[test]
fn utf8_valido_declarado_como_utf8_se_lee_tal_cual() {
    assert_eq!(a_texto("Pérez".as_bytes(), Some("utf-8")), "Pérez");
    assert_eq!(a_texto("\u{FEFF}x".as_bytes(), None), "x");
}

#[test]
fn otro_parametro_con_nombre_no_es_etiqueta() {
    assert_eq!(etiqueta_de(&["LANGUAGE=es".to_string(), "x-casa".to_string()]), "x-casa");
    assert_eq!(etiqueta_de(&["PID=1".to_string()]), "");
    assert_eq!(etiqueta_de(&["type=\"Work\",voice".to_string()]), "work");
}

#[test]
fn lo_que_queda_entre_tarjetas_no_entra_en_ninguna() {
    let t = tarjetas_de("X-A:b\r\nBEGIN:VCARD\r\nFN:A\r\nEND:VCARD\r\nEND:VCARD\r\nnada\r\nbegin:vcard\r\nFN:B");
    assert_eq!(t, vec!["BEGIN:VCARD\r\nFN:A\r\nEND:VCARD", "begin:vcard\r\nFN:B"]);
}
