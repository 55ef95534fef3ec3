use vasak_contacts::carddav::{consulta_de_libretas, consulta_de_tarjetas, libretas_de, tarjetas_de};

const LIBRETAS: &str = r#"<?xml version="1.0"?>
<d:multistatus xmlns:d="DAV:" xmlns:c="urn:ietf:params:xml:ns:carddav">
  <d:response>
    <d:href>/dav/addressbooks/users/ana/</d:href>
    <d:propstat><d:prop><d:resourcetype><d:collection/></d:resourcetype></d:prop></d:propstat>
  </d:response>
  <d:response>
    <d:href>/dav/addressbooks/users/ana/personal/</d:href>
    <d:propstat><d:prop>
      <d:resourcetype><d:collection/><c:addressbook/></d:resourcetype>
      <d:displayname>Personal</d:displayname>
    </d:prop></d:propstat>
  </d:response>
</d:multistatus>"#;

#[test]
fn solo_se_listan_las_colecciones_que_son_libretas() {
    let libretas = libretas_de(LIBRETAS, "https://nube.ejemplo.com/dav/addressbooks/users/ana/");

    assert_eq!(libretas.len(), 1);
    assert_eq!(libretas[0].nombre, "Personal");
    assert_eq!(
        libretas[0].url,
        "https://nube.ejemplo.com/dav/addressbooks/users/ana/personal/"
    );
}

#[test]
fn un_href_con_url_entera_no_se_pega_dos_veces() {
    let xml = LIBRETAS.replace(
        "<d:href>/dav/addressbooks/users/ana/personal/</d:href>",
        "<d:href>https://otra.ejemplo.com/x/</d:href>",
    );
    let libretas = libretas_de(&xml, "https://nube.ejemplo.com/dav/addressbooks/users/ana/");
    assert_eq!(libretas[0].url, "https://otra.ejemplo.com/x/");
}

#[test]
fn una_libreta_sin_nombre_se_muestra_igual() {
    let xml = LIBRETAS.replace("<d:displayname>Personal</d:displayname>", "");
    assert_eq!(libretas_de(&xml, "https://x/").len(), 1);
}

const TARJETAS: &str = r#"<?xml version="1.0"?>
<d:multistatus xmlns:d="DAV:" xmlns:c="urn:ietf:params:xml:ns:carddav">
  <d:response>
    <d:href>/dav/addressbooks/users/ana/personal/ana.vcf</d:href>
    <d:propstat><d:prop><c:address-data>BEGIN:VCARD
VERSION:3.0
FN:Ana Pérez
N:Pérez;Ana;;;
EMAIL:ana@ejemplo.com
END:VCARD
</c:address-data></d:prop></d:propstat>
  </d:response>
</d:multistatus>"#;

#[test]
fn la_tarjeta_sale_con_su_direccion() {
    let tarjetas = tarjetas_de(TARJETAS, "https://nube.ejemplo.com/dav/addressbooks/users/ana/personal/");

    assert_eq!(tarjetas.len(), 1);
    assert!(tarjetas[0].0.ends_with("/ana.vcf"), "{}", tarjetas[0].0);
    assert!(tarjetas[0].1.contains("Ana Pérez"));
}

#[test]
fn un_xml_roto_no_da_nada() {
    assert!(libretas_de("no es xml", "https://x/").is_empty());
    assert!(tarjetas_de("<abierto>", "https://x/").is_empty());
    assert!(libretas_de("", "https://x/").is_empty());
}

#[test]
fn las_consultas_son_xml_valido() {
    assert!(roxmltree::Document::parse(&consulta_de_libretas()).is_ok());
    assert!(roxmltree::Document::parse(&consulta_de_tarjetas()).is_ok());
}
