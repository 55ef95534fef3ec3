use vasak_contacts::carddav::Libreta;
use vasak_contacts::comandos::LecturaDeCuenta;
use vasak_contacts::vcard::Contacto;

fn contacto(orden: &str) -> Contacto {
    Contacto {
        orden: orden.into(),
        nombre: orden.into(),
        ..Default::default()
    }
}

#[test]
fn cada_contacto_sale_con_su_clave_de_orden() {
    let lectura = LecturaDeCuenta {
        contactos: vec![contacto("Álvarez, Ana")],
        ..Default::default()
    };
    assert_eq!(lectura.contactos[0].orden, "Álvarez, Ana");
}

#[test]
fn una_lectura_puede_traer_contactos_y_fallos_a_la_vez() {
    let lectura = LecturaDeCuenta {
        libretas: vec![Libreta {
            url: "https://x/a/".into(),
            nombre: "Personal".into(),
        }],
        contactos: vec![contacto("Pérez, Ana")],
        fallos: vec!["Trabajo: el servidor respondió 500".into()],
    };

    assert_eq!(lectura.contactos.len(), 1);
    assert!(lectura.fallos[0].starts_with("Trabajo:"));
}
