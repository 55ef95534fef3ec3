# vasak_contacts

La lectura de la libreta de direcciones de VasakOS: tarjetas vCard (2.1, 3.0
y 4.0) y respuestas CardDAV. La lógica está verificada con Verus contra sus
contratos; las llamadas a `encoding_rs`, `roxmltree`, `reqwest::Url`,
`base64` y a unas pocas funciones de `std` pasan por envoltorios de confianza
(`#[verifier::external_body]`), cuyo contrato se cree sin prueba y dice en su
comentario lo que afirma de la función de afuera.

- `src/cadena.rs`: texto como secuencia de caracteres (recortar, partir,
  unir, mayúsculas ASCII, largo en UTF-8).
- `src/vcard/`: las líneas y las tarjetas (`lineas.rs`), la propiedad
  (`propiedad.rs`), el valor (`valor.rs`: escapes, campos,
  `quoted-printable`, juego de caracteres, etiquetas), las codificaciones de
  `encoding_rs` (`codificacion.rs`) y el contacto entero (`contacto.rs`).
- `src/carddav.rs`: los cuerpos de los pedidos, la lectura de las respuestas
  `PROPFIND` y `REPORT` (con `roxmltree` y el `Url` de `reqwest`), la
  cabecera de autenticación (con `base64`) y el cuerpo leído con tope.
- `src/comandos.rs`: lo que se junta al leer una cuenta entera.
- `app/`: la red (`reqwest`) y las copias serializables de los tipos que
  viajan a la ventana.

Las leyes (las funciones `ley_*`) dicen lo que vale para toda entrada: que
juntar líneas no inventa nada y deshace cada pliegue, que hay una tarjeta por
cada `BEGIN:VCARD`, que leer un valor deshace el escribirlo (escapes, campos
y `quoted-printable`), que un contacto sale con su dirección y con valores
que caben en la lista, cuándo una tarjeta no da contacto, que una etiqueta no
es nunca un parámetro `nombre=valor`, que leer una cuenta entera guarda el
orden de las libretas y anota cada fallo, y que toda libreta listada tiene
nombre y una dirección a la que se puede volver.
