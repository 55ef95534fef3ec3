//! Los juegos de caracteres, que decodifica `encoding_rs`.
//!
//! Una codificación se conoce por su nombre canónico («UTF-8»,
//! «windows-1252»), que es lo único que la lógica de la tarjeta mira. El
//! valor de `encoding_rs` va al lado, para decodificar; los dos sólo se
//! arman juntos en este módulo, a partir del mismo `&'static Encoding`.

use vstd::prelude::*;
use vstd::utf8::{decode_utf8, valid_utf8};

verus! {

#[verifier::external_type_specification]
#[verifier::external_body]
pub struct ExEncoding(encoding_rs::Encoding);

/// Una codificación de `encoding_rs` junto con su nombre canónico.
pub struct Codificacion {
    pub nombre: String,
    interna: &'static encoding_rs::Encoding,
}

/// El nombre canónico de la codificación que `Encoding::for_label` asocia a
/// una etiqueta, o `None` si la etiqueta no es de ninguna.
pub uninterp spec fn codificacion_de_etiqueta(etiqueta: Seq<u8>) -> Option<Seq<char>>;

/// El texto que da `Encoding::decode` de la codificación con ese nombre
/// sobre esos bytes.
pub uninterp spec fn decodificacion(nombre: Seq<char>, bytes: Seq<u8>) -> Seq<char>;

/// La marca de orden de bytes de UTF-8, que `decode` quita.
pub open spec fn empieza_con_bom(bytes: Seq<u8>) -> bool {
    bytes.len() >= 3 && bytes[0] == 0xEF && bytes[1] == 0xBB && bytes[2] == 0xBF
}

/// `encoding_rs::Encoding::for_label`: la codificación de una etiqueta
/// declarada, por la regla del estándar de codificaciones (minúsculas ASCII,
/// sin blancos alrededor). Se afirma que el resultado es el nombrado para
/// esa etiqueta; cuál es para cada etiqueta no se dice aquí.
#[verifier::external_body]
fn por_etiqueta(etiqueta: &[u8]) -> (r: Option<Codificacion>)
    ensures
        match r {
            Some(c) => codificacion_de_etiqueta(etiqueta@) == Some(c.nombre@),
            None => codificacion_de_etiqueta(etiqueta@) is None,
        },
{
    encoding_rs::Encoding::for_label(etiqueta).map(
        |e| Codificacion { nombre: e.name().to_string(), interna: e },
    )
}

/// `encoding_rs::UTF_8`, cuyo nombre canónico es «UTF-8».
#[verifier::external_body]
fn utf_8() -> (r: Codificacion)
    ensures
        r.nombre@ == "UTF-8"@,
{
    Codificacion { nombre: encoding_rs::UTF_8.name().to_string(), interna: encoding_rs::UTF_8 }
}

/// `encoding_rs::WINDOWS_1252`, cuyo nombre canónico es «windows-1252».
#[verifier::external_body]
fn windows_1252() -> (r: Codificacion)
    ensures
        r.nombre@ == "windows-1252"@,
{
    Codificacion {
        nombre: encoding_rs::WINDOWS_1252.name().to_string(),
        interna: encoding_rs::WINDOWS_1252,
    }
}

/// `Encoding::decode`: el texto es el nombrado para la codificación y los
/// bytes. Lo único que se dice de su contenido es el caso de UTF-8 válido y
/// sin marca de orden de bytes, que se devuelve tal cual. `decode` entra en
/// pánico si el tamaño del resultado no entra en `usize`: de ahí el tope.
#[verifier::external_body]
fn decodificar(c: &Codificacion, bytes: &[u8]) -> (r: String)
    requires
        bytes@.len() <= usize::MAX / 4,
    ensures
        r@ == decodificacion(c.nombre@, bytes@),
        c.nombre@ == "UTF-8"@ && valid_utf8(bytes@) && !empieza_con_bom(bytes@) ==> r@
            == decode_utf8(bytes@),
{
    c.interna.decode(bytes).0.into_owned()
}

/// `std::str::from_utf8` sin error: los bytes son UTF-8 válido.
#[verifier::external_body]
fn es_utf8(bytes: &[u8]) -> (r: bool)
    ensures
        r == valid_utf8(bytes@),
{
    match std::str::from_utf8(bytes) {
        Ok(_) => true,
        Err(_) => false,
    }
}

/// El nombre de la codificación con que se leen los bytes.
///
/// **Se respeta lo declarado**, salvo que lo declarado sea Windows-1252 y los
/// bytes sean UTF-8 válido: el estándar trata `us-ascii` como Windows-1252,
/// y un valor en UTF-8 mal declarado saldría con «Ã³». Sin nada declarado,
/// o con algo que no se conoce, UTF-8 si lo es y si no Windows-1252.
pub open spec fn codificacion_elegida(bytes: Seq<u8>, declarada: Option<Seq<char>>) -> Seq<char> {
    match declarada {
        Some(c) => if c == "windows-1252"@ && valid_utf8(bytes) {
            "UTF-8"@
        } else {
            c
        },
        None => if valid_utf8(bytes) {
            "UTF-8"@
        } else {
            "windows-1252"@
        },
    }
}

/// Los bytes leídos como texto, con la codificación que corresponde a la
/// etiqueta declarada (ya en bytes y recortada), si la hay. Leídos en UTF-8,
/// unos bytes válidos y sin marca de orden dan exactamente su texto.
pub open spec fn texto_en(bytes: Seq<u8>, etiqueta: Option<Seq<u8>>) -> Seq<char> {
    let declarada = match etiqueta {
        Some(e) => codificacion_de_etiqueta(e),
        None => None,
    };
    let elegida = codificacion_elegida(bytes, declarada);
    if elegida == "UTF-8"@ && valid_utf8(bytes) && !empieza_con_bom(bytes) {
        decode_utf8(bytes)
    } else {
        decodificacion(elegida, bytes)
    }
}

/// Lee bytes como texto según la etiqueta declarada.
pub fn leer_bytes(bytes: &[u8], etiqueta: Option<&[u8]>) -> (r: String)
    requires
        bytes@.len() <= usize::MAX / 4,
    ensures
        r@ == texto_en(
            bytes@,
            match etiqueta {
                Some(e) => Some(e@),
                None => None,
            },
        ),
        etiqueta is None && valid_utf8(bytes@) && !empieza_con_bom(bytes@) ==> r@ == decode_utf8(
            bytes@,
        ),
{
    let declarada = match etiqueta {
        Some(e) => por_etiqueta(e),
        None => None,
    };
    let codificacion = match declarada {
        Some(c) => {
            let w = windows_1252();
            if c.nombre == w.nombre && es_utf8(bytes) {
                utf_8()
            } else {
                c
            }
        },
        None => if es_utf8(bytes) {
            utf_8()
        } else {
            windows_1252()
        },
    };
    decodificar(&codificacion, bytes)
}

} // verus!
