//! Leer los contactos de un servidor CardDAV.
//!
//! Dos pasos: preguntar qué libretas tiene la persona (`PROPFIND` sobre su
//! carpeta) y pedir las tarjetas de una (`REPORT`). Aquí está lo que se
//! puede hacer sin red: los cuerpos de los pedidos, la lectura de las
//! respuestas y las decisiones sobre lo que llega; la conversación con el
//! servidor la lleva quien usa la biblioteca.

use vstd::prelude::*;
use vstd::utf8::{decode_utf8, encode_utf8, valid_utf8};
use base64::Engine;
use vstd::string::StrSliceExecFns;
use crate::cadena::{
    a_chars, a_string, agregar_chars, bytes_de, dentro_del_tope, iguales, recortar, recortar_vec,
};
use crate::vcard::contacto::{contacto_de, Contacto};

verus! {

// ---------------------------------------------------------------------------
// El documento XML
// ---------------------------------------------------------------------------

/// Un nodo del documento, en el orden en que aparece (el de
/// `Document::descendants`): si es un elemento, su espacio de nombres, su
/// nombre local, su texto (el del primer hijo, si es texto) y cuántos nodos
/// ocupa él con todo lo que tiene adentro.
#[derive(Debug, Clone, PartialEq, Eq)]
pub struct NodoXml {
    pub elemento: bool,
    pub espacio: Option<String>,
    pub nombre: String,
    pub texto: Option<String>,
    pub tamano: usize,
}

pub struct NodoVista {
    pub elemento: bool,
    pub espacio: Option<Seq<char>>,
    pub nombre: Seq<char>,
    pub texto: Option<Seq<char>>,
    pub tamano: nat,
}

pub open spec fn vista_opcional(o: Option<String>) -> Option<Seq<char>> {
    match o {
        Some(s) => Some(s@),
        None => None,
    }
}

impl View for NodoXml {
    type V = NodoVista;

    open spec fn view(&self) -> NodoVista {
        NodoVista {
            elemento: self.elemento,
            espacio: vista_opcional(self.espacio),
            nombre: self.nombre@,
            texto: vista_opcional(self.texto),
            tamano: self.tamano as nat,
        }
    }
}

pub open spec fn vistas_nodos(ns: Seq<NodoXml>) -> Seq<NodoVista> {
    ns.map_values(|n: NodoXml| n@)
}

/// Los nodos de un documento XML según `roxmltree`, o `None` si no es XML
/// bien formado.
pub uninterp spec fn nodos_de_xml(xml: Seq<char>) -> Option<Seq<NodoVista>>;

/// `roxmltree::Document::parse` y el recorrido de `descendants`: se afirma
/// que los nodos son los nombrados para ese texto; qué árbol sale de cada
/// texto no se dice aquí.
#[verifier::external_body]
fn analizar_xml(xml: &str) -> (r: Option<Vec<NodoXml>>)
    ensures
        match r {
            Some(ns) => nodos_de_xml(xml@) == Some(vistas_nodos(ns@)),
            None => nodos_de_xml(xml@) is None,
        },
{
    let documento = roxmltree::Document::parse(xml).ok()?;
    let nodos = documento.descendants().map(
        |n| NodoXml {
            elemento: n.is_element(),
            espacio: n.tag_name().namespace().map(|s| s.to_string()),
            nombre: n.tag_name().name().to_string(),
            texto: n.text().map(|s| s.to_string()),
            tamano: n.descendants().count(),
        },
    ).collect();
    Some(nodos)
}

/// El URL que resulta de resolver `href` contra `base`, o `None` si alguno
/// de los dos no sirve.
pub uninterp spec fn url_unida(base: Seq<char>, href: Seq<char>) -> Option<Seq<char>>;

/// `Url::parse(base)` seguido de `Url::join(href)` (el `Url` que reexporta
/// `reqwest`): se afirma que el resultado es el nombrado para esos dos
/// textos; cómo se resuelve no se dice aquí.
#[verifier::external_body]
fn unir_url(base: &str, href: &str) -> (r: Option<String>)
    ensures
        match r {
            Some(u) => url_unida(base@, href@) == Some(u@),
            None => url_unida(base@, href@) is None,
        },
{
    let base = reqwest::Url::parse(base).ok()?;
    let unida = base.join(href).ok()?;
    Some(unida.to_string())
}

pub open spec fn ns_dav() -> Seq<char> {
    "DAV:"@
}

pub open spec fn ns_carddav() -> Seq<char> {
    "urn:ietf:params:xml:ns:carddav"@
}

/// `has_tag_name((espacio, nombre))`.
pub open spec fn tiene_etiqueta(n: NodoVista, espacio: Seq<char>, nombre: Seq<char>) -> bool {
    n.elemento && n.espacio == Some(espacio) && n.nombre == nombre
}

/// Donde termina lo que hay dentro del nodo `i`.
pub open spec fn fin_de(ns: Seq<NodoVista>, i: int) -> int {
    if i + ns[i].tamano <= ns.len() {
        i + ns[i].tamano
    } else {
        ns.len() as int
    }
}

/// El primer nodo en `[desde, hasta)` con esa etiqueta.
pub open spec fn primero_con(
    ns: Seq<NodoVista>,
    desde: int,
    hasta: int,
    espacio: Seq<char>,
    nombre: Seq<char>,
) -> Option<int>
    decreases hasta - desde,
{
    if desde >= hasta {
        None
    } else if tiene_etiqueta(ns[desde], espacio, nombre) {
        Some(desde)
    } else {
        primero_con(ns, desde + 1, hasta, espacio, nombre)
    }
}

proof fn lema_primero_con(
    ns: Seq<NodoVista>,
    desde: int,
    hasta: int,
    espacio: Seq<char>,
    nombre: Seq<char>,
)
    ensures
        primero_con(ns, desde, hasta, espacio, nombre) matches Some(k) ==> desde <= k < hasta,
    decreases hasta - desde,
{
    if desde < hasta {
        lema_primero_con(ns, desde + 1, hasta, espacio, nombre);
    }
}

fn nodo_tiene(n: &NodoXml, espacio: &[char], nombre: &[char]) -> (r: bool)
    ensures
        r == tiene_etiqueta(n@, espacio@, nombre@),
{
    if !n.elemento {
        return false;
    }
    match &n.espacio {
        None => false,
        Some(e) => {
            let ev = a_chars(e.as_str());
            let nv = a_chars(n.nombre.as_str());
            iguales(&ev, espacio) && iguales(&nv, nombre)
        },
    }
}

fn fin_de_exec(ns: &Vec<NodoXml>, i: usize) -> (r: usize)
    requires
        i < ns@.len(),
    ensures
        r == fin_de(vistas_nodos(ns@), i as int),
        i <= r <= ns@.len(),
{
    let t = ns[i].tamano;
    if t <= ns.len() - i {
        i + t
    } else {
        ns.len()
    }
}

fn primero_con_exec(
    ns: &Vec<NodoXml>,
    desde: usize,
    hasta: usize,
    espacio: &[char],
    nombre: &[char],
) -> (r: Option<usize>)
    requires
        desde <= hasta <= ns@.len(),
    ensures
        match r {
            Some(k) => primero_con(vistas_nodos(ns@), desde as int, hasta as int, espacio@, nombre@)
                == Some(k as int) && desde <= k < hasta,
            None => primero_con(vistas_nodos(ns@), desde as int, hasta as int, espacio@, nombre@) is None,
        },
{
    let mut k = desde;
    while k < hasta
        invariant
            desde <= k <= hasta <= ns@.len(),
            primero_con(vistas_nodos(ns@), desde as int, hasta as int, espacio@, nombre@)
                == primero_con(vistas_nodos(ns@), k as int, hasta as int, espacio@, nombre@),
        decreases hasta - k,
    {
        if nodo_tiene(&ns[k], espacio, nombre) {
            return Some(k);
        }
        k = k + 1;
    }
    None
}

/// El texto de un nodo, si es el primero con esa etiqueta dentro de `[i, f)`.
pub open spec fn texto_del_primero(
    ns: Seq<NodoVista>,
    i: int,
    f: int,
    espacio: Seq<char>,
    nombre: Seq<char>,
) -> Option<Seq<char>> {
    match primero_con(ns, i, f, espacio, nombre) {
        Some(k) => ns[k].texto,
        None => None,
    }
}

fn texto_del_primero_exec(
    ns: &Vec<NodoXml>,
    desde: usize,
    hasta: usize,
    espacio: &[char],
    nombre: &[char],
) -> (r: Option<Vec<char>>)
    requires
        desde <= hasta <= ns@.len(),
    ensures
        match r {
            Some(t) => texto_del_primero(vistas_nodos(ns@), desde as int, hasta as int, espacio@, nombre@)
                == Some(t@),
            None => texto_del_primero(vistas_nodos(ns@), desde as int, hasta as int, espacio@, nombre@) is None,
        },
{
    match primero_con_exec(ns, desde, hasta, espacio, nombre) {
        None => None,
        Some(k) => match &ns[k].texto {
            None => None,
            Some(t) => Some(a_chars(t.as_str())),
        },
    }
}

} // verus!

verus! {

// ---------------------------------------------------------------------------
// Las libretas
// ---------------------------------------------------------------------------

/// Una libreta de la persona.
#[derive(Debug, Clone, PartialEq, Eq)]
pub struct Libreta {
    pub url: String,
    pub nombre: String,
}

pub struct LibretaVista {
    pub url: Seq<char>,
    pub nombre: Seq<char>,
}

impl View for Libreta {
    type V = LibretaVista;

    open spec fn view(&self) -> LibretaVista {
        LibretaVista { url: self.url@, nombre: self.nombre@ }
    }
}

pub open spec fn vistas_libretas(ls: Seq<Libreta>) -> Seq<LibretaVista> {
    ls.map_values(|l: Libreta| l@)
}

/// El nombre con que se muestra una libreta que no trae uno.
pub open spec fn sin_nombre() -> Seq<char> {
    "Contactos"@
}

/// La libreta que describe la respuesta que empieza en el nodo `i`.
///
/// Sólo cuenta si adentro dice que es una libreta (`addressbook`); su
/// dirección es el texto del primer `href`, recortado y resuelto contra la
/// carpeta (si no hay `href`, o no tiene texto, o no se puede resolver, no
/// hay libreta); su nombre, el texto recortado del primer `displayname`, o
/// «Contactos» si queda vacío.
pub open spec fn libreta_en(ns: Seq<NodoVista>, i: int, base: Seq<char>) -> Option<LibretaVista> {
    let f = fin_de(ns, i);
    if primero_con(ns, i, f, ns_carddav(), "addressbook"@) is None {
        None
    } else {
        match texto_del_primero(ns, i, f, ns_dav(), "href"@) {
            None => None,
            Some(href) => match url_unida(base, recortar(href)) {
                None => None,
                Some(url) => {
                    let nombre = match texto_del_primero(ns, i, f, ns_dav(), "displayname"@) {
                        Some(t) => recortar(t),
                        None => Seq::<char>::empty(),
                    };
                    Some(
                        LibretaVista {
                            url,
                            nombre: if nombre.len() == 0 {
                                sin_nombre()
                            } else {
                                nombre
                            },
                        },
                    )
                },
            },
        }
    }
}

/// Las libretas de las respuestas entre los primeros `k` nodos, en orden.
pub open spec fn libretas_hasta(ns: Seq<NodoVista>, k: int, base: Seq<char>) -> Seq<LibretaVista>
    decreases k,
{
    if k <= 0 {
        Seq::<LibretaVista>::empty()
    } else {
        let antes = libretas_hasta(ns, k - 1, base);
        if tiene_etiqueta(ns[k - 1], ns_dav(), "response"@) {
            match libreta_en(ns, k - 1, base) {
                Some(l) => antes.push(l),
                None => antes,
            }
        } else {
            antes
        }
    }
}

/// Las libretas de una respuesta `PROPFIND` ya analizada.
pub open spec fn libretas_de_nodos_spec(ns: Seq<NodoVista>, base: Seq<char>) -> Seq<LibretaVista> {
    libretas_hasta(ns, ns.len() as int, base)
}

/// Las libretas de una respuesta `PROPFIND`: ninguna si no es XML.
pub open spec fn libretas_de_xml(xml: Seq<char>, base: Seq<char>) -> Seq<LibretaVista> {
    match nodos_de_xml(xml) {
        Some(ns) => libretas_de_nodos_spec(ns, base),
        None => Seq::<LibretaVista>::empty(),
    }
}

fn libreta_en_exec(ns: &Vec<NodoXml>, i: usize, base: &str) -> (r: Option<Libreta>)
    requires
        i < ns@.len(),
    ensures
        match r {
            Some(l) => libreta_en(vistas_nodos(ns@), i as int, base@) == Some(l@),
            None => libreta_en(vistas_nodos(ns@), i as int, base@) is None,
        },
{
    let f = fin_de_exec(ns, i);
    let dav = a_chars("DAV:");
    let carddav = a_chars("urn:ietf:params:xml:ns:carddav");
    if primero_con_exec(ns, i, f, &carddav, &a_chars("addressbook")).is_none() {
        return None;
    }
    let href = match texto_del_primero_exec(ns, i, f, &dav, &a_chars("href")) {
        None => return None,
        Some(h) => h,
    };
    let href_r = a_string(&recortar_vec(&href));
    let url = match unir_url(base, href_r.as_str()) {
        None => return None,
        Some(u) => u,
    };
    let nombre = match texto_del_primero_exec(ns, i, f, &dav, &a_chars("displayname")) {
        Some(t) => recortar_vec(&t),
        None => Vec::new(),
    };
    let nombre_final = if nombre.len() == 0 {
        a_string(&a_chars("Contactos"))
    } else {
        a_string(&nombre)
    };
    Some(Libreta { url, nombre: nombre_final })
}

/// Las libretas de una respuesta `PROPFIND` ya analizada en nodos.
///
/// Sólo las colecciones que de verdad son libretas: la carpeta trae también
/// cosas que no lo son, y listarlas daría entradas que al abrirlas no tienen
/// nada.
pub fn libretas_de_nodos(ns: &Vec<NodoXml>, base: &str) -> (r: Vec<Libreta>)
    ensures
        vistas_libretas(r@) == libretas_de_nodos_spec(vistas_nodos(ns@), base@),
{
    let dav = a_chars("DAV:");
    let respuesta = a_chars("response");
    let mut r: Vec<Libreta> = Vec::new();
    let mut k: usize = 0;
    while k < ns.len()
        invariant
            k <= ns@.len(),
            dav@ == ns_dav(),
            respuesta@ == "response"@,
            vistas_libretas(r@) == libretas_hasta(vistas_nodos(ns@), k as int, base@),
        decreases ns@.len() - k,
    {
        if nodo_tiene(&ns[k], &dav, &respuesta) {
            match libreta_en_exec(ns, k, base) {
                Some(l) => {
                    let ghost antes = vistas_libretas(r@);
                    r.push(l);
                    assert(vistas_libretas(r@) =~= antes.push(l@));
                },
                None => {},
            }
        }
        k = k + 1;
    }
    r
}

/// Lee las libretas de una respuesta `PROPFIND`.
pub fn libretas_de(xml: &str, base: &str) -> (r: Vec<Libreta>)
    ensures
        vistas_libretas(r@) == libretas_de_xml(xml@, base@),
{
    match analizar_xml(xml) {
        None => Vec::new(),
        Some(ns) => libretas_de_nodos(&ns, base),
    }
}

} // verus!

verus! {

// ---------------------------------------------------------------------------
// Las tarjetas
// ---------------------------------------------------------------------------

pub struct TarjetaVista {
    pub url: Seq<char>,
    pub datos: Seq<char>,
}

pub open spec fn vistas_tarjetas(ts: Seq<(String, String)>) -> Seq<TarjetaVista> {
    ts.map_values(|t: (String, String)| TarjetaVista { url: t.0@, datos: t.1@ })
}

/// La tarjeta de la respuesta que empieza en el nodo `i`: el texto del primer
/// `address-data` (si no hay, o no tiene texto, no hay tarjeta) con la
/// dirección que sale de resolver el primer `href` contra la libreta (vacía
/// si no se puede).
pub open spec fn tarjeta_en(ns: Seq<NodoVista>, i: int, base: Seq<char>) -> Option<TarjetaVista> {
    let f = fin_de(ns, i);
    match texto_del_primero(ns, i, f, ns_carddav(), "address-data"@) {
        None => None,
        Some(datos) => {
            let href = match texto_del_primero(ns, i, f, ns_dav(), "href"@) {
                Some(t) => recortar(t),
                None => Seq::<char>::empty(),
            };
            let url = match url_unida(base, href) {
                Some(u) => u,
                None => Seq::<char>::empty(),
            };
            Some(TarjetaVista { url, datos })
        },
    }
}

pub open spec fn tarjetas_hasta(ns: Seq<NodoVista>, k: int, base: Seq<char>) -> Seq<TarjetaVista>
    decreases k,
{
    if k <= 0 {
        Seq::<TarjetaVista>::empty()
    } else {
        let antes = tarjetas_hasta(ns, k - 1, base);
        if tiene_etiqueta(ns[k - 1], ns_dav(), "response"@) {
            match tarjeta_en(ns, k - 1, base) {
                Some(t) => antes.push(t),
                None => antes,
            }
        } else {
            antes
        }
    }
}

/// Las tarjetas de una respuesta `REPORT`: ninguna si no es XML.
pub open spec fn tarjetas_de_xml(xml: Seq<char>, base: Seq<char>) -> Seq<TarjetaVista> {
    match nodos_de_xml(xml) {
        Some(ns) => tarjetas_hasta(ns, ns.len() as int, base),
        None => Seq::<TarjetaVista>::empty(),
    }
}

fn tarjeta_en_exec(ns: &Vec<NodoXml>, i: usize, base: &str) -> (r: Option<(String, String)>)
    requires
        i < ns@.len(),
    ensures
        match r {
            Some(t) => tarjeta_en(vistas_nodos(ns@), i as int, base@) == Some(
                TarjetaVista { url: t.0@, datos: t.1@ },
            ),
            None => tarjeta_en(vistas_nodos(ns@), i as int, base@) is None,
        },
{
    let f = fin_de_exec(ns, i);
    let dav = a_chars("DAV:");
    let carddav = a_chars("urn:ietf:params:xml:ns:carddav");
    let datos = match texto_del_primero_exec(ns, i, f, &carddav, &a_chars("address-data")) {
        None => return None,
        Some(d) => d,
    };
    let href = match texto_del_primero_exec(ns, i, f, &dav, &a_chars("href")) {
        Some(t) => recortar_vec(&t),
        None => Vec::new(),
    };
    let href_s = a_string(&href);
    let url = match unir_url(base, href_s.as_str()) {
        Some(u) => u,
        None => a_string(&Vec::new()),
    };
    Some((url, a_string(&datos)))
}

/// Las tarjetas de una respuesta `REPORT` ya analizada, con su dirección.
pub fn tarjetas_de_nodos(ns: &Vec<NodoXml>, base: &str) -> (r: Vec<(String, String)>)
    ensures
        vistas_tarjetas(r@) == tarjetas_hasta(vistas_nodos(ns@), ns@.len() as int, base@),
{
    let dav = a_chars("DAV:");
    let respuesta = a_chars("response");
    let mut r: Vec<(String, String)> = Vec::new();
    let mut k: usize = 0;
    while k < ns.len()
        invariant
            k <= ns@.len(),
            dav@ == ns_dav(),
            respuesta@ == "response"@,
            vistas_tarjetas(r@) == tarjetas_hasta(vistas_nodos(ns@), k as int, base@),
        decreases ns@.len() - k,
    {
        if nodo_tiene(&ns[k], &dav, &respuesta) {
            match tarjeta_en_exec(ns, k, base) {
                Some(t) => {
                    let ghost antes = vistas_tarjetas(r@);
                    let ghost tv = TarjetaVista { url: t.0@, datos: t.1@ };
                    r.push(t);
                    assert(vistas_tarjetas(r@) =~= antes.push(tv));
                },
                None => {},
            }
        }
        k = k + 1;
    }
    r
}

/// Saca las tarjetas y su dirección de una respuesta `REPORT`.
///
/// La dirección va con la tarjeta porque es lo que la identifica en el
/// servidor: el `UID` de adentro lo escribe quien la creó y puede faltar,
/// estar repetido, o ser el mismo en dos libretas distintas.
pub fn tarjetas_de(xml: &str, base: &str) -> (r: Vec<(String, String)>)
    ensures
        vistas_tarjetas(r@) == tarjetas_de_xml(xml@, base@),
{
    match analizar_xml(xml) {
        None => Vec::new(),
        Some(ns) => tarjetas_de_nodos(&ns, base),
    }
}

// ---------------------------------------------------------------------------
// Los pedidos
// ---------------------------------------------------------------------------

/// El cuerpo del `PROPFIND` que pide las libretas.
pub open spec fn cuerpo_propfind() -> Seq<char> {
    "<?xml version=\"1.0\" encoding=\"utf-8\"?>\n<d:propfind xmlns:d=\"DAV:\" xmlns:c=\"urn:ietf:params:xml:ns:carddav\">\n  <d:prop><d:resourcetype/><d:displayname/></d:prop>\n</d:propfind>"@
}

/// El cuerpo del `REPORT` que pide todas las tarjetas de una libreta.
pub open spec fn cuerpo_report() -> Seq<char> {
    "<?xml version=\"1.0\" encoding=\"utf-8\"?>\n<c:addressbook-query xmlns:d=\"DAV:\" xmlns:c=\"urn:ietf:params:xml:ns:carddav\">\n  <d:prop><d:getetag/><c:address-data/></d:prop>\n</c:addressbook-query>"@
}

/// El cuerpo del `PROPFIND` que pide las libretas.
pub fn consulta_de_libretas() -> (r: String)
    ensures
        r@ == cuerpo_propfind(),
{
    "<?xml version=\"1.0\" encoding=\"utf-8\"?>\n<d:propfind xmlns:d=\"DAV:\" xmlns:c=\"urn:ietf:params:xml:ns:carddav\">\n  <d:prop><d:resourcetype/><d:displayname/></d:prop>\n</d:propfind>".to_owned()
}

/// El cuerpo del `REPORT` que pide todas las tarjetas de una libreta.
pub fn consulta_de_tarjetas() -> (r: String)
    ensures
        r@ == cuerpo_report(),
{
    "<?xml version=\"1.0\" encoding=\"utf-8\"?>\n<c:addressbook-query xmlns:d=\"DAV:\" xmlns:c=\"urn:ietf:params:xml:ns:carddav\">\n  <d:prop><d:getetag/><c:address-data/></d:prop>\n</c:addressbook-query>".to_owned()
}

/// La codificación base64 estándar (con relleno) de unos bytes.
pub uninterp spec fn base64_estandar(bytes: Seq<u8>) -> Seq<char>;

/// `base64::engine::general_purpose::STANDARD.encode`: se afirma que el
/// texto es el nombrado para esos bytes; el alfabeto y el relleno no se
/// escriben aquí.
#[verifier::external_body]
fn codificar_base64(bytes: &[u8]) -> (r: String)
    ensures
        r@ == base64_estandar(bytes@),
{
    base64::engine::general_purpose::STANDARD.encode(bytes)
}

/// La cabecera `Authorization` de la autenticación básica: «Basic » y el
/// base64 de `usuario:secreto` en UTF-8.
pub fn cabecera_basica(usuario: &str, secreto: &str) -> (r: String)
    ensures
        r@ == "Basic "@ + base64_estandar(encode_utf8(usuario@ + ":"@ + secreto@)),
{
    let mut credencial = a_chars(usuario);
    agregar_chars(&mut credencial, &a_chars(":"));
    agregar_chars(&mut credencial, &a_chars(secreto));
    let bytes = bytes_de(&credencial);
    let codificada = codificar_base64(&bytes);
    let mut r = a_chars("Basic ");
    agregar_chars(&mut r, &a_chars(codificada.as_str()));
    a_string(&r)
}

} // verus!

verus! {

// ---------------------------------------------------------------------------
// Las respuestas
// ---------------------------------------------------------------------------

/// Tope de lo que se lee de una respuesta: dieciséis megabytes. Una agenda
/// de mil contactos son unos pocos, y esto corta a un servidor que devuelve
/// basura antes de que la memoria de la ventana crezca sin freno.
pub const MAX_CUERPO: usize = 16777216;

/// Lo que dice el estado de una respuesta.
#[derive(Debug, Clone, Copy, PartialEq, Eq)]
pub enum Estado {
    /// 2xx: se lee el cuerpo.
    Exito,
    /// 401: el servidor rechazó el usuario o la contraseña.
    NoAutorizado,
    /// Cualquier otro.
    Fallo,
}

/// Qué hacer con una respuesta según su código de estado.
pub fn estado_de(codigo: u16) -> (r: Estado)
    ensures
        codigo == 401 ==> r == Estado::NoAutorizado,
        codigo != 401 && 200 <= codigo <= 299 ==> r == Estado::Exito,
        codigo != 401 && !(200 <= codigo <= 299) ==> r == Estado::Fallo,
{
    if codigo == 401 {
        Estado::NoAutorizado
    } else if 200 <= codigo && codigo <= 299 {
        Estado::Exito
    } else {
        Estado::Fallo
    }
}

/// Lo que se le dice a la persona cuando el servidor rechaza la credencial.
pub open spec fn aviso_no_autorizado() -> Seq<char> {
    "el servidor rechazó el usuario o la contraseña. Volvé a conectar la cuenta desde Configuración"@
}

pub fn mensaje_no_autorizado() -> (r: String)
    ensures
        r@ == aviso_no_autorizado(),
{
    "el servidor rechazó el usuario o la contraseña. Volvé a conectar la cuenta desde Configuración".to_owned()
}

/// Lo que se le dice a la persona cuando la respuesta pasa del tope.
pub open spec fn aviso_excedido() -> Seq<char> {
    "el servidor mandó más de 16777216 bytes, que es lo que se lee de una vez"@
}

/// El texto que da `String::from_utf8_lossy` de unos bytes: lo que
/// codifican, con U+FFFD en lugar de cada secuencia que no es UTF-8 válido.
pub uninterp spec fn texto_con_reemplazo(bytes: Seq<u8>) -> Seq<char>;

/// `String::from_utf8_lossy`: el texto es el nombrado para esos bytes; si
/// los bytes son UTF-8 válido, es el que codifican. Cómo se reemplazan las
/// secuencias inválidas no se escribe aquí.
#[verifier::external_body]
fn texto_con_reemplazos(bytes: &[u8]) -> (r: String)
    ensures
        r@ == texto_con_reemplazo(bytes@),
        valid_utf8(bytes@) ==> r@ == decode_utf8(bytes@),
{
    String::from_utf8_lossy(bytes).into_owned()
}

/// El cuerpo de una respuesta, leído por trozos **y cortando en el momento**:
/// leer todo y medir después es enterarse del problema cuando ya pasó.
pub struct Cuerpo {
    bytes: Vec<u8>,
}

impl View for Cuerpo {
    type V = Seq<u8>;

    closed spec fn view(&self) -> Seq<u8> {
        self.bytes@
    }
}

impl Cuerpo {
    /// Lo leído nunca pasa del tope.
    #[verifier::type_invariant]
    spec fn dentro_del_tope(&self) -> bool {
        self.bytes@.len() <= MAX_CUERPO
    }

    /// Un cuerpo sin nada leído.
    pub fn nuevo() -> (r: Cuerpo)
        ensures
            r@ == Seq::<u8>::empty(),
    {
        Cuerpo { bytes: Vec::new() }
    }

    /// Agrega un trozo, o lo rechaza con el aviso si con él se pasaría del
    /// tope; en ese caso lo leído queda como estaba.
    pub fn recibir(&mut self, trozo: &[u8]) -> (r: Result<(), String>)
        ensures
            old(self)@.len() + trozo@.len() <= MAX_CUERPO ==> r is Ok && final(self)@ == old(self)@
                + trozo@,
            old(self)@.len() + trozo@.len() > MAX_CUERPO ==> (r matches Err(m) && m@
                == aviso_excedido()) && final(self)@ == old(self)@,
            final(self)@.len() <= MAX_CUERPO,
    {
        proof {
            use_type_invariant(&*self);
        }
        if trozo.len() > MAX_CUERPO - self.bytes.len() {
            return Err(a_string(&a_chars(
                "el servidor mandó más de 16777216 bytes, que es lo que se lee de una vez",
            )));
        }
        let mut bytes: Vec<u8> = Vec::new();
        std::mem::swap(&mut bytes, &mut self.bytes);
        let mut i: usize = 0;
        while i < trozo.len()
            invariant
                i <= trozo@.len(),
                bytes@ == old(self)@ + trozo@.take(i as int),
            decreases trozo@.len() - i,
        {
            bytes.push(trozo[i]);
            i = i + 1;
            assert(bytes@ == old(self)@ + trozo@.take(i as int));
        }
        assert(trozo@.take(trozo@.len() as int) == trozo@);
        self.bytes = bytes;
        Ok(())
    }

    /// El texto del cuerpo; lo que no es UTF-8 válido sale con el carácter de
    /// reemplazo.
    pub fn texto(&self) -> (r: String)
        ensures
            r@ == texto_con_reemplazo(self@),
            valid_utf8(self@) ==> r@ == decode_utf8(self@),
    {
        texto_con_reemplazos(self.bytes.as_slice())
    }
}

} // verus!

verus! {

// ---------------------------------------------------------------------------
// De la respuesta a los contactos
// ---------------------------------------------------------------------------

pub open spec fn vistas_contactos(cs: Seq<Contacto>) -> Seq<crate::vcard::contacto::ContactoVista> {
    cs.map_values(|c: Contacto| c@)
}

/// Los contactos de unas tarjetas sueltas, todas con la misma dirección:
/// las que no tienen nada que mostrar no dan contacto, y tampoco una que
/// pase el tope de tamaño.
pub open spec fn contactos_de_textos(ts: Seq<Seq<char>>, url: Seq<char>) -> Seq<
    crate::vcard::contacto::ContactoVista,
>
    decreases ts.len(),
{
    if ts.len() == 0 {
        Seq::<crate::vcard::contacto::ContactoVista>::empty()
    } else {
        let antes = contactos_de_textos(ts.drop_last(), url);
        if dentro_del_tope(ts.last()) {
            match crate::vcard::contacto::contacto_de_tarjeta(ts.last(), url) {
                Some(c) => antes.push(c),
                None => antes,
            }
        } else {
            antes
        }
    }
}

/// Los contactos de las tarjetas de una respuesta: un bloque puede traer
/// varias tarjetas pegadas, y cada una sale con la dirección de su bloque.
pub open spec fn contactos_de_tarjetas(tj: Seq<TarjetaVista>) -> Seq<
    crate::vcard::contacto::ContactoVista,
>
    decreases tj.len(),
{
    if tj.len() == 0 {
        Seq::<crate::vcard::contacto::ContactoVista>::empty()
    } else {
        contactos_de_tarjetas(tj.drop_last()) + contactos_de_textos(
            crate::vcard::lineas::tarjetas_separadas(tj.last().datos),
            tj.last().url,
        )
    }
}

fn contactos_de_textos_exec(ts: &Vec<String>, url: &str) -> (r: Vec<Contacto>)
    ensures
        vistas_contactos(r@) == contactos_de_textos(crate::cadena::vistas_string(ts@), url@),
{
    let ghost v = crate::cadena::vistas_string(ts@);
    let mut r: Vec<Contacto> = Vec::new();
    let mut i: usize = 0;
    while i < ts.len()
        invariant
            i <= ts@.len(),
            v == crate::cadena::vistas_string(ts@),
            vistas_contactos(r@) == contactos_de_textos(v.take(i as int), url@),
        decreases ts@.len() - i,
    {
        assert(v.take(i + 1).drop_last() == v.take(i as int));
        assert(v.take(i + 1).last() == ts@[i as int]@);
        if ts[i].as_str().unicode_len() <= usize::MAX / 16 {
            match contacto_de(ts[i].as_str(), url) {
                Some(c) => {
                    let ghost antes = vistas_contactos(r@);
                    let ghost cv = c@;
                    r.push(c);
                    assert(vistas_contactos(r@) =~= antes.push(cv));
                },
                None => {},
            }
        }
        i = i + 1;
    }
    assert(v.take(ts@.len() as int) == v);
    r
}

/// Todos los contactos de una respuesta `REPORT` a la libreta `libreta`.
pub fn contactos_de_respuesta(xml: &str, libreta: &str) -> (r: Vec<Contacto>)
    ensures
        vistas_contactos(r@) == contactos_de_tarjetas(tarjetas_de_xml(xml@, libreta@)),
{
    let tarjetas = tarjetas_de(xml, libreta);
    let ghost tv = vistas_tarjetas(tarjetas@);
    let mut r: Vec<Contacto> = Vec::new();
    let mut i: usize = 0;
    while i < tarjetas.len()
        invariant
            i <= tarjetas@.len(),
            tv == vistas_tarjetas(tarjetas@),
            tv == tarjetas_de_xml(xml@, libreta@),
            vistas_contactos(r@) == contactos_de_tarjetas(tv.take(i as int)),
        decreases tarjetas@.len() - i,
    {
        assert(tv.take(i + 1).drop_last() == tv.take(i as int));
        assert(tv.take(i + 1).last() == tv[i as int]);
        let sueltas = crate::vcard::lineas::tarjetas_de(tarjetas[i].1.as_str());
        let mut nuevos = contactos_de_textos_exec(&sueltas, tarjetas[i].0.as_str());
        let ghost antes = r@;
        let ghost agregados = nuevos@;
        r.append(&mut nuevos);
        assert(r@ == antes + agregados);
        assert(vistas_contactos(r@) =~= vistas_contactos(antes) + vistas_contactos(agregados));
        i = i + 1;
    }
    assert(tv.take(tarjetas@.len() as int) == tv);
    r
}

} // verus!

verus! {

// ---------------------------------------------------------------------------
// Leyes
// ---------------------------------------------------------------------------

/// Una libreta como se muestra: con nombre, y con una dirección que sale de
/// resolver contra la carpeta lo que dijo el servidor.
pub open spec fn libreta_mostrable(l: LibretaVista, base: Seq<char>) -> bool {
    &&& l.nombre.len() > 0
    &&& exists|href: Seq<char>| url_unida(base, href) == Some(l.url)
}

proof fn lema_libretas_mostrables(ns: Seq<NodoVista>, k: int, base: Seq<char>)
    ensures
        forall|j: int|
            0 <= j < libretas_hasta(ns, k, base).len() ==> libreta_mostrable(
                #[trigger] libretas_hasta(ns, k, base)[j],
                base,
            ),
    decreases k,
{
    reveal_strlit("Contactos");
    if k > 0 {
        lema_libretas_mostrables(ns, k - 1, base);
        let antes = libretas_hasta(ns, k - 1, base);
        if tiene_etiqueta(ns[k - 1], ns_dav(), "response"@) {
            match libreta_en(ns, k - 1, base) {
                Some(l) => {
                    let f = fin_de(ns, k - 1);
                    let href = texto_del_primero(ns, k - 1, f, ns_dav(), "href"@)->0;
                    assert(url_unida(base, recortar(href)) == Some(l.url));
                    assert(libreta_mostrable(l, base));
                    assert forall|j: int| 0 <= j < antes.push(l).len() implies libreta_mostrable(
                        #[trigger] antes.push(l)[j],
                        base,
                    ) by {
                        if j < antes.len() {
                            assert(antes.push(l)[j] == antes[j]);
                        }
                    }
                },
                None => {},
            }
        }
    }
}

/// Una libreta sin nombre igual se muestra (se llama «Contactos»), y toda
/// libreta listada tiene la dirección que resulta de resolver un `href`
/// contra la carpeta: nunca se lista algo a lo que no se puede volver.
pub proof fn ley_libretas(xml: Seq<char>, base: Seq<char>)
    ensures
        forall|j: int|
            0 <= j < libretas_de_xml(xml, base).len() ==> libreta_mostrable(
                #[trigger] libretas_de_xml(xml, base)[j],
                base,
            ),
{
    match nodos_de_xml(xml) {
        Some(ns) => lema_libretas_mostrables(ns, ns.len() as int, base),
        None => {},
    }
}

/// Lo que no es XML bien formado no da nada: ni libretas, ni tarjetas, ni
/// contactos.
pub proof fn ley_xml_roto(xml: Seq<char>, base: Seq<char>)
    ensures
        nodos_de_xml(xml) is None ==> libretas_de_xml(xml, base).len() == 0 && tarjetas_de_xml(
            xml,
            base,
        ).len() == 0 && contactos_de_tarjetas(tarjetas_de_xml(xml, base)).len() == 0,
{
}

proof fn lema_primero_con_tramo(
    ns: Seq<NodoVista>,
    i: int,
    f: int,
    d: int,
    h: int,
    espacio: Seq<char>,
    nombre: Seq<char>,
)
    requires
        0 <= i <= d <= h <= f <= ns.len(),
    ensures
        primero_con(ns, d, h, espacio, nombre) == match primero_con(
            ns.subrange(i, f),
            d - i,
            h - i,
            espacio,
            nombre,
        ) {
            Some(k) => Some(k + i),
            None => None::<int>,
        },
    decreases h - d,
{
    if d < h {
        assert(ns.subrange(i, f)[d - i] == ns[d]);
        lema_primero_con_tramo(ns, i, f, d + 1, h, espacio, nombre);
    }
}

proof fn lema_texto_del_primero_tramo(
    ns: Seq<NodoVista>,
    i: int,
    f: int,
    espacio: Seq<char>,
    nombre: Seq<char>,
)
    requires
        0 <= i <= f <= ns.len(),
    ensures
        texto_del_primero(ns, i, f, espacio, nombre) == texto_del_primero(
            ns.subrange(i, f),
            0,
            f - i,
            espacio,
            nombre,
        ),
        primero_con(ns, i, f, espacio, nombre) is None <==> primero_con(
            ns.subrange(i, f),
            0,
            f - i,
            espacio,
            nombre,
        ) is None,
{
    lema_primero_con_tramo(ns, i, f, i, f, espacio, nombre);
    let sub = ns.subrange(i, f);
    match primero_con(sub, 0, f - i, espacio, nombre) {
        Some(k) => {
            lema_primero_con(sub, 0, f - i, espacio, nombre);
            assert(sub[k] == ns[k + i]);
        },
        None => {},
    }
}

/// Lo que describe una respuesta sale sólo de lo que hay adentro de ella:
/// la libreta y la tarjeta de la respuesta que empieza en el nodo `i` son
/// las mismas que si el documento fuera sólo esa respuesta. Lo que traen las
/// otras respuestas (su nombre, sus datos) no se cuela.
pub proof fn ley_respuesta_local(ns: Seq<NodoVista>, i: int, base: Seq<char>)
    requires
        0 <= i < ns.len(),
    ensures
        libreta_en(ns, i, base) == libreta_en(ns.subrange(i, fin_de(ns, i)), 0, base),
        tarjeta_en(ns, i, base) == tarjeta_en(ns.subrange(i, fin_de(ns, i)), 0, base),
{
    let f = fin_de(ns, i);
    let sub = ns.subrange(i, f);
    if f > i {
        assert(sub[0] == ns[i]);
    }
    assert(fin_de(sub, 0) == f - i);
    lema_texto_del_primero_tramo(ns, i, f, ns_carddav(), "addressbook"@);
    lema_texto_del_primero_tramo(ns, i, f, ns_dav(), "href"@);
    lema_texto_del_primero_tramo(ns, i, f, ns_dav(), "displayname"@);
    lema_texto_del_primero_tramo(ns, i, f, ns_carddav(), "address-data"@);
}

proof fn lema_primero_con_ninguno(
    ns: Seq<NodoVista>,
    d: int,
    h: int,
    espacio: Seq<char>,
    nombre: Seq<char>,
)
    requires
        forall|k: int| d <= k < h ==> !tiene_etiqueta(#[trigger] ns[k], espacio, nombre),
    ensures
        primero_con(ns, d, h, espacio, nombre) is None,
    decreases h - d,
{
    if d < h {
        lema_primero_con_ninguno(ns, d + 1, h, espacio, nombre);
    }
}

proof fn lema_primero_con_es(
    ns: Seq<NodoVista>,
    d: int,
    h: int,
    espacio: Seq<char>,
    nombre: Seq<char>,
)
    ensures
        primero_con(ns, d, h, espacio, nombre) matches Some(k) ==> tiene_etiqueta(ns[k], espacio, nombre),
    decreases h - d,
{
    if d < h {
        lema_primero_con_es(ns, d + 1, h, espacio, nombre);
    }
}

/// Una libreta cuya respuesta no tiene adentro ningún `displayname` se
/// llama «Contactos», digan lo que digan las demás respuestas.
pub proof fn ley_libreta_sin_nombre(ns: Seq<NodoVista>, i: int, base: Seq<char>)
    requires
        0 <= i < ns.len(),
        forall|k: int| i <= k < fin_de(ns, i) ==> !tiene_etiqueta(#[trigger] ns[k], ns_dav(), "displayname"@),
    ensures
        libreta_en(ns, i, base) matches Some(l) ==> l.nombre == "Contactos"@,
{
    lema_primero_con_ninguno(ns, i, fin_de(ns, i), ns_dav(), "displayname"@);
}

/// Cada tarjeta sale del `address-data` de su propia respuesta: una
/// respuesta sin `address-data` adentro no da tarjeta, y los datos de la
/// que sí da son el texto de un `address-data` que está adentro de ella.
pub proof fn ley_tarjeta_de_su_respuesta(ns: Seq<NodoVista>, i: int, base: Seq<char>)
    requires
        0 <= i < ns.len(),
    ensures
        (forall|k: int| i <= k < fin_de(ns, i) ==> !tiene_etiqueta(
            #[trigger] ns[k],
            ns_carddav(),
            "address-data"@,
        )) ==> tarjeta_en(ns, i, base) is None,
        tarjeta_en(ns, i, base) matches Some(t) ==> exists|k: int|
            i <= k < fin_de(ns, i) && tiene_etiqueta(#[trigger] ns[k], ns_carddav(), "address-data"@)
                && ns[k].texto == Some(t.datos),
{
    let f = fin_de(ns, i);
    if forall|k: int| i <= k < f ==> !tiene_etiqueta(#[trigger] ns[k], ns_carddav(), "address-data"@) {
        lema_primero_con_ninguno(ns, i, f, ns_carddav(), "address-data"@);
    }
    lema_primero_con(ns, i, f, ns_carddav(), "address-data"@);
    lema_primero_con_es(ns, i, f, ns_carddav(), "address-data"@);
    match primero_con(ns, i, f, ns_carddav(), "address-data"@) {
        Some(k) => {
            if let Some(t) = tarjeta_en(ns, i, base) {
                assert(ns[k].texto == Some(t.datos));
            }
        },
        None => {},
    }
}

/// Cuántas respuestas, entre los primeros `k` nodos, traen adentro un
/// `address-data` con texto.
pub open spec fn respuestas_con_datos(ns: Seq<NodoVista>, k: int) -> nat
    decreases k,
{
    if k <= 0 {
        0
    } else {
        respuestas_con_datos(ns, k - 1) + if tiene_etiqueta(ns[k - 1], ns_dav(), "response"@)
            && texto_del_primero(ns, k - 1, fin_de(ns, k - 1), ns_carddav(), "address-data"@) is Some {
            1nat
        } else {
            0nat
        }
    }
}

/// Una tarjeta por cada respuesta que trae adentro un `address-data` con
/// texto, ni una más ni una menos, y cada tarjeta es la de alguna de esas
/// respuestas.
pub proof fn ley_una_tarjeta_por_respuesta(ns: Seq<NodoVista>, k: int, base: Seq<char>)
    requires
        0 <= k <= ns.len(),
    ensures
        tarjetas_hasta(ns, k, base).len() == respuestas_con_datos(ns, k),
        forall|j: int|
            #![trigger tarjetas_hasta(ns, k, base)[j]]
            0 <= j < tarjetas_hasta(ns, k, base).len() ==> exists|m: int|
                #![trigger tiene_etiqueta(ns[m], ns_dav(), "response"@)]
                0 <= m < k && tiene_etiqueta(ns[m], ns_dav(), "response"@) && tarjeta_en(
                    ns,
                    m,
                    base,
                ) == Some(tarjetas_hasta(ns, k, base)[j]),
    decreases k,
{
    if k > 0 {
        ley_una_tarjeta_por_respuesta(ns, k - 1, base);
        let antes = tarjetas_hasta(ns, k - 1, base);
        let r = tarjetas_hasta(ns, k, base);
        assert forall|j: int| #![trigger r[j]] 0 <= j < r.len() implies exists|m: int|
            #![trigger tiene_etiqueta(ns[m], ns_dav(), "response"@)]
                #![trigger tiene_etiqueta(ns[m], ns_dav(), "response"@)]
            0 <= m < k && tiene_etiqueta(ns[m], ns_dav(), "response"@) && tarjeta_en(
                ns,
                m,
                base,
            ) == Some(r[j]) by {
            if j < antes.len() {
                assert(r[j] == antes[j]);
                let m = choose|m: int|
                    #![trigger tiene_etiqueta(ns[m], ns_dav(), "response"@)]
                    0 <= m < k - 1 && tiene_etiqueta(ns[m], ns_dav(), "response"@) && tarjeta_en(
                        ns,
                        m,
                        base,
                    ) == Some(antes[j]);
                assert(tarjeta_en(ns, m, base) == Some(r[j]));
            } else {
                assert(tarjeta_en(ns, k - 1, base) == Some(r[j]));
            }
        }
    }
}

/// Lo mismo para las libretas: cada libreta listada es la de alguna
/// respuesta, y la cantidad es la de respuestas que describen una libreta.
pub open spec fn respuestas_con_libreta(ns: Seq<NodoVista>, k: int, base: Seq<char>) -> nat
    decreases k,
{
    if k <= 0 {
        0
    } else {
        respuestas_con_libreta(ns, k - 1, base) + if tiene_etiqueta(ns[k - 1], ns_dav(), "response"@)
            && libreta_en(ns, k - 1, base) is Some {
            1nat
        } else {
            0nat
        }
    }
}

/// Una libreta por cada respuesta que describe una, en orden de aparición.
pub proof fn ley_una_libreta_por_respuesta(ns: Seq<NodoVista>, k: int, base: Seq<char>)
    requires
        0 <= k <= ns.len(),
    ensures
        libretas_hasta(ns, k, base).len() == respuestas_con_libreta(ns, k, base),
        forall|j: int|
            #![trigger libretas_hasta(ns, k, base)[j]]
            0 <= j < libretas_hasta(ns, k, base).len() ==> exists|m: int|
                #![trigger tiene_etiqueta(ns[m], ns_dav(), "response"@)]
                0 <= m < k && tiene_etiqueta(ns[m], ns_dav(), "response"@) && libreta_en(
                    ns,
                    m,
                    base,
                ) == Some(libretas_hasta(ns, k, base)[j]),
    decreases k,
{
    if k > 0 {
        ley_una_libreta_por_respuesta(ns, k - 1, base);
        let antes = libretas_hasta(ns, k - 1, base);
        let r = libretas_hasta(ns, k, base);
        assert forall|j: int| #![trigger r[j]] 0 <= j < r.len() implies exists|m: int|
            #![trigger tiene_etiqueta(ns[m], ns_dav(), "response"@)]
                #![trigger tiene_etiqueta(ns[m], ns_dav(), "response"@)]
            0 <= m < k && tiene_etiqueta(ns[m], ns_dav(), "response"@) && libreta_en(
                ns,
                m,
                base,
            ) == Some(r[j]) by {
            if j < antes.len() {
                assert(r[j] == antes[j]);
                let m = choose|m: int|
                    #![trigger tiene_etiqueta(ns[m], ns_dav(), "response"@)]
                    0 <= m < k - 1 && tiene_etiqueta(ns[m], ns_dav(), "response"@) && libreta_en(
                        ns,
                        m,
                        base,
                    ) == Some(antes[j]);
                assert(libreta_en(ns, m, base) == Some(r[j]));
            } else {
                assert(libreta_en(ns, k - 1, base) == Some(r[j]));
            }
        }
    }
}

} // verus!
