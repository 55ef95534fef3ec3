//! La tarjeta entera: de las líneas a un contacto listo para mostrar.

use vstd::prelude::*;
use vstd::utf8::encode_utf8;
use crate::cadena::{
    a_chars, a_string, ancho, ancho_exec, copia, dentro_del_tope, es_blanco, sin_blancos_finales,
    sin_blancos_iniciales, iguales, iguales_sin_mayusculas,
    iguales_sin_mayusculas_exec, recortar, recortar_vec, tramo, unir, unir_vec, vistas,
};
use crate::vcard::lineas::{lema_largo_lineas, lineas_unidas, unir_lineas_vec};
use crate::vcard::propiedad::{partir_chars, propiedad_de, PropiedadChars, PropiedadVista};
use crate::vcard::valor::{
    campos, campos_de_chars, decodificado_chars, decodificado_de, desescapar, etiqueta,
    etiqueta_de_chars, texto_de_chars,
};

verus! {

/// Cuántas propiedades se leen de una tarjeta. Un contacto real tiene
/// decenas; mil es un archivo armado para hacer trabajar al programa.
pub const MAX_PROPIEDADES: usize = 1000;

/// Tope en bytes de un valor que se muestra. Un nombre de diez mil
/// caracteres no es un nombre: es algo que va a romper la lista al dibujarla.
pub const MAX_VALOR: usize = 4096;

/// Una dirección de correo, un teléfono, o cualquier cosa con una etiqueta.
#[derive(Debug, Clone, Default, PartialEq, Eq)]
pub struct Dato {
    /// «casa», «trabajo», «celular»… tal como lo escribió quien hizo la
    /// tarjeta, en minúsculas. Vacío si no dijo nada.
    pub tipo: String,
    pub valor: String,
}

pub struct DatoVista {
    pub tipo: Seq<char>,
    pub valor: Seq<char>,
}

impl View for Dato {
    type V = DatoVista;

    open spec fn view(&self) -> DatoVista {
        DatoVista { tipo: self.tipo@, valor: self.valor@ }
    }
}

pub open spec fn vistas_datos(v: Seq<Dato>) -> Seq<DatoVista> {
    v.map_values(|d: Dato| d@)
}

/// Un contacto, listo para mostrar.
#[derive(Debug, Clone, Default, PartialEq, Eq)]
pub struct Contacto {
    /// El identificador de la tarjeta dentro de la libreta.
    pub uid: String,
    /// Cómo se llama, para mostrar.
    pub nombre: String,
    /// Para ordenar: «Pérez, Ana» en vez de «Ana Pérez».
    pub orden: String,
    pub correos: Vec<Dato>,
    pub telefonos: Vec<Dato>,
    pub organizacion: String,
    pub notas: String,
    /// La dirección de la tarjeta en el servidor, para volver a buscarla.
    pub url: String,
}

pub struct ContactoVista {
    pub uid: Seq<char>,
    pub nombre: Seq<char>,
    pub orden: Seq<char>,
    pub correos: Seq<DatoVista>,
    pub telefonos: Seq<DatoVista>,
    pub organizacion: Seq<char>,
    pub notas: Seq<char>,
    pub url: Seq<char>,
}

impl View for Contacto {
    type V = ContactoVista;

    open spec fn view(&self) -> ContactoVista {
        ContactoVista {
            uid: self.uid@,
            nombre: self.nombre@,
            orden: self.orden@,
            correos: vistas_datos(self.correos@),
            telefonos: vistas_datos(self.telefonos@),
            organizacion: self.organizacion@,
            notas: self.notas@,
            url: self.url@,
        }
    }
}

// ---------------------------------------------------------------------------
// Recortar un valor desmedido
// ---------------------------------------------------------------------------

/// Cuántos caracteres del principio de `s` entran en `tope` bytes de UTF-8.
pub open spec fn caracteres_que_entran(s: Seq<char>, tope: int) -> nat
    decreases s.len(),
{
    if s.len() == 0 || ancho(s[0]) > tope {
        0
    } else {
        1 + caracteres_que_entran(s.drop_first(), tope - ancho(s[0]))
    }
}

/// Un valor que no rompa la lista al dibujarla: si sus bytes pasan de
/// `MAX_VALOR`, se corta en el último carácter entero que entra y se le
/// agrega «…».
pub open spec fn acotado(s: Seq<char>) -> Seq<char> {
    if encode_utf8(s).len() <= MAX_VALOR {
        s
    } else {
        s.take(caracteres_que_entran(s, MAX_VALOR as int) as int) + seq!['…']
    }
}

proof fn lema_entran(s: Seq<char>, tope: int)
    ensures
        caracteres_que_entran(s, tope) <= s.len(),
        tope >= 0 ==> encode_utf8(s.take(caracteres_que_entran(s, tope) as int)).len() <= tope,
    decreases s.len(),
{
    if s.len() > 0 && ancho(s[0]) <= tope {
        lema_entran(s.drop_first(), tope - ancho(s[0]));
        let k = caracteres_que_entran(s.drop_first(), tope - ancho(s[0]));
        assert(s.take(k as int + 1) =~= seq![s[0]] + s.drop_first().take(k as int));
        crate::cadena::lema_utf8_concat(seq![s[0]], s.drop_first().take(k as int));
        assert(seq![s[0]].drop_first() == Seq::<char>::empty());
        assert(encode_utf8(seq![s[0]]) == vstd::utf8::encode_scalar(s[0] as u32) + encode_utf8(
            Seq::<char>::empty(),
        ));
    } else {
        assert(s.take(0) == Seq::<char>::empty());
    }
}

/// Lo que promete el recorte: nunca pasa de `MAX_VALOR` bytes más los tres
/// de «…», y lo que queda es el principio del valor, sin partir un
/// carácter.
pub proof fn ley_acotado(s: Seq<char>)
    ensures
        encode_utf8(acotado(s)).len() <= MAX_VALOR + 3,
        encode_utf8(s).len() <= MAX_VALOR ==> acotado(s) == s,
        encode_utf8(s).len() > MAX_VALOR ==> acotado(s).last() == '…' && acotado(s).drop_last()
            == s.take(acotado(s).len() - 1),
{
    if encode_utf8(s).len() > MAX_VALOR {
        lema_entran(s, MAX_VALOR as int);
        let k = caracteres_que_entran(s, MAX_VALOR as int);
        crate::cadena::lema_utf8_concat(s.take(k as int), seq!['…']);
        assert(seq!['…'].drop_first() == Seq::<char>::empty());
        assert(('…' as u32) == 0x2026u32);
        assert(vstd::utf8::has_width_3_encoding('…' as u32));
        assert(encode_utf8(seq!['…']) == vstd::utf8::encode_scalar('…' as u32) + encode_utf8(
            Seq::<char>::empty(),
        ));
        assert(encode_utf8(seq!['…']).len() == 3);
        assert((s.take(k as int) + seq!['…']).drop_last() == s.take(k as int));
    }
}

fn recortado(v: &[char]) -> (r: Vec<char>)
    ensures
        r@ == acotado(v@),
{
    let n = v.len();
    // Los bytes del valor, cortando la cuenta apenas pasa el tope.
    let mut bytes: usize = 0;
    let mut i: usize = 0;
    let mut entran: usize = 0;
    let mut queda: usize = MAX_VALOR;
    let mut lleno = false;
    assert(v@.skip(0) == v@);
    while i < n && !lleno
        invariant
            i <= n == v@.len(),
            bytes <= MAX_VALOR + 4,
            entran <= i,
            queda <= MAX_VALOR,
            !lleno ==> entran == i && bytes + queda == MAX_VALOR,
            !lleno ==> encode_utf8(v@).len() == bytes + encode_utf8(v@.skip(i as int)).len(),
            !lleno ==> caracteres_que_entran(v@, MAX_VALOR as int) == entran
                + caracteres_que_entran(v@.skip(i as int), queda as int),
            lleno ==> encode_utf8(v@).len() > MAX_VALOR,
            lleno ==> caracteres_que_entran(v@, MAX_VALOR as int) == entran,
        decreases n - i,
    {
        let ghost resto = v@.skip(i as int);
        assert(resto[0] == v@[i as int]);
        assert(resto.drop_first() == v@.skip(i + 1));
        let a = ancho_exec(v[i]);
        if a > queda {
            proof {
                lema_entran(resto.drop_first(), 0);
                assert(encode_utf8(resto).len() == ancho(v@[i as int]) + encode_utf8(resto.drop_first()).len());
            }
            lleno = true;
        } else {
            assert(encode_utf8(resto) == vstd::utf8::encode_scalar(v@[i as int] as u32) + encode_utf8(resto.drop_first()));
            bytes = bytes + a;
            queda = queda - a;
            entran = entran + 1;
        }
        i = i + 1;
    }
    if !lleno {
        assert(v@.skip(i as int) == Seq::<char>::empty());
        assert(encode_utf8(Seq::<char>::empty()).len() == 0);
        return copia(v);
    }
    let mut r = tramo(v, 0, entran);
    r.push('…');
    assert(v@.subrange(0, entran as int) == v@.take(entran as int));
    r
}

} // verus!

verus! {

// ---------------------------------------------------------------------------
// Especificación de la lectura
// ---------------------------------------------------------------------------

/// El valor de una propiedad listo para mostrar: decodificado y sin escapes.
pub open spec fn legible(p: PropiedadVista) -> Seq<char> {
    desescapar(decodificado_de(p))
}

/// El valor sin el esquema del principio, **sin mirar mayúsculas**
/// (`MailTo:` y `TEL:` valen tanto como los de minúscula).
pub open spec fn sin_el_esquema(v: Seq<char>, esquema: Seq<char>) -> Seq<char> {
    if v.len() >= esquema.len() && iguales_sin_mayusculas(v.take(esquema.len() as int), esquema) {
        v.skip(esquema.len() as int)
    } else {
        v
    }
}

/// La lista con el dato agregado, si el valor no está vacío.
pub open spec fn con_dato(lista: Seq<DatoVista>, parametros: Seq<Seq<char>>, v: Seq<char>) -> Seq<
    DatoVista,
> {
    if v.len() == 0 {
        lista
    } else {
        lista.push(DatoVista { tipo: etiqueta(parametros), valor: acotado(v) })
    }
}

/// Los campos que tienen algo más que blancos, en orden.
pub open spec fn con_contenido(cs: Seq<Seq<char>>) -> Seq<Seq<char>>
    decreases cs.len(),
{
    if cs.len() == 0 {
        cs
    } else {
        let r = con_contenido(cs.drop_last());
        if recortar(cs.last()).len() > 0 {
            r.push(cs.last())
        } else {
            r
        }
    }
}

/// Los que no están vacíos, en orden.
pub open spec fn no_vacios(cs: Seq<Seq<char>>) -> Seq<Seq<char>>
    decreases cs.len(),
{
    if cs.len() == 0 {
        cs
    } else {
        let r = no_vacios(cs.drop_last());
        if cs.last().len() > 0 {
            r.push(cs.last())
        } else {
            r
        }
    }
}

/// Lo que se va leyendo de una tarjeta: el contacto y el nombre
/// estructurado (`N`).
pub struct Lectura {
    pub contacto: ContactoVista,
    pub estructurado: Seq<Seq<char>>,
}

/// Un contacto sin nada más que su dirección.
pub open spec fn contacto_vacio(url: Seq<char>) -> ContactoVista {
    ContactoVista {
        uid: Seq::<char>::empty(),
        nombre: Seq::<char>::empty(),
        orden: Seq::<char>::empty(),
        correos: Seq::<DatoVista>::empty(),
        telefonos: Seq::<DatoVista>::empty(),
        organizacion: Seq::<char>::empty(),
        notas: Seq::<char>::empty(),
        url,
    }
}

/// Lo que hace cada propiedad con lo leído. Las que no se conocen no hacen
/// nada; una repetida pisa a la anterior, salvo los correos y los teléfonos,
/// que se acumulan.
pub open spec fn aplicar(e: Lectura, p: PropiedadVista) -> Lectura {
    let c = e.contacto;
    if p.nombre == "UID"@ {
        Lectura { contacto: ContactoVista { uid: acotado(legible(p)), ..c }, ..e }
    } else if p.nombre == "FN"@ {
        Lectura { contacto: ContactoVista { nombre: acotado(legible(p)), ..c }, ..e }
    } else if p.nombre == "N"@ {
        Lectura { estructurado: campos(decodificado_de(p)), ..e }
    } else if p.nombre == "EMAIL"@ {
        let v = recortar(sin_el_esquema(legible(p), "mailto:"@));
        Lectura { contacto: ContactoVista { correos: con_dato(c.correos, p.parametros, v), ..c }, ..e }
    } else if p.nombre == "TEL"@ {
        let v = recortar(sin_el_esquema(legible(p), "tel:"@));
        Lectura { contacto: ContactoVista { telefonos: con_dato(c.telefonos, p.parametros, v), ..c }, ..e }
    } else if p.nombre == "ORG"@ {
        let org = acotado(unir(con_contenido(campos(decodificado_de(p))), ", "@));
        Lectura { contacto: ContactoVista { organizacion: org, ..c }, ..e }
    } else if p.nombre == "NOTE"@ {
        Lectura { contacto: ContactoVista { notas: acotado(legible(p)), ..c }, ..e }
    } else {
        e
    }
}

/// Lo leído de unas líneas; las que no son propiedades se saltean.
pub open spec fn leer_lineas(ls: Seq<Seq<char>>, url: Seq<char>) -> Lectura
    decreases ls.len(),
{
    if ls.len() == 0 {
        Lectura { contacto: contacto_vacio(url), estructurado: Seq::<Seq<char>>::empty() }
    } else {
        let e = leer_lineas(ls.drop_last(), url);
        match propiedad_de(ls.last()) {
            Some(p) => aplicar(e, p),
            None => e,
        }
    }
}

/// Un campo del nombre estructurado, recortado; vacío si no está.
pub open spec fn campo(cs: Seq<Seq<char>>, i: int) -> Seq<char> {
    if 0 <= i < cs.len() {
        recortar(cs[i])
    } else {
        Seq::<char>::empty()
    }
}

/// «Sra. Ana María Pérez» a partir del `N`, que trae apellido, nombre,
/// segundos nombres, tratamiento y sufijo.
pub open spec fn para_mostrar(cs: Seq<Seq<char>>) -> Seq<char> {
    unir(no_vacios(seq![campo(cs, 3), campo(cs, 1), campo(cs, 2), campo(cs, 0), campo(cs, 4)]), " "@)
}

/// «Pérez, Ana»; sin nombre de pila, el apellido; sin apellido, lo que se
/// muestra.
pub open spec fn para_ordenar(cs: Seq<Seq<char>>, mostrar: Seq<char>) -> Seq<char> {
    let apellido = campo(cs, 0);
    let nombre = campo(cs, 1);
    if apellido.len() > 0 && nombre.len() > 0 {
        apellido + ", "@ + nombre
    } else if apellido.len() > 0 {
        apellido
    } else {
        mostrar
    }
}

/// El contacto terminado: sin `FN` el nombre se arma con el `N` (con el
/// mismo tope que cualquier valor que se muestra), y la clave
/// de orden sale del `N` o, si no hay apellido, del nombre.
pub open spec fn terminar(e: Lectura) -> ContactoVista {
    let c = e.contacto;
    let nombre = if recortar(c.nombre).len() == 0 {
        acotado(para_mostrar(e.estructurado))
    } else {
        c.nombre
    };
    ContactoVista { nombre, orden: para_ordenar(e.estructurado, nombre), ..c }
}

/// Hay algo que mostrar: un nombre, un correo o un teléfono.
pub open spec fn hay_algo(c: ContactoVista) -> bool {
    recortar(c.nombre).len() > 0 || c.correos.len() > 0 || c.telefonos.len() > 0
}

/// Las líneas que se leen: las primeras `MAX_PROPIEDADES`.
pub open spec fn lineas_leidas(t: Seq<char>) -> Seq<Seq<char>> {
    let ls = lineas_unidas(t);
    if ls.len() <= MAX_PROPIEDADES {
        ls
    } else {
        ls.take(MAX_PROPIEDADES as int)
    }
}

/// El contacto de una tarjeta, o `None` si no hay nada que mostrar.
pub open spec fn contacto_de_tarjeta(t: Seq<char>, url: Seq<char>) -> Option<ContactoVista> {
    let c = terminar(leer_lineas(lineas_leidas(t), url));
    if hay_algo(c) {
        Some(c)
    } else {
        None
    }
}

} // verus!

verus! {

// ---------------------------------------------------------------------------
// Implementación
// ---------------------------------------------------------------------------

/// Saca el esquema de un valor, **sin mirar mayúsculas**.
fn sin_esquema(valor: &[char], esquema: &[char]) -> (r: Vec<char>)
    ensures
        r@ == sin_el_esquema(valor@, esquema@),
{
    let n = valor.len();
    let m = esquema.len();
    if n >= m {
        let cabeza = tramo(valor, 0, m);
        assert(valor@.subrange(0, m as int) == valor@.take(m as int));
        if iguales_sin_mayusculas_exec(&cabeza, esquema) {
            assert(valor@.subrange(m as int, n as int) == valor@.skip(m as int));
            return tramo(valor, m, n);
        }
    }
    copia(valor)
}

/// Agrega el dato a la lista, si el valor no está vacío.
fn agregar(destino: &mut Vec<Dato>, parametros: &Vec<Vec<char>>, valor: Vec<char>)
    ensures
        vistas_datos(final(destino)@) == con_dato(vistas_datos(old(destino)@), vistas(parametros@), valor@),
{
    if valor.len() == 0 {
        return;
    }
    let tipo = etiqueta_de_chars(parametros);
    let cortado = recortado(&valor);
    let ghost antes = vistas_datos(destino@);
    let dato = Dato { tipo: a_string(&tipo), valor: a_string(&cortado) };
    destino.push(dato);
    assert(vistas_datos(destino@) =~= antes.push(dato@));
}

/// Los campos con algo más que blancos.
fn con_contenido_exec(cs: &Vec<Vec<char>>) -> (r: Vec<Vec<char>>)
    ensures
        vistas(r@) == con_contenido(vistas(cs@)),
{
    let ghost v = vistas(cs@);
    let mut r: Vec<Vec<char>> = Vec::new();
    let mut i: usize = 0;
    while i < cs.len()
        invariant
            i <= cs@.len(),
            v == vistas(cs@),
            vistas(r@) == con_contenido(v.take(i as int)),
        decreases cs@.len() - i,
    {
        assert(v.take(i + 1).drop_last() == v.take(i as int));
        assert(v.take(i + 1).last() == cs@[i as int]@);
        let (a, b) = crate::cadena::limites_recortados(cs[i].as_slice());
        if a < b {
            let ghost antes = vistas(r@);
            let x = copia(cs[i].as_slice());
            r.push(x);
            assert(vistas(r@) =~= antes.push(x@));
        }
        i = i + 1;
    }
    assert(v.take(cs@.len() as int) == v);
    r
}

fn campo_exec(cs: &Vec<Vec<char>>, i: usize) -> (r: Vec<char>)
    ensures
        r@ == campo(vistas(cs@), i as int),
{
    if i < cs.len() {
        recortar_vec(cs[i].as_slice())
    } else {
        Vec::new()
    }
}

/// Arma «Ana Pérez» a partir del `N`, que viene al revés y por partes.
///
/// El orden del campo es apellido, nombre, segundos nombres, tratamiento y
/// sufijo. Mostrarlo tal cual daría «Pérez;Ana;;Sra.;».
fn nombre_para_mostrar(cs: &Vec<Vec<char>>) -> (r: Vec<char>)
    ensures
        r@ == para_mostrar(vistas(cs@)),
{
    let ghost v = vistas(cs@);
    let orden: [usize; 5] = [3, 1, 2, 0, 4];
    let ghost todos = seq![campo(v, 3), campo(v, 1), campo(v, 2), campo(v, 0), campo(v, 4)];
    let mut partes: Vec<Vec<char>> = Vec::new();
    let mut k: usize = 0;
    while k < 5
        invariant
            k <= 5,
            v == vistas(cs@),
            orden@ == seq![3usize, 1usize, 2usize, 0usize, 4usize],
            todos == seq![campo(v, 3), campo(v, 1), campo(v, 2), campo(v, 0), campo(v, 4)],
            vistas(partes@) == no_vacios(todos.take(k as int)),
        decreases 5 - k,
    {
        let c = campo_exec(cs, orden[k]);
        assert(c@ == todos[k as int]);
        assert(todos.take(k + 1).drop_last() == todos.take(k as int));
        assert(todos.take(k + 1).last() == todos[k as int]);
        if c.len() > 0 {
            let ghost antes = vistas(partes@);
            partes.push(c);
            assert(vistas(partes@) =~= antes.push(todos[k as int]));
        }
        k = k + 1;
    }
    assert(todos.take(5) == todos);
    unir_vec(&partes, &a_chars(" "))
}

/// «Pérez, Ana»: cómo se busca a alguien en una agenda.
fn nombre_para_ordenar(cs: &Vec<Vec<char>>, para_mostrar_: &[char]) -> (r: Vec<char>)
    ensures
        r@ == para_ordenar(vistas(cs@), para_mostrar_@),
{
    let apellido = campo_exec(cs, 0);
    let nombre = campo_exec(cs, 1);
    if apellido.len() > 0 && nombre.len() > 0 {
        let mut r = copia(&apellido);
        crate::cadena::agregar_chars(&mut r, &a_chars(", "));
        crate::cadena::agregar_chars(&mut r, &nombre);
        r
    } else if apellido.len() > 0 {
        apellido
    } else {
        copia(para_mostrar_)
    }
}

} // verus!

verus! {

/// Lee un contacto de una tarjeta.
///
/// `None` si no hay nada que mostrar: una tarjeta sin nombre y sin datos
/// ocupa lugar en la lista y no sirve para nada. Se leen las primeras
/// `MAX_PROPIEDADES` líneas; las que no son propiedades se saltean.
pub fn contacto_de(crudo: &str, url: &str) -> (r: Option<Contacto>)
    requires
        dentro_del_tope(crudo@),
    ensures
        match r {
            Some(c) => contacto_de_tarjeta(crudo@, url@) == Some(c@),
            None => contacto_de_tarjeta(crudo@, url@) is None,
        },
{
    let chars = a_chars(crudo);
    let todas = unir_lineas_vec(&chars);
    proof {
        lema_largo_lineas(crudo@);
    }
    let ghost leidas = lineas_leidas(crudo@);
    let tope = if todas.len() <= MAX_PROPIEDADES {
        todas.len()
    } else {
        MAX_PROPIEDADES
    };
    assert(leidas == vistas(todas@).take(tope as int));
    let l_uid = a_chars("UID");
    let l_fn = a_chars("FN");
    let l_n = a_chars("N");
    let l_email = a_chars("EMAIL");
    let l_tel = a_chars("TEL");
    let l_org = a_chars("ORG");
    let l_note = a_chars("NOTE");
    let l_mailto = a_chars("mailto:");
    let l_tel_esquema = a_chars("tel:");
    let l_coma = a_chars(", ");
    let mut uid: Vec<char> = Vec::new();
    let mut nombre: Vec<char> = Vec::new();
    let mut organizacion: Vec<char> = Vec::new();
    let mut notas: Vec<char> = Vec::new();
    let mut correos: Vec<Dato> = Vec::new();
    let mut telefonos: Vec<Dato> = Vec::new();
    let mut estructurado: Vec<Vec<char>> = Vec::new();
    let mut i: usize = 0;
    assert(leidas.take(0) =~= Seq::<Seq<char>>::empty());
    assert(vistas_datos(correos@) =~= Seq::<DatoVista>::empty());
    assert(vistas_datos(telefonos@) =~= Seq::<DatoVista>::empty());
    assert(vistas(estructurado@) =~= Seq::<Seq<char>>::empty());
    while i < tope
        invariant
            i <= tope <= todas@.len(),
            vistas(todas@) == lineas_unidas(crudo@),
            leidas == vistas(todas@).take(tope as int),
            dentro_del_tope(crudo@),
            forall|j: int| 0 <= j < lineas_unidas(crudo@).len() ==> (#[trigger] lineas_unidas(crudo@)[j]).len() <= crudo@.len(),
            l_uid@ == "UID"@,
            l_fn@ == "FN"@,
            l_n@ == "N"@,
            l_email@ == "EMAIL"@,
            l_tel@ == "TEL"@,
            l_org@ == "ORG"@,
            l_note@ == "NOTE"@,
            l_mailto@ == "mailto:"@,
            l_tel_esquema@ == "tel:"@,
            l_coma@ == ", "@,
            leer_lineas(leidas.take(i as int), url@) == (Lectura {
                contacto: ContactoVista {
                    uid: uid@,
                    nombre: nombre@,
                    orden: Seq::<char>::empty(),
                    correos: vistas_datos(correos@),
                    telefonos: vistas_datos(telefonos@),
                    organizacion: organizacion@,
                    notas: notas@,
                    url: url@,
                },
                estructurado: vistas(estructurado@),
            }),
        decreases tope - i,
    {
        assert(leidas.take(i + 1).drop_last() == leidas.take(i as int));
        assert(leidas.take(i + 1).last() == todas@[i as int]@);
        proof {
            crate::vcard::propiedad::lema_valor_mas_corto(todas@[i as int]@);
            assert(lineas_unidas(crudo@)[i as int] == todas@[i as int]@);
        }
        match partir_chars(todas[i].as_slice()) {
            None => {},
            Some(p) => {
                assert(dentro_del_tope(p.valor@));
                if iguales(&p.nombre, &l_uid) {
                    let d = decodificado_chars(&p);
                    uid = recortado(&texto_de_chars(&d));
                } else if iguales(&p.nombre, &l_fn) {
                    let d = decodificado_chars(&p);
                    nombre = recortado(&texto_de_chars(&d));
                } else if iguales(&p.nombre, &l_n) {
                    let d = decodificado_chars(&p);
                    estructurado = campos_de_chars(&d);
                } else if iguales(&p.nombre, &l_email) {
                    let d = decodificado_chars(&p);
                    let t = texto_de_chars(&d);
                    let sin = sin_esquema(&t, &l_mailto);
                    let v = recortar_vec(&sin);
                    agregar(&mut correos, &p.parametros, v);
                } else if iguales(&p.nombre, &l_tel) {
                    let d = decodificado_chars(&p);
                    let t = texto_de_chars(&d);
                    let sin = sin_esquema(&t, &l_tel_esquema);
                    let v = recortar_vec(&sin);
                    agregar(&mut telefonos, &p.parametros, v);
                } else if iguales(&p.nombre, &l_org) {
                    let d = decodificado_chars(&p);
                    let cs = campos_de_chars(&d);
                    let llenos = con_contenido_exec(&cs);
                    let unidos = unir_vec(&llenos, &l_coma);
                    organizacion = recortado(&unidos);
                } else if iguales(&p.nombre, &l_note) {
                    let d = decodificado_chars(&p);
                    notas = recortado(&texto_de_chars(&d));
                }
            },
        }
        i = i + 1;
    }
    assert(leidas.take(tope as int) == leidas);
    let (a, b) = crate::cadena::limites_recortados(&nombre);
    let nombre_final = if a == b {
        recortado(&nombre_para_mostrar(&estructurado))
    } else {
        nombre
    };
    let orden = nombre_para_ordenar(&estructurado, &nombre_final);
    let (a2, b2) = crate::cadena::limites_recortados(&nombre_final);
    if a2 == b2 && correos.len() == 0 && telefonos.len() == 0 {
        return None;
    }
    let contacto = Contacto {
        uid: a_string(&uid),
        nombre: a_string(&nombre_final),
        orden: a_string(&orden),
        correos,
        telefonos,
        organizacion: a_string(&organizacion),
        notas: a_string(&notas),
        url: a_string(&a_chars(url)),
    };
    Some(contacto)
}

} // verus!

verus! {

// ---------------------------------------------------------------------------
// Leyes
// ---------------------------------------------------------------------------

/// Cabe en la lista: a lo sumo `MAX_VALOR` bytes más los tres de «…».
pub open spec fn cabe_en_la_lista(s: Seq<char>) -> bool {
    encode_utf8(s).len() <= MAX_VALOR + 3
}

/// Cada dato tiene algo y cabe en la lista.
pub open spec fn datos_que_caben(ds: Seq<DatoVista>) -> bool {
    forall|i: int| 0 <= i < ds.len() ==> cabe_en_la_lista(#[trigger] ds[i].valor) && ds[i].valor.len() > 0
}

/// Lo leído hasta ahora: la dirección es la dada, y cada valor que se
/// muestra cabe en la lista.
pub open spec fn lectura_sana(e: Lectura, url: Seq<char>) -> bool {
    &&& e.contacto.url == url
    &&& cabe_en_la_lista(e.contacto.nombre)
    &&& cabe_en_la_lista(e.contacto.uid)
    &&& cabe_en_la_lista(e.contacto.organizacion)
    &&& cabe_en_la_lista(e.contacto.notas)
    &&& datos_que_caben(e.contacto.correos)
    &&& datos_que_caben(e.contacto.telefonos)
}

proof fn lema_lectura_sana(ls: Seq<Seq<char>>, url: Seq<char>)
    ensures
        lectura_sana(leer_lineas(ls, url), url),
    decreases ls.len(),
{
    if ls.len() == 0 {
        assert(encode_utf8(Seq::<char>::empty()).len() == 0);
    } else {
        lema_lectura_sana(ls.drop_last(), url);
        let e = leer_lineas(ls.drop_last(), url);
        match propiedad_de(ls.last()) {
            None => {},
            Some(p) => {
                ley_acotado(legible(p));
                ley_acotado(unir(con_contenido(campos(decodificado_de(p))), ", "@));
                let ve = recortar(sin_el_esquema(legible(p), "mailto:"@));
                let vt = recortar(sin_el_esquema(legible(p), "tel:"@));
                ley_acotado(ve);
                ley_acotado(vt);
                if ve.len() > 0 {
                    lema_acotado_primero(ve);
                }
                if vt.len() > 0 {
                    lema_acotado_primero(vt);
                }
                let r = aplicar(e, p);
                assert(datos_que_caben(r.contacto.correos)) by {
                    if p.nombre == "EMAIL"@ && ve.len() > 0 && p.nombre != "UID"@ && p.nombre
                        != "FN"@ && p.nombre != "N"@ {
                        assert forall|i: int| 0 <= i < r.contacto.correos.len() implies cabe_en_la_lista(
                            #[trigger] r.contacto.correos[i].valor,
                        ) by {
                            if i < e.contacto.correos.len() {
                                assert(r.contacto.correos[i] == e.contacto.correos[i]);
                            }
                        }
                    }
                }
                assert(datos_que_caben(r.contacto.telefonos)) by {
                    if p.nombre == "TEL"@ && vt.len() > 0 && p.nombre != "UID"@ && p.nombre != "FN"@
                        && p.nombre != "N"@ && p.nombre != "EMAIL"@ {
                        assert forall|i: int| 0 <= i < r.contacto.telefonos.len() implies cabe_en_la_lista(
                            #[trigger] r.contacto.telefonos[i].valor,
                        ) by {
                            if i < e.contacto.telefonos.len() {
                                assert(r.contacto.telefonos[i] == e.contacto.telefonos[i]);
                            }
                        }
                    }
                }
            },
        }
    }
}

/// Lo que promete un contacto leído: sale con la dirección con que se pidió,
/// tiene algo que mostrar (un nombre, un correo o un teléfono), y ningún
/// valor que se muestra de la tarjeta (nombre, identificador, organización,
/// notas, correos, teléfonos) pasa de `MAX_VALOR` bytes más los de «…»;
/// ningún correo ni teléfono sale vacío.
pub proof fn ley_contacto(t: Seq<char>, url: Seq<char>)
    ensures
        contacto_de_tarjeta(t, url) matches Some(c) ==> {
            &&& c.url == url
            &&& hay_algo(c)
            &&& cabe_en_la_lista(c.nombre)
            &&& cabe_en_la_lista(c.uid)
            &&& cabe_en_la_lista(c.organizacion)
            &&& cabe_en_la_lista(c.notas)
            &&& datos_que_caben(c.correos)
            &&& datos_que_caben(c.telefonos)
        },
{
    lema_lectura_sana(lineas_leidas(t), url);
    ley_acotado(para_mostrar(leer_lineas(lineas_leidas(t), url).estructurado));
}

proof fn lema_iniciales(s: Seq<char>)
    ensures
        sin_blancos_iniciales(s).len() == 0 || !es_blanco(sin_blancos_iniciales(s)[0]),
        s.len() > 0 && !es_blanco(s[0]) ==> sin_blancos_iniciales(s) == s,
    decreases s.len(),
{
    if s.len() > 0 && es_blanco(s[0]) {
        lema_iniciales(s.drop_first());
    }
}

proof fn lema_finales(u: Seq<char>)
    ensures
        sin_blancos_finales(u).len() <= u.len(),
        forall|i: int| 0 <= i < sin_blancos_finales(u).len() ==> #[trigger] sin_blancos_finales(u)[i]
            == u[i],
        u.len() > 0 && !es_blanco(u[0]) ==> sin_blancos_finales(u).len() > 0,
    decreases u.len(),
{
    if u.len() > 0 && es_blanco(u.last()) {
        lema_finales(u.drop_last());
    }
}

/// Lo recortado empieza con un carácter que no es blanco, y un texto que
/// empieza así no queda vacío al recortarlo.
proof fn lema_recortar_primero(s: Seq<char>)
    ensures
        recortar(s).len() > 0 ==> !es_blanco(recortar(s)[0]),
        s.len() > 0 && !es_blanco(s[0]) ==> recortar(s).len() > 0,
{
    lema_iniciales(s);
    lema_finales(sin_blancos_iniciales(s));
}

proof fn lema_acotado_primero(s: Seq<char>)
    requires
        s.len() > 0,
    ensures
        acotado(s).len() > 0 && acotado(s)[0] == s[0],
{
    if encode_utf8(s).len() > MAX_VALOR {
        vstd::utf8::char_is_scalar(s[0]);
        assert(ancho(s[0]) <= 4);
        let k = caracteres_que_entran(s, MAX_VALOR as int);
        lema_entran(s, MAX_VALOR as int);
        assert(k >= 1);
    }
}

proof fn lema_unir_primero(ps: Seq<Seq<char>>, sep: Seq<char>)
    requires
        ps.len() > 0,
        ps[0].len() > 0,
    ensures
        unir(ps, sep).len() > 0 && unir(ps, sep)[0] == ps[0][0],
    decreases ps.len(),
{
    if ps.len() > 1 {
        lema_unir_primero(ps.drop_last(), sep);
    }
}

/// Lo que no está vacío empieza con algo que no es blanco, si así empieza
/// cada uno de los que no están vacíos.
pub open spec fn empiezan_llenos(xs: Seq<Seq<char>>) -> bool {
    forall|i: int| 0 <= i < xs.len() && xs[i].len() > 0 ==> !es_blanco(#[trigger] xs[i][0])
}

proof fn lema_no_vacios(xs: Seq<Seq<char>>)
    ensures
        empiezan_llenos(xs) ==> forall|j: int| 0 <= j < no_vacios(xs).len() ==> (#[trigger] no_vacios(
            xs,
        )[j]).len() > 0 && !es_blanco(no_vacios(xs)[j][0]),
        (exists|i: int| 0 <= i < xs.len() && (#[trigger] xs[i]).len() > 0) ==> no_vacios(xs).len()
            > 0,
        (forall|i: int| 0 <= i < xs.len() ==> (#[trigger] xs[i]).len() == 0) ==> no_vacios(xs).len()
            == 0,
    decreases xs.len(),
{
    if xs.len() > 0 {
        let a = xs.drop_last();
        lema_no_vacios(a);
        assert(forall|i: int| 0 <= i < a.len() ==> #[trigger] a[i] == xs[i]);
        if exists|i: int| 0 <= i < xs.len() && (#[trigger] xs[i]).len() > 0 {
            if xs.last().len() == 0 {
                let i = choose|i: int| 0 <= i < xs.len() && (#[trigger] xs[i]).len() > 0;
                assert(a[i].len() > 0);
            }
        }
        if empiezan_llenos(xs) {
            assert(empiezan_llenos(a)) by {
                assert forall|i: int| 0 <= i < a.len() && a[i].len() > 0 implies !es_blanco(
                    #[trigger] a[i][0],
                ) by {
                    assert(xs[i] == a[i]);
                }
            }
            if xs.last().len() > 0 {
                assert(!es_blanco(xs[xs.len() - 1][0]));
            }
        }
        if forall|i: int| 0 <= i < xs.len() ==> (#[trigger] xs[i]).len() == 0 {
            assert(xs[xs.len() - 1].len() == 0);
        }
    }
}

/// El nombre armado con el `N` no queda en blanco si y sólo si alguno de
/// los cinco campos que se muestran tiene algo.
proof fn lema_nombre_armado(cs: Seq<Seq<char>>)
    ensures
        recortar(acotado(para_mostrar(cs))).len() == 0 <==> forall|i: int| 0 <= i < 5 ==> #[trigger] campo(
            cs,
            i,
        ).len() == 0,
{
    let todos = seq![campo(cs, 3), campo(cs, 1), campo(cs, 2), campo(cs, 0), campo(cs, 4)];
    assert forall|i: int| 0 <= i < 5 implies (campo(cs, i).len() > 0 ==> !es_blanco(#[trigger] campo(cs, i)[0])) by {
        if 0 <= i < cs.len() {
            lema_recortar_primero(cs[i]);
        }
    }
    assert(empiezan_llenos(todos)) by {
        assert forall|j: int| 0 <= j < todos.len() && todos[j].len() > 0 implies !es_blanco(
            #[trigger] todos[j][0],
        ) by {
            if j == 0 { assert(todos[j] == campo(cs, 3)); }
            if j == 1 { assert(todos[j] == campo(cs, 1)); }
            if j == 2 { assert(todos[j] == campo(cs, 2)); }
            if j == 3 { assert(todos[j] == campo(cs, 0)); }
            if j == 4 { assert(todos[j] == campo(cs, 4)); }
        }
    }
    lema_no_vacios(todos);
    let nv = no_vacios(todos);
    if forall|i: int| 0 <= i < 5 ==> #[trigger] campo(cs, i).len() == 0 {
        assert(campo(cs, 0).len() == 0 && campo(cs, 1).len() == 0 && campo(cs, 2).len() == 0
            && campo(cs, 3).len() == 0 && campo(cs, 4).len() == 0);
        assert(forall|j: int| 0 <= j < todos.len() ==> (#[trigger] todos[j]).len() == 0);
        assert(nv.len() == 0);
        assert(para_mostrar(cs) == Seq::<char>::empty());
        assert(encode_utf8(Seq::<char>::empty()).len() == 0);
        assert(acotado(Seq::<char>::empty()) == Seq::<char>::empty());
        assert(recortar(Seq::<char>::empty()) == Seq::<char>::empty());
    } else {
        let i = choose|i: int| 0 <= i < 5 && !(#[trigger] campo(cs, i).len() == 0);
        let j = if i == 3 { 0 } else if i == 1 { 1 } else if i == 2 { 2 } else if i == 0 { 3 } else { 4int };
        assert(todos[j] == campo(cs, i));
        assert(nv.len() > 0);
        assert(nv[0].len() > 0 && !es_blanco(nv[0][0]));
        lema_unir_primero(nv, " "@);
        let pm = para_mostrar(cs);
        lema_acotado_primero(pm);
        lema_recortar_primero(acotado(pm));
    }
}

/// El correo que deja una propiedad `EMAIL`: legible, sin `mailto:` y
/// recortado.
pub open spec fn correo_de(p: PropiedadVista) -> Seq<char> {
    recortar(sin_el_esquema(legible(p), "mailto:"@))
}

/// El teléfono que deja una propiedad `TEL`: legible, sin `tel:` y
/// recortado.
pub open spec fn telefono_de(p: PropiedadVista) -> Seq<char> {
    recortar(sin_el_esquema(legible(p), "tel:"@))
}

/// Ninguna línea es un `EMAIL` con algo, ni un `TEL` con algo.
pub open spec fn sin_correos_ni_telefonos(ls: Seq<Seq<char>>) -> bool {
    forall|j: int|
        0 <= j < ls.len() ==> match #[trigger] propiedad_de(ls[j]) {
            Some(p) => (p.nombre == "EMAIL"@ ==> correo_de(p).len() == 0) && (p.nombre == "TEL"@
                ==> telefono_de(p).len() == 0),
            None => true,
        }
}

proof fn lema_sin_correos_ni_telefonos(ls: Seq<Seq<char>>, url: Seq<char>)
    ensures
        leer_lineas(ls, url).contacto.correos.len() == 0 && leer_lineas(ls, url).contacto.telefonos.len()
            == 0 <==> sin_correos_ni_telefonos(ls),
    decreases ls.len(),
{
    if ls.len() > 0 {
        reveal_strlit("UID");
        reveal_strlit("FN");
        reveal_strlit("N");
        reveal_strlit("EMAIL");
        reveal_strlit("TEL");
        let a = ls.drop_last();
        lema_sin_correos_ni_telefonos(a, url);
        let e = leer_lineas(a, url);
        let r = leer_lineas(ls, url);
        assert(forall|j: int| 0 <= j < a.len() ==> #[trigger] a[j] == ls[j]);
        if sin_correos_ni_telefonos(ls) {
            assert(sin_correos_ni_telefonos(a)) by {
                assert forall|j: int| 0 <= j < a.len() implies match #[trigger] propiedad_de(a[j]) {
                    Some(p) => (p.nombre == "EMAIL"@ ==> correo_de(p).len() == 0) && (p.nombre
                        == "TEL"@ ==> telefono_de(p).len() == 0),
                    None => true,
                } by {
                    assert(propiedad_de(a[j]) == propiedad_de(ls[j]));
                }
            }
            assert(propiedad_de(ls[ls.len() - 1]) == propiedad_de(ls.last()));
        }
        if r.contacto.correos.len() == 0 && r.contacto.telefonos.len() == 0 {
            match propiedad_de(ls.last()) {
                Some(p) => {
                    assert(r == aplicar(e, p));
                    assert("EMAIL"@.len() == 5 && "TEL"@.len() == 3 && "UID"@.len() == 3);
                    assert("TEL"@[0] != "UID"@[0]);
                    assert(e.contacto.correos.len() <= r.contacto.correos.len());
                    assert(e.contacto.telefonos.len() <= r.contacto.telefonos.len());
                    if p.nombre == "EMAIL"@ {
                        assert(r.contacto.correos == con_dato(e.contacto.correos, p.parametros, correo_de(p)));
                        assert(correo_de(p).len() == 0);
                    }
                    if p.nombre == "TEL"@ {
                        assert(r.contacto.telefonos == con_dato(e.contacto.telefonos, p.parametros, telefono_de(p)));
                        assert(telefono_de(p).len() == 0);
                    }
                },
                None => {},
            }
            assert(sin_correos_ni_telefonos(a));
            assert forall|j: int| 0 <= j < ls.len() implies match #[trigger] propiedad_de(ls[j]) {
                Some(p) => (p.nombre == "EMAIL"@ ==> correo_de(p).len() == 0) && (p.nombre == "TEL"@
                    ==> telefono_de(p).len() == 0),
                None => true,
            } by {
                if j < a.len() {
                    assert(propiedad_de(a[j]) == propiedad_de(ls[j]));
                } else {
                    assert(ls[j] == ls.last());
                }
            }
        }
    }
}

/// Cuándo una tarjeta no da contacto: con lo leído de sus primeras
/// `MAX_PROPIEDADES` líneas, el último `FN` (si lo hay) está en blanco, los
/// cinco campos del último `N` que se muestran (si lo hay) están en blanco,
/// y ninguna de esas líneas es un `EMAIL` o un `TEL` con algo. En cualquier
/// otro caso hay contacto.
pub proof fn ley_sin_contacto(t: Seq<char>, url: Seq<char>)
    ensures
        contacto_de_tarjeta(t, url) is None <==> {
            let e = leer_lineas(lineas_leidas(t), url);
            &&& recortar(e.contacto.nombre).len() == 0
            &&& forall|i: int| 0 <= i < 5 ==> #[trigger] campo(e.estructurado, i).len() == 0
            &&& sin_correos_ni_telefonos(lineas_leidas(t))
        },
{
    lema_nombre_armado(leer_lineas(lineas_leidas(t), url).estructurado);
    lema_sin_correos_ni_telefonos(lineas_leidas(t), url);
}

/// Sólo se leen las primeras `MAX_PROPIEDADES` líneas lógicas: dos tarjetas
/// que coinciden en ellas dan el mismo contacto, diga lo que diga el resto.
pub proof fn ley_solo_las_primeras_lineas(t1: Seq<char>, t2: Seq<char>, url: Seq<char>)
    requires
        lineas_leidas(t1) == lineas_leidas(t2),
    ensures
        contacto_de_tarjeta(t1, url) == contacto_de_tarjeta(t2, url),
{
}

/// Cuántas de las líneas son una propiedad `nombre` cuyo valor limpio (el
/// correo si `correo`, si no el teléfono) tiene algo.
pub open spec fn cuantas_con_algo(ls: Seq<Seq<char>>, nombre: Seq<char>, correo: bool) -> nat
    decreases ls.len(),
{
    if ls.len() == 0 {
        0
    } else {
        let antes = cuantas_con_algo(ls.drop_last(), nombre, correo);
        match propiedad_de(ls.last()) {
            Some(p) => if p.nombre == nombre && (if correo {
                correo_de(p)
            } else {
                telefono_de(p)
            }).len() > 0 {
                antes + 1
            } else {
                antes
            },
            None => antes,
        }
    }
}

/// El dato que deja una línea: su etiqueta y su valor acotado.
pub open spec fn dato_de(p: PropiedadVista, v: Seq<char>) -> DatoVista {
    DatoVista { tipo: etiqueta(p.parametros), valor: acotado(v) }
}

/// Una línea `TEL` con algo agrega exactamente un teléfono, al final, y no
/// toca los correos; una `EMAIL` con algo agrega exactamente un correo, al
/// final, y no toca los teléfonos. Lo anterior queda como estaba: ningún
/// correo ni teléfono se pierde por venir después de otro.
pub proof fn ley_datos_se_acumulan(ls: Seq<Seq<char>>, l: Seq<char>, url: Seq<char>)
    ensures
        propiedad_de(l) matches Some(p) ==> (p.nombre == "TEL"@ && telefono_de(p).len() > 0 ==> {
            &&& leer_lineas(ls.push(l), url).contacto.telefonos == leer_lineas(ls, url).contacto.telefonos.push(
                dato_de(p, telefono_de(p)),
            )
            &&& leer_lineas(ls.push(l), url).contacto.correos == leer_lineas(ls, url).contacto.correos
        }),
        propiedad_de(l) matches Some(p) ==> (p.nombre == "EMAIL"@ && correo_de(p).len() > 0 ==> {
            &&& leer_lineas(ls.push(l), url).contacto.correos == leer_lineas(ls, url).contacto.correos.push(
                dato_de(p, correo_de(p)),
            )
            &&& leer_lineas(ls.push(l), url).contacto.telefonos == leer_lineas(ls, url).contacto.telefonos
        }),
{
    reveal_strlit("UID");
    reveal_strlit("FN");
    reveal_strlit("N");
    reveal_strlit("EMAIL");
    reveal_strlit("TEL");
    assert(ls.push(l).drop_last() =~= ls);
    assert(ls.push(l).last() == l);
    assert("EMAIL"@.len() == 5 && "TEL"@.len() == 3 && "UID"@.len() == 3);
    assert("TEL"@[0] != "UID"@[0]);
}

/// Tantos teléfonos (correos) como líneas `TEL` (`EMAIL`) con algo entre las
/// leídas, cada una con su etiqueta y su valor, en el orden de las líneas.
pub proof fn ley_cuantos_datos(ls: Seq<Seq<char>>, url: Seq<char>)
    ensures
        leer_lineas(ls, url).contacto.telefonos.len() == cuantas_con_algo(ls, "TEL"@, false),
        leer_lineas(ls, url).contacto.correos.len() == cuantas_con_algo(ls, "EMAIL"@, true),
    decreases ls.len(),
{
    if ls.len() > 0 {
        reveal_strlit("UID");
        reveal_strlit("FN");
        reveal_strlit("N");
        reveal_strlit("EMAIL");
        reveal_strlit("TEL");
        assert("EMAIL"@.len() == 5 && "TEL"@.len() == 3 && "UID"@.len() == 3);
        assert("TEL"@[0] != "UID"@[0]);
        ley_cuantos_datos(ls.drop_last(), url);
    }
}

/// Los teléfonos y correos de un contacto leído: uno por cada línea `TEL`
/// (`EMAIL`) con algo entre las primeras `MAX_PROPIEDADES`.
pub proof fn ley_cuantos_datos_del_contacto(t: Seq<char>, url: Seq<char>)
    ensures
        contacto_de_tarjeta(t, url) matches Some(c) ==> c.telefonos.len() == cuantas_con_algo(
            lineas_leidas(t),
            "TEL"@,
            false,
        ) && c.correos.len() == cuantas_con_algo(lineas_leidas(t), "EMAIL"@, true),
{
    ley_cuantos_datos(lineas_leidas(t), url);
}

} // verus!
