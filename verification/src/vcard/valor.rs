//! El valor de una propiedad: escapes, campos, `quoted-printable`, juego de
//! caracteres y etiquetas.

use vstd::prelude::*;
use vstd::utf8::{decode_utf8, encode_utf8, valid_utf8};
use crate::cadena::{
    a_chars, a_string, agregar_chars, dividir_en, empieza_con, iguales, iguales_sin_mayusculas,
    iguales_sin_mayusculas_exec, minusculas, minusculas_vec, partes, partes_vec, primera,
    primera_exec, recortar, recortar_vec, sin_char, sin_el, sin_char_vec, tramo, unir, vistas, vistas_string,
};
use crate::vcard::codificacion::{
    codificacion_de_etiqueta, decodificacion, empieza_con_bom, leer_bytes, texto_en,
};
use crate::vcard::propiedad::{de_propiedad, Propiedad, PropiedadChars, PropiedadVista};

verus! {

// ---------------------------------------------------------------------------
// Escapes
// ---------------------------------------------------------------------------

/// Lo que deja una barra seguida de `c`: `\n` o `\N` es un salto de línea;
/// la coma, el punto y coma, los dos puntos y la barra se escriben solos; una
/// barra que no escapa nada conocido se deja, con lo que sigue.
pub open spec fn escape(c: char) -> Seq<char> {
    if c == 'n' || c == 'N' {
        seq!['\n']
    } else if c == ',' || c == ';' || c == ':' || c == '\\' {
        seq![c]
    } else {
        seq!['\\', c]
    }
}

/// Un valor de texto sin escapes.
pub open spec fn desescapar(s: Seq<char>) -> Seq<char>
    decreases s.len(),
{
    if s.len() == 0 {
        Seq::<char>::empty()
    } else if s[0] != '\\' {
        seq![s[0]] + desescapar(s.drop_first())
    } else if s.len() == 1 {
        seq!['\\']
    } else {
        escape(s[1]) + desescapar(s.skip(2))
    }
}

pub fn texto_de_chars(v: &[char]) -> (r: Vec<char>)
    ensures
        r@ == desescapar(v@),
{
    let n = v.len();
    let mut salida: Vec<char> = Vec::new();
    let mut i: usize = 0;
    assert(v@.skip(0) == v@);
    while i < n
        invariant
            i <= n == v@.len(),
            desescapar(v@) == salida@ + desescapar(v@.skip(i as int)),
        decreases n - i,
    {
        let ghost resto = v@.skip(i as int);
        let ghost antes = salida@;
        assert(resto[0] == v@[i as int]);
        if v[i] != '\\' {
            salida.push(v[i]);
            assert(resto.drop_first() == v@.skip(i + 1));
            i = i + 1;
        } else if i + 1 == n {
            salida.push('\\');
            assert(resto.len() == 1);
            i = i + 1;
            assert(v@.skip(i as int).len() == 0);
        } else {
            let c = v[i + 1];
            assert(resto[1] == c);
            assert(resto.skip(2) == v@.skip(i + 2));
            if c == 'n' || c == 'N' {
                salida.push('\n');
            } else if c == ',' || c == ';' || c == ':' || c == '\\' {
                salida.push(c);
            } else {
                salida.push('\\');
                salida.push(c);
            }
            assert(salida@ == antes + escape(c));
            i = i + 2;
        }
    }
    assert(v@.skip(n as int).len() == 0);
    assert(salida@ + Seq::<char>::empty() == salida@);
    salida
}

/// Deshace lo escapado de un valor de texto.
///
/// En vCard la coma, el punto y coma y el salto de línea van escapados. Sin
/// deshacerlo, una nota con una coma se muestra con la barra a la vista.
pub fn texto_de(valor: &str) -> (r: String)
    ensures
        r@ == desescapar(valor@),
{
    let v = a_chars(valor);
    let t = texto_de_chars(&v);
    a_string(&t)
}

/// Cómo se escribe un carácter dentro de un valor de texto: el salto de
/// línea como `\n`, y la coma, el punto y coma y la barra con una barra
/// delante.
pub open spec fn escapado(c: char) -> Seq<char> {
    if c == '\n' {
        seq!['\\', 'n']
    } else if c == ',' || c == ';' || c == '\\' {
        seq!['\\', c]
    } else {
        seq![c]
    }
}

/// Un texto escrito como valor de vCard.
pub open spec fn escapar(s: Seq<char>) -> Seq<char>
    decreases s.len(),
{
    if s.len() == 0 {
        Seq::<char>::empty()
    } else {
        escapado(s[0]) + escapar(s.drop_first())
    }
}

proof fn lema_desescapar_escapado(c: char, t: Seq<char>)
    ensures
        desescapar(escapado(c) + t) == seq![c] + desescapar(t),
{
    let e = escapado(c) + t;
    if c == '\n' || c == ',' || c == ';' || c == '\\' {
        assert(e[0] == '\\' && e.len() >= 2);
        assert(e.skip(2) =~= t);
    } else {
        assert(e[0] == c);
        assert(e.drop_first() =~= t);
    }
}

/// Deshacer los escapes devuelve el texto que se escribió: lo que `texto_de`
/// lee de un valor escrito con `escapar` es el texto original.
pub proof fn ley_desescapar_escapar(s: Seq<char>)
    ensures
        desescapar(escapar(s)) == s,
    decreases s.len(),
{
    if s.len() > 0 {
        ley_desescapar_escapar(s.drop_first());
        lema_desescapar_escapado(s[0], escapar(s.drop_first()));
        assert(seq![s[0]] + s.drop_first() =~= s);
    }
}

// ---------------------------------------------------------------------------
// Campos
// ---------------------------------------------------------------------------

/// Agrega `p` al principio del primer campo.
pub open spec fn anteponer(p: Seq<char>, campos: Seq<Seq<char>>) -> Seq<Seq<char>> {
    campos.update(0, p + campos[0])
}

/// Los campos de un valor, todavía escapados: se parte por el punto y coma
/// **sin escapar**, y cada barra se queda con el carácter que la sigue.
pub open spec fn campos_crudos(s: Seq<char>) -> Seq<Seq<char>>
    decreases s.len(),
{
    if s.len() == 0 {
        seq![Seq::<char>::empty()]
    } else if s[0] == '\\' && s.len() >= 2 {
        anteponer(seq![s[0], s[1]], campos_crudos(s.skip(2)))
    } else if s[0] == ';' {
        seq![Seq::<char>::empty()] + campos_crudos(s.drop_first())
    } else {
        anteponer(seq![s[0]], campos_crudos(s.drop_first()))
    }
}

/// Los campos de un valor con varias partes (`N`, `ADR`, `ORG`), sin
/// escapes.
pub open spec fn campos(s: Seq<char>) -> Seq<Seq<char>> {
    campos_crudos(s).map_values(|c: Seq<char>| desescapar(c))
}

pub proof fn lema_campos_crudos_no_vacios(s: Seq<char>)
    ensures
        campos_crudos(s).len() >= 1,
    decreases s.len(),
{
    if s.len() > 0 {
        if s[0] == '\\' && s.len() >= 2 {
            lema_campos_crudos_no_vacios(s.skip(2));
        } else {
            lema_campos_crudos_no_vacios(s.drop_first());
        }
    }
}

proof fn lema_crudos_de_escapado(f: Seq<char>, t: Seq<char>)
    ensures
        campos_crudos(escapar(f) + t) == anteponer(escapar(f), campos_crudos(t)),
    decreases f.len(),
{
    lema_campos_crudos_no_vacios(t);
    if f.len() == 0 {
        assert(escapar(f) + t =~= t);
        assert(anteponer(escapar(f), campos_crudos(t)) =~= campos_crudos(t));
    } else {
        let c = f[0];
        let resto = escapar(f.drop_first());
        lema_crudos_de_escapado(f.drop_first(), t);
        lema_campos_crudos_no_vacios(resto + t);
        let e = escapar(f) + t;
        assert(e =~= escapado(c) + (resto + t));
        let cs = campos_crudos(t);
        if c == '\n' || c == ',' || c == ';' || c == '\\' {
            assert(e[0] == '\\' && e.len() >= 2);
            assert(e.skip(2) =~= resto + t);
            assert(seq![e[0], e[1]] =~= escapado(c));
            assert(escapado(c) + (resto + cs[0]) =~= escapar(f) + cs[0]);
            assert(anteponer(escapado(c), anteponer(resto, cs)) =~= anteponer(escapar(f), cs));
        } else {
            assert(e[0] == c);
            assert(e.drop_first() =~= resto + t);
            assert(seq![c] + (resto + cs[0]) =~= escapar(f) + cs[0]);
            assert(anteponer(seq![c], anteponer(resto, cs)) =~= anteponer(escapar(f), cs));
        }
    }
}

proof fn lema_crudos_de_unidos(fs: Seq<Seq<char>>)
    requires
        fs.len() >= 1,
    ensures
        campos_crudos(unir(fs.map_values(|f: Seq<char>| escapar(f)), ";"@)) == fs.map_values(
            |f: Seq<char>| escapar(f),
        ),
    decreases fs.len(),
{
    reveal_strlit(";");
    let es = fs.map_values(|f: Seq<char>| escapar(f));
    if fs.len() == 1 {
        lema_crudos_de_escapado(fs[0], Seq::<char>::empty());
        assert(escapar(fs[0]) + Seq::<char>::empty() =~= escapar(fs[0]));
        assert(campos_crudos(Seq::<char>::empty()) =~= seq![Seq::<char>::empty()]);
        assert(escapar(fs[0]) + Seq::<char>::empty() =~= escapar(fs[0]));
        assert(anteponer(escapar(fs[0]), seq![Seq::<char>::empty()]) =~= es);
    } else {
        let resto = fs.drop_first();
        lema_crudos_de_unidos(resto);
        crate::cadena::lema_unir_por_delante(es, ";"@);
        assert(es.drop_first() =~= resto.map_values(|f: Seq<char>| escapar(f)));
        let u = unir(es.drop_first(), ";"@);
        let t = seq![';'] + u;
        assert(unir(es, ";"@) =~= escapar(fs[0]) + t);
        lema_crudos_de_escapado(fs[0], t);
        assert(t[0] == ';');
        assert(t.drop_first() =~= u);
        lema_campos_crudos_no_vacios(u);
        assert(anteponer(escapar(fs[0]), seq![Seq::<char>::empty()] + campos_crudos(u)) =~= es);
    }
}

/// Partir en campos deshace el escribirlos: los campos escritos con
/// `escapar` y unidos con punto y coma se leen tal cual eran, aunque lleven
/// puntos y coma, comas o barras.
pub proof fn ley_campos_de_unidos(fs: Seq<Seq<char>>)
    requires
        fs.len() >= 1,
    ensures
        campos(unir(fs.map_values(|f: Seq<char>| escapar(f)), ";"@)) == fs,
{
    lema_crudos_de_unidos(fs);
    let es = fs.map_values(|f: Seq<char>| escapar(f));
    assert forall|i: int| 0 <= i < fs.len() implies desescapar(es[i]) == fs[i] by {
        ley_desescapar_escapar(fs[i]);
    }
    assert(es.map_values(|c: Seq<char>| desescapar(c)) =~= fs);
}

pub fn campos_crudos_de(v: &[char]) -> (r: Vec<Vec<char>>)
    ensures
        vistas(r@) == campos_crudos(v@),
{
    let n = v.len();
    let mut hechos: Vec<Vec<char>> = Vec::new();
    let mut actual: Vec<char> = Vec::new();
    let mut i: usize = 0;
    assert(v@.skip(0) == v@);
    proof {
        lema_campos_crudos_no_vacios(v@);
        assert(anteponer(Seq::<char>::empty(), campos_crudos(v@)) =~= campos_crudos(v@));
    }
    while i < n
        invariant
            i <= n == v@.len(),
            campos_crudos(v@) == vistas(hechos@) + anteponer(actual@, campos_crudos(v@.skip(i as int))),
        decreases n - i,
    {
        let ghost resto = v@.skip(i as int);
        let ghost antes_h = vistas(hechos@);
        let ghost antes_a = actual@;
        assert(resto[0] == v@[i as int]);
        if v[i] == '\\' && i + 1 < n {
            actual.push(v[i]);
            actual.push(v[i + 1]);
            proof {
                assert(resto.skip(2) == v@.skip(i + 2));
                lema_campos_crudos_no_vacios(v@.skip(i + 2));
                let c = campos_crudos(v@.skip(i + 2));
                assert(actual@ =~= antes_a + seq![v@[i as int], v@[i + 1]]);
                assert((antes_a + seq![v@[i as int], v@[i + 1]]) + c[0] =~= antes_a + (seq![v@[i as int], v@[i + 1]] + c[0]));
                assert(anteponer(antes_a, anteponer(seq![v@[i as int], v@[i + 1]], c)) =~= anteponer(
                    actual@,
                    c,
                ));
            }
            i = i + 2;
        } else if v[i] == ';' {
            hechos.push(actual);
            actual = Vec::new();
            proof {
                assert(resto.drop_first() == v@.skip(i + 1));
                lema_campos_crudos_no_vacios(v@.skip(i + 1));
                let c = campos_crudos(v@.skip(i + 1));
                assert(vistas(hechos@) =~= antes_h.push(antes_a));
                assert(antes_h + anteponer(antes_a, seq![Seq::<char>::empty()] + c) =~= vistas(hechos@)
                    + anteponer(Seq::<char>::empty(), c));
            }
            i = i + 1;
        } else {
            actual.push(v[i]);
            proof {
                assert(resto.drop_first() == v@.skip(i + 1));
                lema_campos_crudos_no_vacios(v@.skip(i + 1));
                let c = campos_crudos(v@.skip(i + 1));
                assert(actual@ =~= antes_a + seq![v@[i as int]]);
                assert((antes_a + seq![v@[i as int]]) + c[0] =~= antes_a + (seq![v@[i as int]] + c[0]));
                assert(anteponer(antes_a, anteponer(seq![v@[i as int]], c)) =~= anteponer(actual@, c));
            }
            i = i + 1;
        }
    }
    let ghost antes_h = vistas(hechos@);
    hechos.push(actual);
    assert(v@.skip(n as int) == Seq::<char>::empty());
    assert(vistas(hechos@) =~= antes_h.push(actual@));
    assert(campos_crudos(v@) =~= vistas(hechos@));
    hechos
}

pub fn campos_de_chars(v: &[char]) -> (r: Vec<Vec<char>>)
    ensures
        vistas(r@) == campos(v@),
{
    let crudos = campos_crudos_de(v);
    let mut r: Vec<Vec<char>> = Vec::new();
    let mut i: usize = 0;
    while i < crudos.len()
        invariant
            i <= crudos@.len(),
            vistas(crudos@) == campos_crudos(v@),
            vistas(r@) == campos_crudos(v@).take(i as int).map_values(|c: Seq<char>| desescapar(c)),
        decreases crudos@.len() - i,
    {
        let ghost antes = vistas(r@);
        let x = texto_de_chars(crudos[i].as_slice());
        r.push(x);
        assert(vistas(r@) =~= antes.push(x@));
        assert(campos_crudos(v@).take(i + 1) =~= campos_crudos(v@).take(i as int).push(crudos@[i as int]@));
        assert(vistas(r@) =~= campos_crudos(v@).take(i + 1).map_values(|c: Seq<char>| desescapar(c)));
        i = i + 1;
    }
    assert(campos_crudos(v@).take(crudos@.len() as int) == campos_crudos(v@));
    r
}

/// Los campos de un valor con varias partes, como `N` o `ADR`.
///
/// El separador es el punto y coma **sin escapar**: un apellido compuesto que
/// lleve uno escapado no puede partir el campo en dos.
pub fn campos_de(valor: &str) -> (r: Vec<String>)
    ensures
        vistas_string(r@) == campos(valor@),
{
    let v = a_chars(valor);
    let c = campos_de_chars(&v);
    crate::cadena::a_strings(&c)
}

// ---------------------------------------------------------------------------
// Quoted-printable
// ---------------------------------------------------------------------------

/// El valor de un dígito hexadecimal en ASCII (`to_digit(16)`).
pub open spec fn valor_hex(b: u8) -> Option<u8> {
    if 0x30 <= b && b <= 0x39 {
        Some((b - 0x30) as u8)
    } else if 0x61 <= b && b <= 0x66 {
        Some((b - 0x57) as u8)
    } else if 0x41 <= b && b <= 0x46 {
        Some((b - 0x37) as u8)
    } else {
        None
    }
}

fn valor_hex_exec(b: u8) -> (r: Option<u8>)
    ensures
        r == valor_hex(b),
{
    if 0x30 <= b && b <= 0x39 {
        Some(b - 0x30)
    } else if 0x61 <= b && b <= 0x66 {
        Some(b - 0x57)
    } else if 0x41 <= b && b <= 0x46 {
        Some(b - 0x37)
    } else {
        None
    }
}

/// Los bytes de un texto en `quoted-printable`: `=` seguido de dos dígitos
/// hexadecimales es el byte que dicen; un `=` que no es un escape válido se
/// deja como está.
pub open spec fn imprimible(b: Seq<u8>) -> Seq<u8>
    decreases b.len(),
{
    if b.len() == 0 {
        Seq::<u8>::empty()
    } else if b[0] != 0x3D {
        seq![b[0]] + imprimible(b.drop_first())
    } else if b.len() >= 3 && valor_hex(b[1]) is Some && valor_hex(b[2]) is Some {
        seq![(valor_hex(b[1])->0 * 16 + valor_hex(b[2])->0) as u8] + imprimible(b.skip(3))
    } else {
        seq![0x3Du8] + imprimible(b.drop_first())
    }
}

pub proof fn lema_largo_imprimible(b: Seq<u8>)
    ensures
        imprimible(b).len() <= b.len(),
    decreases b.len(),
{
    if b.len() > 0 {
        lema_largo_imprimible(b.drop_first());
        if b.len() >= 3 {
            lema_largo_imprimible(b.skip(3));
        }
    }
}

/// El dígito hexadecimal, en mayúscula, de un número menor que 16.
pub open spec fn digito_hex(d: u8) -> u8 {
    if d < 10 {
        (0x30 + d) as u8
    } else {
        (0x37 + d) as u8
    }
}

/// Unos bytes escritos en `quoted-printable`, cada uno como `=` y sus dos
/// dígitos hexadecimales.
pub open spec fn en_imprimible(b: Seq<u8>) -> Seq<u8>
    decreases b.len(),
{
    if b.len() == 0 {
        Seq::<u8>::empty()
    } else {
        seq![0x3Du8, digito_hex(b[0] / 16), digito_hex(b[0] % 16)] + en_imprimible(b.drop_first())
    }
}

/// Leer `quoted-printable` deshace el escribirlo: los bytes escritos como
/// escapes `=XX` se leen tal cual eran.
pub proof fn ley_imprimible_en_imprimible(b: Seq<u8>)
    ensures
        imprimible(en_imprimible(b)) == b,
    decreases b.len(),
{
    if b.len() > 0 {
        let x = b[0];
        let resto = en_imprimible(b.drop_first());
        ley_imprimible_en_imprimible(b.drop_first());
        let e = en_imprimible(b);
        assert(e =~= seq![0x3Du8, digito_hex(x / 16), digito_hex(x % 16)] + resto);
        assert(valor_hex(digito_hex(x / 16)) == Some(x / 16));
        assert(valor_hex(digito_hex(x % 16)) == Some(x % 16));
        assert((x / 16) * 16 + x % 16 == x) by (nonlinear_arith);
        assert(e.skip(3) =~= resto);
        assert(seq![x] + b.drop_first() =~= b);
    }
}

pub fn imprimible_de_bytes(b: &[u8]) -> (r: Vec<u8>)
    ensures
        r@ == imprimible(b@),
{
    let n = b.len();
    let mut salida: Vec<u8> = Vec::new();
    let mut i: usize = 0;
    assert(b@.skip(0) == b@);
    while i < n
        invariant
            i <= n == b@.len(),
            imprimible(b@) == salida@ + imprimible(b@.skip(i as int)),
        decreases n - i,
    {
        let ghost resto = b@.skip(i as int);
        let ghost antes = salida@;
        assert(resto[0] == b@[i as int]);
        assert(resto.drop_first() == b@.skip(i + 1));
        if b[i] != 0x3D {
            salida.push(b[i]);
            i = i + 1;
        } else {
            let alto = if i + 1 < n {
                valor_hex_exec(b[i + 1])
            } else {
                None
            };
            let bajo = if n - i > 2 {
                valor_hex_exec(b[i + 2])
            } else {
                None
            };
            match (alto, bajo) {
                (Some(a), Some(z)) => {
                    assert(resto[1] == b@[i + 1] && resto[2] == b@[i + 2]);
                    assert(resto.skip(3) == b@.skip(i + 3));
                    salida.push(a * 16 + z);
                    i = i + 3;
                },
                _ => {
                    assert(resto.len() >= 3 ==> resto[1] == b@[i + 1] && resto[2] == b@[i + 2]);
                    salida.push(0x3D);
                    i = i + 1;
                },
            }
        }
    }
    assert(b@.skip(n as int).len() == 0);
    assert(salida@ + Seq::<u8>::empty() == salida@);
    salida
}

/// Deshace `quoted-printable`, que es como la 2.1 manda los acentos.
pub fn imprimible_de(texto: &str) -> (r: Vec<u8>)
    ensures
        r@ == imprimible(encode_utf8(texto@)),
{
    imprimible_de_bytes(texto.as_bytes())
}

// ---------------------------------------------------------------------------
// Etiquetas
// ---------------------------------------------------------------------------

/// Las etiquetas que ofrece un parámetro: las de `TYPE=` (varias, separadas
/// por comas), el parámetro entero si va suelto como en la 2.1, y ninguna
/// si es otro parámetro con nombre (`PID=1`, `LANGUAGE=es`): eso no es una
/// etiqueta para mostrar.
pub open spec fn candidatos_de(p: Seq<char>) -> Seq<Seq<char>> {
    match dividir_en_spec(p) {
        Some((nombre, valor)) => if iguales_sin_mayusculas(nombre, "type"@) {
            partes(valor, ',')
        } else {
            Seq::<Seq<char>>::empty()
        },
        None => seq![p],
    }
}

pub open spec fn dividir_en_spec(p: Seq<char>) -> Option<(Seq<char>, Seq<char>)> {
    crate::cadena::dividir_en(p, '=')
}

/// Las etiquetas de todos los parámetros, en orden.
pub open spec fn candidatos(ps: Seq<Seq<char>>) -> Seq<Seq<char>>
    decreases ps.len(),
{
    if ps.len() == 0 {
        Seq::<Seq<char>>::empty()
    } else {
        candidatos(ps.drop_last()) + candidatos_de(ps.last())
    }
}

/// Una etiqueta recortada y sin comillas alrededor.
pub open spec fn limpia(c: Seq<char>) -> Seq<char> {
    crate::cadena::recortar_char(recortar(c), '"')
}

/// Lo que sí es una etiqueta para mostrar: no cómo viene codificado, ni en
/// qué juego de caracteres, ni cuál es el preferido.
pub open spec fn es_etiqueta(p: Seq<char>) -> bool {
    let b = minusculas(p);
    &&& b != "pref"@
    &&& b != "internet"@
    &&& b != "voice"@
    &&& b != "x400"@
    &&& !empieza_con(b, "encoding="@)
    &&& !empieza_con(b, "charset="@)
    &&& !empieza_con(b, "value="@)
    &&& !empieza_con(b, "pref="@)
}

/// La primera etiqueta que sirve, ya limpia.
pub open spec fn primera_etiqueta(cs: Seq<Seq<char>>) -> Option<Seq<char>>
    decreases cs.len(),
{
    if cs.len() == 0 {
        None
    } else if es_etiqueta(limpia(cs[0])) {
        Some(limpia(cs[0]))
    } else {
        primera_etiqueta(cs.drop_first())
    }
}

/// La etiqueta de una propiedad, en minúsculas; vacía si no dijo nada.
pub open spec fn etiqueta(ps: Seq<Seq<char>>) -> Seq<char> {
    match primera_etiqueta(candidatos(ps)) {
        Some(e) => minusculas(e),
        None => Seq::<char>::empty(),
    }
}

fn empieza_con_exec(h: &[char], n: &[char]) -> (r: bool)
    ensures
        r == empieza_con(h@, n@),
{
    if n.len() > h.len() {
        return false;
    }
    let r = crate::cadena::empieza_en(h, 0, n);
    assert(h@.subrange(0, n@.len() as int) == h@.take(n@.len() as int));
    r
}

fn es_etiqueta_exec(p: &[char]) -> (r: bool)
    ensures
        r == es_etiqueta(p@),
{
    let b = minusculas_vec(p);
    !iguales(&b, &a_chars("pref")) && !iguales(&b, &a_chars("internet")) && !iguales(
        &b,
        &a_chars("voice"),
    ) && !iguales(&b, &a_chars("x400")) && !empieza_con_exec(&b, &a_chars("encoding="))
        && !empieza_con_exec(&b, &a_chars("charset=")) && !empieza_con_exec(&b, &a_chars("value="))
        && !empieza_con_exec(&b, &a_chars("pref="))
}

fn candidatos_de_exec(p: &[char]) -> (r: Vec<Vec<char>>)
    ensures
        vistas(r@) == candidatos_de(p@),
{
    match crate::cadena::dividir_en_exec(p, '=') {
        Some((nombre, valor)) => {
            if iguales_sin_mayusculas_exec(&nombre, &a_chars("type")) {
                partes_vec(&valor, ',')
            } else {
                let r: Vec<Vec<char>> = Vec::new();
                assert(vistas(r@) =~= Seq::<Seq<char>>::empty());
                r
            }
        },
        None => {
            let mut r: Vec<Vec<char>> = Vec::new();
            r.push(crate::cadena::copia(p));
            assert(vistas(r@) =~= seq![p@]);
            r
        },
    }
}

pub fn etiqueta_de_chars(parametros: &Vec<Vec<char>>) -> (r: Vec<char>)
    ensures
        r@ == etiqueta(vistas(parametros@)),
{
    let ghost ps = vistas(parametros@);
    let mut cs: Vec<Vec<char>> = Vec::new();
    let mut i: usize = 0;
    while i < parametros.len()
        invariant
            i <= parametros@.len(),
            ps == vistas(parametros@),
            vistas(cs@) == candidatos(ps.take(i as int)),
        decreases parametros@.len() - i,
    {
        let nuevos = candidatos_de_exec(parametros[i].as_slice());
        let mut k: usize = 0;
        let ghost antes = vistas(cs@);
        while k < nuevos.len()
            invariant
                k <= nuevos@.len(),
                vistas(cs@) == antes + vistas(nuevos@).take(k as int),
            decreases nuevos@.len() - k,
        {
            let ghost previo = vistas(cs@);
            cs.push(crate::cadena::copia(nuevos[k].as_slice()));
            assert(vistas(cs@) =~= previo.push(nuevos@[k as int]@));
            assert(vistas(nuevos@).take(k + 1) =~= vistas(nuevos@).take(k as int).push(nuevos@[k as int]@));
            k = k + 1;
        }
        assert(vistas(nuevos@).take(nuevos@.len() as int) == vistas(nuevos@));
        assert(ps.take(i + 1).drop_last() == ps.take(i as int));
        assert(ps.take(i + 1).last() == parametros@[i as int]@);
        i = i + 1;
    }
    assert(ps.take(parametros@.len() as int) == ps);
    let ghost todos = vistas(cs@);
    let mut j: usize = 0;
    assert(todos.skip(0) == todos);
    while j < cs.len()
        invariant
            j <= cs@.len(),
            todos == vistas(cs@),
            todos == candidatos(ps),
            ps == vistas(parametros@),
            primera_etiqueta(todos) == primera_etiqueta(todos.skip(j as int)),
        decreases cs@.len() - j,
    {
        assert(todos.skip(j as int)[0] == cs@[j as int]@);
        assert(todos.skip(j as int).drop_first() == todos.skip(j + 1));
        let recortada = recortar_vec(cs[j].as_slice());
        let limpia_c = crate::cadena::recortar_char_vec(&recortada, '"');
        if es_etiqueta_exec(&limpia_c) {
            assert(limpia_c@ == limpia(todos.skip(j as int)[0]));
            assert(primera_etiqueta(todos.skip(j as int)) == Some(limpia_c@));
            return minusculas_vec(&limpia_c);
        }
        j = j + 1;
    }
    assert(todos.skip(j as int).len() == 0);
    Vec::new()
}

/// Los parámetros `TYPE=` no traen un `=` dentro del valor.
pub open spec fn tipos_sin_igual(ps: Seq<Seq<char>>) -> bool {
    forall|i: int|
        0 <= i < ps.len() ==> match #[trigger] dividir_en(ps[i], '=') {
            Some((n, v)) => iguales_sin_mayusculas(n, "type"@) ==> sin_el(v, '='),
            None => true,
        }
}

proof fn lema_candidatos_sin_igual(ps: Seq<Seq<char>>)
    requires
        tipos_sin_igual(ps),
    ensures
        forall|k: int| 0 <= k < candidatos(ps).len() ==> sin_el(#[trigger] candidatos(ps)[k], '='),
    decreases ps.len(),
{
    if ps.len() > 0 {
        let a = ps.drop_last();
        assert(tipos_sin_igual(a)) by {
            assert forall|i: int| 0 <= i < a.len() implies match #[trigger] dividir_en(a[i], '=') {
                Some((n, v)) => iguales_sin_mayusculas(n, "type"@) ==> sin_el(v, '='),
                None => true,
            } by {
                assert(a[i] == ps[i]);
            }
        }
        lema_candidatos_sin_igual(a);
        let p = ps.last();
        assert(dividir_en(ps[ps.len() - 1], '=') == dividir_en(p, '='));
        let cd = candidatos_de(p);
        match dividir_en(p, '=') {
            Some((n, v)) => {
                if iguales_sin_mayusculas(n, "type"@) {
                    crate::cadena::lema_partes_sin_el(v, ',', '=');
                }
            },
            None => {
                crate::cadena::lema_sin_primera(p, '=');
                assert(cd[0] == p);
            },
        }
        assert(forall|k: int| 0 <= k < cd.len() ==> sin_el(#[trigger] cd[k], '='));
        let r = candidatos(a) + cd;
        assert forall|k: int| 0 <= k < r.len() implies sin_el(#[trigger] r[k], '=') by {
            if k < candidatos(a).len() {
                assert(r[k] == candidatos(a)[k]);
            } else {
                assert(r[k] == cd[k - candidatos(a).len()]);
            }
        }
    }
}

proof fn lema_primera_etiqueta_sin_igual(cs: Seq<Seq<char>>)
    requires
        forall|k: int| 0 <= k < cs.len() ==> sin_el(#[trigger] cs[k], '='),
    ensures
        primera_etiqueta(cs) matches Some(e) ==> sin_el(e, '='),
    decreases cs.len(),
{
    if cs.len() > 0 {
        assert(sin_el(cs[0], '='));
        crate::cadena::lema_puntas_sin_el(cs[0], '=', '"');
        let r = recortar(cs[0]);
        crate::cadena::lema_puntas_sin_el(crate::cadena::sin_blancos_iniciales(cs[0]), '=', '"');
        crate::cadena::lema_puntas_sin_el(r, '=', '"');
        crate::cadena::lema_puntas_sin_el(crate::cadena::sin_iniciales(r, '"'), '=', '"');
        assert forall|k: int| 0 <= k < cs.drop_first().len() implies sin_el(
            #[trigger] cs.drop_first()[k],
            '=',
        ) by {
            assert(cs.drop_first()[k] == cs[k + 1]);
        }
        lema_primera_etiqueta_sin_igual(cs.drop_first());
    }
}

/// Una etiqueta nunca es un parámetro `nombre=valor` en crudo: si ningún
/// `TYPE=` trae un `=` en su valor, la etiqueta no tiene ninguno. Los otros
/// parámetros con nombre (`PID=1`, `LANGUAGE=es`) no dan etiqueta.
pub proof fn ley_etiqueta_sin_igual(ps: Seq<Seq<char>>)
    requires
        tipos_sin_igual(ps),
    ensures
        sin_el(etiqueta(ps), '='),
{
    lema_candidatos_sin_igual(ps);
    lema_primera_etiqueta_sin_igual(candidatos(ps));
    match primera_etiqueta(candidatos(ps)) {
        Some(e) => {
            let m = minusculas(e);
            assert forall|i: int| 0 <= i < m.len() implies m[i] != '=' by {
                assert(m[i] == crate::cadena::minuscula(e[i]));
                assert(e[i] != '=');
            }
        },
        None => {},
    }
}

/// Una palabra suelta: sin comas, comillas, blancos ni `=`.
pub open spec fn palabra_suelta(x: Seq<char>) -> bool {
    forall|i: int|
        0 <= i < x.len() ==> x[i] != ',' && x[i] != '"' && x[i] != '=' && !crate::cadena::es_blanco(
            #[trigger] x[i],
        )
}

proof fn lema_sin_igual_al_final(x: Seq<char>, n: Seq<char>)
    requires
        palabra_suelta(x),
        n.len() > 0,
        n.last() == '=',
    ensures
        !empieza_con(minusculas(x), n),
{
    let b = minusculas(x);
    if empieza_con(b, n) {
        let k = n.len() - 1;
        assert(b.take(n.len() as int)[k] == n[k]);
        assert(b[k] == crate::cadena::minuscula(x[k]));
        assert(x[k] != '=');
    }
}

proof fn lema_palabra_es_etiqueta(x: Seq<char>)
    requires
        palabra_suelta(x),
        minusculas(x) != "pref"@,
        minusculas(x) != "internet"@,
        minusculas(x) != "voice"@,
        minusculas(x) != "x400"@,
    ensures
        primera_etiqueta(seq![x]) == Some(x),
{
    reveal_strlit("encoding=");
    reveal_strlit("charset=");
    reveal_strlit("value=");
    reveal_strlit("pref=");
    lema_sin_igual_al_final(x, "encoding="@);
    lema_sin_igual_al_final(x, "charset="@);
    lema_sin_igual_al_final(x, "value="@);
    lema_sin_igual_al_final(x, "pref="@);
    if x.len() > 0 {
        assert(x.last() == x[x.len() - 1]);
    }
    assert(crate::cadena::sin_blancos_iniciales(x) == x);
    assert(crate::cadena::sin_blancos_finales(x) == x);
    assert(crate::cadena::sin_iniciales(x, '"') == x);
    assert(crate::cadena::sin_finales(x, '"') == x);
    assert(limpia(x) == x);
    assert(seq![x][0] == x);
}

/// La etiqueta de una palabra suelta es esa palabra en minúsculas, venga
/// como `TYPE=x` (con `type` en cualquier mezcla de mayúsculas) o sola como
/// en la 2.1, salvo que sea una de las que no se
/// muestran (`pref`, `internet`, `voice`, `x400`). Cualquier otra (`fax`,
/// `cell`, `x-casa`) se muestra tal cual la escribió quien hizo la tarjeta.
pub proof fn ley_etiqueta_de_una_palabra(x: Seq<char>, t: Seq<char>)
    requires
        palabra_suelta(x),
        minusculas(x) != "pref"@,
        minusculas(x) != "internet"@,
        minusculas(x) != "voice"@,
        minusculas(x) != "x400"@,
    ensures
        etiqueta(seq![x]) == minusculas(x),
        minusculas(t) == "type"@ ==> etiqueta(seq![t + seq!['='] + x]) == minusculas(x),
{
    lema_palabra_es_etiqueta(x);
    assert(forall|i: int| 0 <= i < x.len() ==> x[i] != '=');
    crate::cadena::lema_primera(x, '=', x.len() as int);
    assert(seq![x].drop_last() =~= Seq::<Seq<char>>::empty());
    assert(seq![x].last() == x);
    assert(candidatos_de(x) == seq![x]);
    let vacio = Seq::<Seq<char>>::empty();
    assert(candidatos(vacio) == vacio);
    assert(candidatos(seq![x]) == candidatos(vacio) + candidatos_de(x));
    assert(vacio + seq![x] =~= seq![x]);
    if minusculas(t) == "type"@ {
        reveal_strlit("type");
        let p = t + seq!['='] + x;
        let m = t.len() as int;
        assert(minusculas(t).len() == t.len());
        assert("type"@.len() == 4);
        assert(m == 4);
        assert forall|j: int| 0 <= j < m implies p[j] != '=' by {
            assert(p[j] == t[j]);
            assert(minusculas(t)[j] == crate::cadena::minuscula(t[j]));
        }
        assert(p[m] == '=');
        crate::cadena::lema_primera(p, '=', m);
        assert(p.skip(m + 1) =~= x);
        assert(p.take(m) =~= t);
        assert(minusculas("type"@) =~= "type"@);
        assert(iguales_sin_mayusculas(t, "type"@));
        assert(sin_el(x, ','));
        crate::cadena::lema_partes_de_uno(x, ',');
        assert(candidatos_de(p) == seq![x]);
        assert(seq![p].drop_last() =~= Seq::<Seq<char>>::empty());
        assert(seq![p].last() == p);
        assert(candidatos(seq![p]) == candidatos(vacio) + candidatos_de(p));
    }
}

/// La etiqueta de una propiedad: «casa», «trabajo», «celular».
///
/// Se leen las dos formas: `TYPE=HOME` de la 3.0 y la 4.0, y `HOME` suelto de
/// la 2.1. `TYPE=HOME,VOICE` puede traer varias juntas: vale la primera que
/// sirva.
pub fn etiqueta_de(parametros: &[String]) -> (r: String)
    ensures
        r@ == etiqueta(vistas_string(parametros@)),
{
    let mut ps: Vec<Vec<char>> = Vec::new();
    let mut i: usize = 0;
    while i < parametros.len()
        invariant
            i <= parametros@.len(),
            vistas(ps@) == vistas_string(parametros@).take(i as int),
        decreases parametros@.len() - i,
    {
        let ghost antes = vistas(ps@);
        let x = a_chars(parametros[i].as_str());
        ps.push(x);
        assert(vistas(ps@) =~= antes.push(x@));
        assert(vistas_string(parametros@).take(i + 1) =~= vistas_string(parametros@).take(i as int).push(
            parametros@[i as int]@,
        ));
        i = i + 1;
    }
    assert(vistas_string(parametros@).take(parametros@.len() as int) == vistas_string(parametros@));
    let e = etiqueta_de_chars(&ps);
    a_string(&e)
}

// ---------------------------------------------------------------------------
// Juego de caracteres y codificación de transporte
// ---------------------------------------------------------------------------

/// El juego de caracteres que declaró la propiedad, si declaró alguno: el
/// valor del primer parámetro `CHARSET=` (sin mirar mayúsculas ni blancos
/// alrededor del nombre), recortado y sin comillas.
pub open spec fn juego_desde(ps: Seq<Seq<char>>) -> Option<Seq<char>>
    decreases ps.len(),
{
    if ps.len() == 0 {
        None
    } else {
        match dividir_en(ps[0], '=') {
            Some((nombre, valor)) => if iguales_sin_mayusculas(recortar(nombre), "charset"@) {
                Some(crate::cadena::recortar_char(recortar(valor), '"'))
            } else {
                juego_desde(ps.drop_first())
            },
            None => juego_desde(ps.drop_first()),
        }
    }
}

fn juego_de(parametros: &Vec<Vec<char>>) -> (r: Option<Vec<char>>)
    ensures
        match r {
            Some(j) => juego_desde(vistas(parametros@)) == Some(j@),
            None => juego_desde(vistas(parametros@)) is None,
        },
{
    let ghost ps = vistas(parametros@);
    let mut i: usize = 0;
    assert(ps.skip(0) == ps);
    while i < parametros.len()
        invariant
            i <= parametros@.len(),
            ps == vistas(parametros@),
            juego_desde(ps) == juego_desde(ps.skip(i as int)),
        decreases parametros@.len() - i,
    {
        assert(ps.skip(i as int)[0] == parametros@[i as int]@);
        assert(ps.skip(i as int).drop_first() == ps.skip(i + 1));
        match crate::cadena::dividir_en_exec(parametros[i].as_slice(), '=') {
            Some((nombre, valor)) => {
                let nombre_r = recortar_vec(&nombre);
                if iguales_sin_mayusculas_exec(&nombre_r, &a_chars("charset")) {
                    let valor_r = recortar_vec(&valor);
                    return Some(crate::cadena::recortar_char_vec(&valor_r, '"'));
                }
            },
            None => {},
        }
        i = i + 1;
    }
    assert(ps.skip(i as int).len() == 0);
    None
}

/// Algún parámetro, en minúsculas y sin espacios, es exactamente `que`.
pub open spec fn tiene(ps: Seq<Seq<char>>, que: Seq<char>) -> bool {
    exists|i: int| 0 <= i < ps.len() && sin_char(minusculas(#[trigger] ps[i]), ' ') == que
}

fn tiene_exec(parametros: &Vec<Vec<char>>, que: &[char]) -> (r: bool)
    ensures
        r == tiene(vistas(parametros@), que@),
{
    let ghost ps = vistas(parametros@);
    let mut i: usize = 0;
    while i < parametros.len()
        invariant
            i <= parametros@.len(),
            ps == vistas(parametros@),
            forall|j: int| 0 <= j < i ==> sin_char(minusculas(#[trigger] ps[j]), ' ') != que@,
        decreases parametros@.len() - i,
    {
        let bajo = minusculas_vec(parametros[i].as_slice());
        let limpio = sin_char_vec(&bajo, ' ');
        assert(ps[i as int] == parametros@[i as int]@);
        if iguales(&limpio, que) {
            return true;
        }
        i = i + 1;
    }
    false
}

/// El valor viene en `quoted-printable`.
pub open spec fn es_imprimible(ps: Seq<Seq<char>>) -> bool {
    tiene(ps, "encoding=quoted-printable"@) || tiene(ps, "quoted-printable"@)
}

/// El valor de una propiedad sin la codificación de transporte y leído en
/// su juego de caracteres, **y nada más** (los escapes quedan).
///
/// Sin nada declarado y sin `quoted-printable`, el valor ya es texto. Si no,
/// se toman sus bytes (deshaciendo el `quoted-printable` si lo hay) y se leen
/// con el juego declarado.
pub open spec fn decodificado_de(p: PropiedadVista) -> Seq<char> {
    let declarado = juego_desde(p.parametros);
    if !es_imprimible(p.parametros) && declarado is None {
        p.valor
    } else {
        let bytes = if es_imprimible(p.parametros) {
            imprimible(encode_utf8(p.valor))
        } else {
            encode_utf8(p.valor)
        };
        texto_en(
            bytes,
            match declarado {
                Some(j) => Some(encode_utf8(recortar(j))),
                None => None,
            },
        )
    }
}

/// Los bytes del valor de una propiedad, sin el `quoted-printable` si lo
/// declara.
pub open spec fn bytes_del_valor(p: PropiedadVista) -> Seq<u8> {
    if es_imprimible(p.parametros) {
        imprimible(encode_utf8(p.valor))
    } else {
        encode_utf8(p.valor)
    }
}

/// El parámetro declara un juego de caracteres: su nombre, sin blancos
/// alrededor, es `charset` sin mirar mayúsculas.
pub open spec fn declara_juego(q: Seq<char>) -> bool {
    dividir_en(q, '=') matches Some((n, v)) && iguales_sin_mayusculas(recortar(n), "charset"@)
}

proof fn lema_palabra_limpia(x: Seq<char>)
    requires
        palabra_suelta(x),
    ensures
        recortar(x) == x,
        crate::cadena::recortar_char(x, '"') == x,
{
    if x.len() > 0 {
        assert(x.last() == x[x.len() - 1]);
    }
    assert(crate::cadena::sin_blancos_iniciales(x) == x);
    assert(crate::cadena::sin_blancos_finales(x) == x);
    assert(crate::cadena::sin_iniciales(x, '"') == x);
    assert(crate::cadena::sin_finales(x, '"') == x);
}

proof fn lema_juego_en(ps: Seq<Seq<char>>, k: int, j: Seq<char>)
    requires
        0 <= k < ps.len(),
        ps[k] == "CHARSET="@ + j,
        palabra_suelta(j),
        forall|i: int| 0 <= i < k ==> !declara_juego(#[trigger] ps[i]),
    ensures
        juego_desde(ps) == Some(j),
    decreases k,
{
    if k > 0 {
        assert(!declara_juego(ps[0]));
        assert forall|i: int| 0 <= i < k - 1 implies !declara_juego(#[trigger] ps.drop_first()[i]) by {
            assert(ps.drop_first()[i] == ps[i + 1]);
        }
        lema_juego_en(ps.drop_first(), k - 1, j);
    } else {
        reveal_strlit("CHARSET=");
        reveal_strlit("charset");
        let q = ps[0];
        assert(q[7] == '=');
        assert(forall|m: int| 0 <= m < 7 ==> q[m] != '=');
        crate::cadena::lema_primera(q, '=', 7);
        let n = q.take(7);
        assert(n.last() == n[6]);
        assert(crate::cadena::sin_blancos_iniciales(n) == n);
        assert(crate::cadena::sin_blancos_finales(n) == n);
        assert(minusculas(recortar(n)) =~= minusculas("charset"@));
        assert(q.skip(8) =~= j);
        lema_palabra_limpia(j);
    }
}

/// **Se respeta el juego declarado.** Si el primer parámetro `CHARSET=` de
/// una propiedad nombra la codificación `c` (ni UTF-8 ni Windows-1252, que
/// tienen sus reglas), el valor es lo que esa codificación da sobre los
/// bytes, con o sin `quoted-printable`. Y en general el valor decodificado
/// es el que `a_texto` da sobre esos bytes con el juego declarado.
pub proof fn ley_juego_declarado(p: PropiedadVista, k: int, j: Seq<char>, c: Seq<char>)
    requires
        0 <= k < p.parametros.len(),
        p.parametros[k] == "CHARSET="@ + j,
        palabra_suelta(j),
        forall|i: int| 0 <= i < k ==> !declara_juego(#[trigger] p.parametros[i]),
    ensures
        decodificado_de(p) == texto_en(bytes_del_valor(p), Some(encode_utf8(j))),
        codificacion_de_etiqueta(encode_utf8(j)) == Some(c) && c != "UTF-8"@ && c
            != "windows-1252"@ ==> decodificado_de(p) == decodificacion(c, bytes_del_valor(p)),
{
    lema_juego_en(p.parametros, k, j);
    lema_palabra_limpia(j);
}

pub fn decodificado_chars(p: &PropiedadChars) -> (r: Vec<char>)
    requires
        crate::cadena::dentro_del_tope(p.valor@),
    ensures
        r@ == decodificado_de(p@),
{
    let declarado = juego_de(&p.parametros);
    let imprimible_ = tiene_exec(&p.parametros, &a_chars("encoding=quoted-printable")) || tiene_exec(
        &p.parametros,
        &a_chars("quoted-printable"),
    );
    if !imprimible_ && declarado.is_none() {
        return crate::cadena::copia(&p.valor);
    }
    let crudos = crate::cadena::bytes_de(&p.valor);
    proof {
        crate::cadena::lema_largo_utf8(p.valor@);
    }
    let bytes = if imprimible_ {
        proof {
            lema_largo_imprimible(crudos@);
        }
        imprimible_de_bytes(&crudos)
    } else {
        crudos
    };
    let texto = match declarado {
        Some(j) => {
            let recortado = recortar_vec(&j);
            let etiqueta_b = crate::cadena::bytes_de(&recortado);
            leer_bytes(&bytes, Some(etiqueta_b.as_slice()))
        },
        None => leer_bytes(&bytes, None),
    };
    a_chars(texto.as_str())
}

/// Deshace la codificación de transporte y el juego de caracteres, **y nada
/// más**.
///
/// Separado del desescape a propósito: un valor con varias partes (`N`,
/// `ADR`, `ORG`) se parte por los puntos y coma **después** de decodificar y
/// **antes** de desescapar.
pub fn decodificado(propiedad: &Propiedad) -> (r: String)
    requires
        crate::cadena::dentro_del_tope(propiedad.valor@),
    ensures
        r@ == decodificado_de(propiedad@),
{
    let p = de_propiedad(propiedad);
    let d = decodificado_chars(&p);
    a_string(&d)
}

/// Pasa bytes a texto según el juego que declaró la tarjeta.
///
/// **Se respeta lo declarado.** Sin juego declarado, o con uno que no se
/// conoce: se prueba UTF-8 y se cae a Windows-1252, que es lo que manda una
/// agenda exportada hace quince años.
pub fn a_texto(bytes: &[u8], juego: Option<&str>) -> (r: String)
    requires
        bytes@.len() <= usize::MAX / 4,
    ensures
        r@ == texto_en(
            bytes@,
            match juego {
                Some(j) => Some(encode_utf8(recortar(j@))),
                None => None,
            },
        ),
        juego is None && valid_utf8(bytes@) && !empieza_con_bom(bytes@) ==> r@ == decode_utf8(
            bytes@,
        ),
{
    match juego {
        Some(j) => {
            let v = a_chars(j);
            let recortado = recortar_vec(&v);
            let etiqueta_b = crate::cadena::bytes_de(&recortado);
            leer_bytes(bytes, Some(etiqueta_b.as_slice()))
        },
        None => leer_bytes(bytes, None),
    }
}

/// El valor de una propiedad, listo para mostrar.
pub fn valor_legible(propiedad: &Propiedad) -> (r: String)
    requires
        crate::cadena::dentro_del_tope(propiedad.valor@),
    ensures
        r@ == desescapar(decodificado_de(propiedad@)),
{
    let p = de_propiedad(propiedad);
    let d = decodificado_chars(&p);
    let t = texto_de_chars(&d);
    a_string(&t)
}

} // verus!

verus! {

// ---------------------------------------------------------------------------
// Leyes
// ---------------------------------------------------------------------------

/// Un texto sin barras no tiene nada que desescapar.
pub proof fn ley_texto_sin_barras(s: Seq<char>)
    requires
        forall|i: int| 0 <= i < s.len() ==> s[i] != '\\',
    ensures
        desescapar(s) == s,
    decreases s.len(),
{
    if s.len() > 0 {
        assert(s[0] != '\\');
        ley_texto_sin_barras(s.drop_first());
        assert(seq![s[0]] + s.drop_first() == s);
    }
}

proof fn lema_crudos_sin_separadores(s: Seq<char>)
    requires
        forall|i: int| 0 <= i < s.len() ==> s[i] != '\\' && s[i] != ';',
    ensures
        campos_crudos(s) == seq![s],
    decreases s.len(),
{
    if s.len() > 0 {
        assert(s[0] != '\\' && s[0] != ';');
        lema_crudos_sin_separadores(s.drop_first());
        assert(seq![s[0]] + s.drop_first() == s);
        assert(anteponer(seq![s[0]], seq![s.drop_first()]) =~= seq![s]);
    } else {
        assert(s == Seq::<char>::empty());
    }
}

/// Un valor sin puntos y comas ni barras es un solo campo: él mismo.
pub proof fn ley_campos_sin_separadores(s: Seq<char>)
    requires
        forall|i: int| 0 <= i < s.len() ==> s[i] != '\\' && s[i] != ';',
    ensures
        campos(s) == seq![s],
{
    lema_crudos_sin_separadores(s);
    ley_texto_sin_barras(s);
    assert(seq![s].map_values(|c: Seq<char>| desescapar(c)) =~= seq![s]);
}

/// Unos bytes sin `=` no tienen nada que deshacer de `quoted-printable`.
pub proof fn ley_imprimible_sin_iguales(b: Seq<u8>)
    requires
        forall|i: int| 0 <= i < b.len() ==> b[i] != 0x3D,
    ensures
        imprimible(b) == b,
    decreases b.len(),
{
    if b.len() > 0 {
        assert(b[0] != 0x3D);
        ley_imprimible_sin_iguales(b.drop_first());
        assert(seq![b[0]] + b.drop_first() == b);
    }
}

/// Un valor de la 3.0 o la 4.0 (sin `quoted-printable` ni juego declarado)
/// ya es texto: decodificarlo no lo cambia.
pub proof fn ley_valor_sin_codificacion(p: PropiedadVista)
    requires
        !es_imprimible(p.parametros),
        juego_desde(p.parametros) is None,
    ensures
        decodificado_de(p) == p.valor,
{
}

} // verus!
