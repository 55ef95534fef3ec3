//! Herramientas sobre texto visto como secuencia de caracteres.
//!
//! Todo el análisis de las tarjetas trabaja sobre `Vec<char>`: se pasa del
//! texto a sus caracteres una sola vez, y de vuelta a `String` al final.

use vstd::prelude::*;

verus! {

// ---------------------------------------------------------------------------
// Conversiones
// ---------------------------------------------------------------------------

/// Agrega un carácter al final de una cadena (`String::push`).
#[verifier::external_body]
fn empujar(s: &mut String, c: char)
    ensures
        final(s)@ == old(s)@.push(c),
{
    s.push(c);
}

/// Los caracteres de un texto, en orden.
pub fn a_chars(s: &str) -> (r: Vec<char>)
    ensures
        r@ == s@,
{
    let mut r: Vec<char> = Vec::new();
    for c in it: s.chars()
        invariant
            r@ == it.seq().take(it.index() as int),
    {
        r.push(c);
    }
    r
}

/// Una cadena con los caracteres dados.
pub fn a_string(v: &[char]) -> (r: String)
    ensures
        r@ == v@,
{
    let mut r = String::new();
    let mut i: usize = 0;
    while i < v.len()
        invariant
            i <= v@.len(),
            r@ == v@.take(i as int),
        decreases v@.len() - i,
    {
        empujar(&mut r, v[i]);
        i = i + 1;
        assert(r@ == v@.take(i as int));
    }
    assert(v@.take(v@.len() as int) == v@);
    r
}

/// Copia de un tramo `[a, b)`.
pub fn tramo(v: &[char], a: usize, b: usize) -> (r: Vec<char>)
    requires
        a <= b <= v@.len(),
    ensures
        r@ == v@.subrange(a as int, b as int),
{
    let mut r: Vec<char> = Vec::new();
    let mut i: usize = a;
    while i < b
        invariant
            a <= i <= b <= v@.len(),
            r@ == v@.subrange(a as int, i as int),
        decreases b - i,
    {
        r.push(v[i]);
        i = i + 1;
        assert(r@ == v@.subrange(a as int, i as int));
    }
    r
}

/// Copia entera.
pub fn copia(v: &[char]) -> (r: Vec<char>)
    ensures
        r@ == v@,
{
    let r = tramo(v, 0, v.len());
    assert(v@.subrange(0, v@.len() as int) == v@);
    r
}

/// Agrega al final de `destino` los caracteres de `origen`.
pub fn agregar_chars(destino: &mut Vec<char>, origen: &[char])
    ensures
        final(destino)@ == old(destino)@ + origen@,
{
    let mut i: usize = 0;
    while i < origen.len()
        invariant
            i <= origen@.len(),
            destino@ == old(destino)@ + origen@.take(i as int),
        decreases origen@.len() - i,
    {
        destino.push(origen[i]);
        i = i + 1;
        assert(destino@ == old(destino)@ + origen@.take(i as int));
    }
    assert(origen@.take(origen@.len() as int) == origen@);
}

// ---------------------------------------------------------------------------
// Espacios
// ---------------------------------------------------------------------------

/// Un carácter con la propiedad `White_Space` de Unicode, que es lo que
/// `str::trim` quita.
pub open spec fn es_blanco(c: char) -> bool {
    ||| ('\u{9}' <= c && c <= '\u{d}')
    ||| c == ' '
    ||| c == '\u{85}'
    ||| c == '\u{a0}'
    ||| c == '\u{1680}'
    ||| ('\u{2000}' <= c && c <= '\u{200a}')
    ||| c == '\u{2028}'
    ||| c == '\u{2029}'
    ||| c == '\u{202f}'
    ||| c == '\u{205f}'
    ||| c == '\u{3000}'
}

pub fn es_blanco_exec(c: char) -> (r: bool)
    ensures
        r == es_blanco(c),
{
    ('\u{9}' <= c && c <= '\u{d}') || c == ' ' || c == '\u{85}' || c == '\u{a0}' || c
        == '\u{1680}' || ('\u{2000}' <= c && c <= '\u{200a}') || c == '\u{2028}' || c
        == '\u{2029}' || c == '\u{202f}' || c == '\u{205f}' || c == '\u{3000}'
}

/// Sin los blancos del principio.
pub open spec fn sin_blancos_iniciales(s: Seq<char>) -> Seq<char>
    decreases s.len(),
{
    if s.len() > 0 && es_blanco(s[0]) {
        sin_blancos_iniciales(s.drop_first())
    } else {
        s
    }
}

/// Sin los blancos del final.
pub open spec fn sin_blancos_finales(s: Seq<char>) -> Seq<char>
    decreases s.len(),
{
    if s.len() > 0 && es_blanco(s.last()) {
        sin_blancos_finales(s.drop_last())
    } else {
        s
    }
}

/// Sin los blancos de los dos extremos (`str::trim`).
pub open spec fn recortar(s: Seq<char>) -> Seq<char> {
    sin_blancos_finales(sin_blancos_iniciales(s))
}

/// Los límites `[a, b)` del texto recortado dentro de `v`.
pub fn limites_recortados(v: &[char]) -> (r: (usize, usize))
    ensures
        r.0 <= r.1 <= v@.len(),
        v@.subrange(r.0 as int, r.1 as int) == recortar(v@),
{
    let n = v.len();
    let mut a: usize = 0;
    assert(v@.subrange(0, n as int) == v@);
    while a < n && es_blanco_exec(v[a])
        invariant
            a <= n == v@.len(),
            sin_blancos_iniciales(v@) == sin_blancos_iniciales(v@.subrange(a as int, n as int)),
        decreases n - a,
    {
        assert(v@.subrange(a as int, n as int).drop_first() == v@.subrange(a + 1, n as int));
        a = a + 1;
    }
    let mut b: usize = n;
    assert(sin_blancos_iniciales(v@) == v@.subrange(a as int, n as int));
    while b > a && es_blanco_exec(v[b - 1])
        invariant
            a <= b <= n == v@.len(),
            recortar(v@) == sin_blancos_finales(v@.subrange(a as int, b as int)),
        decreases b,
    {
        assert(v@.subrange(a as int, b as int).drop_last() == v@.subrange(a as int, b - 1));
        b = b - 1;
    }
    (a, b)
}

/// Copia recortada.
pub fn recortar_vec(v: &[char]) -> (r: Vec<char>)
    ensures
        r@ == recortar(v@),
{
    let (a, b) = limites_recortados(v);
    tramo(v, a, b)
}

// ---------------------------------------------------------------------------
// Mayúsculas y minúsculas ASCII
// ---------------------------------------------------------------------------

pub open spec fn minuscula(c: char) -> char {
    if 'A' <= c && c <= 'Z' {
        ((c as u32) + 32) as char
    } else {
        c
    }
}

pub open spec fn mayuscula(c: char) -> char {
    if 'a' <= c && c <= 'z' {
        ((c as u32) - 32) as char
    } else {
        c
    }
}

pub fn minuscula_exec(c: char) -> (r: char)
    ensures
        r == minuscula(c),
{
    if 'A' <= c && c <= 'Z' {
        ((c as u8) + 32) as char
    } else {
        c
    }
}

pub fn mayuscula_exec(c: char) -> (r: char)
    ensures
        r == mayuscula(c),
{
    if 'a' <= c && c <= 'z' {
        ((c as u8) - 32) as char
    } else {
        c
    }
}

/// `to_ascii_lowercase`.
pub open spec fn minusculas(s: Seq<char>) -> Seq<char> {
    s.map_values(|c: char| minuscula(c))
}

/// `to_ascii_uppercase`.
pub open spec fn mayusculas(s: Seq<char>) -> Seq<char> {
    s.map_values(|c: char| mayuscula(c))
}

pub fn minusculas_vec(v: &[char]) -> (r: Vec<char>)
    ensures
        r@ == minusculas(v@),
{
    let mut r: Vec<char> = Vec::new();
    let mut i: usize = 0;
    while i < v.len()
        invariant
            i <= v@.len(),
            r@ == minusculas(v@.take(i as int)),
        decreases v@.len() - i,
    {
        r.push(minuscula_exec(v[i]));
        i = i + 1;
        assert(r@ == minusculas(v@.take(i as int)));
    }
    assert(v@.take(v@.len() as int) == v@);
    r
}

pub fn mayusculas_vec(v: &[char]) -> (r: Vec<char>)
    ensures
        r@ == mayusculas(v@),
{
    let mut r: Vec<char> = Vec::new();
    let mut i: usize = 0;
    while i < v.len()
        invariant
            i <= v@.len(),
            r@ == mayusculas(v@.take(i as int)),
        decreases v@.len() - i,
    {
        r.push(mayuscula_exec(v[i]));
        i = i + 1;
        assert(r@ == mayusculas(v@.take(i as int)));
    }
    assert(v@.take(v@.len() as int) == v@);
    r
}

/// `eq_ignore_ascii_case`.
pub open spec fn iguales_sin_mayusculas(a: Seq<char>, b: Seq<char>) -> bool {
    minusculas(a) == minusculas(b)
}

pub fn iguales_sin_mayusculas_exec(a: &[char], b: &[char]) -> (r: bool)
    ensures
        r == iguales_sin_mayusculas(a@, b@),
{
    if a.len() != b.len() {
        assert(minusculas(a@).len() != minusculas(b@).len());
        return false;
    }
    let mut i: usize = 0;
    while i < a.len()
        invariant
            i <= a@.len() == b@.len(),
            forall|j: int| 0 <= j < i ==> minuscula(#[trigger] a@[j]) == minuscula(b@[j]),
        decreases a@.len() - i,
    {
        if minuscula_exec(a[i]) != minuscula_exec(b[i]) {
            assert(minusculas(a@)[i as int] != minusculas(b@)[i as int]);
            return false;
        }
        i = i + 1;
    }
    assert(minusculas(a@) =~= minusculas(b@));
    true
}

// ---------------------------------------------------------------------------
// Búsqueda
// ---------------------------------------------------------------------------

/// La primera posición de `c` en `s`.
pub open spec fn primera(s: Seq<char>, c: char) -> Option<int>
    decreases s.len(),
{
    if s.len() == 0 {
        None
    } else if s[0] == c {
        Some(0)
    } else {
        match primera(s.drop_first(), c) {
            Some(i) => Some(i + 1),
            None => None,
        }
    }
}

pub proof fn lema_primera(s: Seq<char>, c: char, i: int)
    requires
        0 <= i <= s.len(),
        forall|j: int| 0 <= j < i ==> s[j] != c,
    ensures
        i < s.len() && s[i] == c ==> primera(s, c) == Some(i),
        i == s.len() ==> primera(s, c) is None,
    decreases i,
{
    if i > 0 {
        lema_primera(s.drop_first(), c, i - 1);
    }
}

/// La primera posición de `c`, calculada.
pub fn primera_exec(v: &[char], c: char) -> (r: Option<usize>)
    ensures
        r matches Some(i) ==> primera(v@, c) == Some(i as int) && i < v@.len() && v@[i as int] == c,
        r is None ==> primera(v@, c) is None,
{
    let mut i: usize = 0;
    while i < v.len()
        invariant
            i <= v@.len(),
            forall|j: int| 0 <= j < i ==> v@[j] != c,
        decreases v@.len() - i,
    {
        if v[i] == c {
            proof {
                lema_primera(v@, c, i as int);
            }
            return Some(i);
        }
        i = i + 1;
    }
    proof {
        lema_primera(v@, c, i as int);
    }
    None
}

/// `n` aparece dentro de `h`.
pub open spec fn contiene(h: Seq<char>, n: Seq<char>) -> bool {
    exists|i: int| 0 <= i && i + n.len() <= h.len() && #[trigger] h.subrange(i, i + n.len()) == n
}

/// `h` empieza con `n`.
pub open spec fn empieza_con(h: Seq<char>, n: Seq<char>) -> bool {
    n.len() <= h.len() && h.take(n.len() as int) == n
}

pub fn empieza_en(h: &[char], i: usize, n: &[char]) -> (r: bool)
    requires
        i <= h@.len(),
    ensures
        r == (i + n@.len() <= h@.len() && h@.subrange(i as int, i + n@.len()) == n@),
{
    let hl = h.len();
    if n.len() > hl - i {
        return false;
    }
    let mut k: usize = 0;
    while k < n.len()
        invariant
            k <= n@.len(),
            hl == h@.len(),
            i <= h@.len(),
            i + n@.len() <= h@.len(),
            forall|j: int| 0 <= j < k ==> h@[i + j] == n@[j],
        decreases n@.len() - k,
    {
        if h[i + k] != n[k] {
            assert(h@.subrange(i as int, i + n@.len())[k as int] != n@[k as int]);
            return false;
        }
        k = k + 1;
    }
    assert(h@.subrange(i as int, i + n@.len()) =~= n@);
    true
}

pub fn contiene_exec(h: &[char], n: &[char]) -> (r: bool)
    ensures
        r == contiene(h@, n@),
{
    if n.len() > h.len() {
        return false;
    }
    if n.len() == 0 {
        assert(h@.subrange(0int, 0int + n@.len()) =~= n@);
        return true;
    }
    let mut i: usize = 0;
    while i <= h.len() - n.len()
        invariant
            1 <= n@.len() <= h@.len(),
            i <= h@.len() - n@.len() + 1,
            forall|j: int| 0 <= j < i ==> #[trigger] h@.subrange(j, j + n@.len()) != n@,
        decreases h@.len() - n@.len() + 1 - i,
    {
        if empieza_en(h, i, n) {
            return true;
        }
        i = i + 1;
    }
    false
}

// ---------------------------------------------------------------------------
// Partir y unir
// ---------------------------------------------------------------------------

/// Los pedazos de `s` separados por `sep` (`str::split`): siempre hay al
/// menos uno.
pub open spec fn partes(s: Seq<char>, sep: char) -> Seq<Seq<char>>
    decreases s.len(),
{
    if s.len() == 0 {
        seq![Seq::<char>::empty()]
    } else {
        let p = partes(s.drop_last(), sep);
        if s.last() == sep {
            p.push(Seq::<char>::empty())
        } else {
            p.update(p.len() - 1, p.last().push(s.last()))
        }
    }
}

pub proof fn lema_partes_no_vacias(s: Seq<char>, sep: char)
    ensures
        partes(s, sep).len() >= 1,
    decreases s.len(),
{
    if s.len() > 0 {
        lema_partes_no_vacias(s.drop_last(), sep);
    }
}

/// `str::split` sobre caracteres.
pub fn partes_vec(v: &[char], sep: char) -> (r: Vec<Vec<char>>)
    ensures
        vistas(r@) == partes(v@, sep),
{
    let mut r: Vec<Vec<char>> = Vec::new();
    let mut actual: Vec<char> = Vec::new();
    let mut i: usize = 0;
    while i < v.len()
        invariant
            i <= v@.len(),
            r@.len() + 1 == partes(v@.take(i as int), sep).len(),
            forall|j: int| 0 <= j < r@.len() ==> #[trigger] r@[j]@ == partes(v@.take(i as int), sep)[j],
            actual@ == partes(v@.take(i as int), sep).last(),
        decreases v@.len() - i,
    {
        proof {
            lema_partes_no_vacias(v@.take(i as int), sep);
            assert(v@.take(i + 1).drop_last() == v@.take(i as int));
        }
        if v[i] == sep {
            r.push(actual);
            actual = Vec::new();
        } else {
            actual.push(v[i]);
        }
        i = i + 1;
    }
    assert(v@.take(v@.len() as int) == v@);
    r.push(actual);
    assert(vistas(r@) =~= partes(v@, sep));
    r
}

/// Los pedazos unidos con `sep` entre cada dos (`join`).
pub open spec fn unir(partes: Seq<Seq<char>>, sep: Seq<char>) -> Seq<char>
    decreases partes.len(),
{
    if partes.len() == 0 {
        Seq::<char>::empty()
    } else if partes.len() == 1 {
        partes[0]
    } else {
        unir(partes.drop_last(), sep) + sep + partes.last()
    }
}

/// `unir` vista desde la primera parte: la primera, el separador y el resto
/// unido.
pub proof fn lema_unir_por_delante(ps: Seq<Seq<char>>, sep: Seq<char>)
    requires
        ps.len() >= 2,
    ensures
        unir(ps, sep) == ps[0] + sep + unir(ps.drop_first(), sep),
    decreases ps.len(),
{
    let a = ps.drop_last();
    let b = ps.drop_first();
    assert(unir(ps, sep) == unir(a, sep) + sep + ps.last());
    assert(a[0] == ps[0]);
    assert(b.last() == ps.last());
    if ps.len() > 2 {
        lema_unir_por_delante(a, sep);
        assert(a.drop_first() =~= b.drop_last());
        assert(unir(b, sep) == unir(b.drop_last(), sep) + sep + b.last());
        assert(ps[0] + sep + unir(b.drop_last(), sep) + sep + ps.last() =~= ps[0] + sep + (unir(
            b.drop_last(),
            sep,
        ) + sep + b.last()));
    } else {
        assert(unir(a, sep) == a[0]);
        assert(unir(b, sep) == b[0]);
        assert(b[0] == ps.last());
    }
}

/// `join` sobre caracteres.
pub fn unir_vec(partes: &Vec<Vec<char>>, sep: &[char]) -> (r: Vec<char>)
    ensures
        r@ == unir(vistas(partes@), sep@),
{
    let ghost vs = vistas(partes@);
    let mut r: Vec<char> = Vec::new();
    let mut i: usize = 0;
    while i < partes.len()
        invariant
            i <= partes@.len(),
            vs == vistas(partes@),
            r@ == unir(vs.take(i as int), sep@),
        decreases partes@.len() - i,
    {
        if i > 0 {
            agregar_chars(&mut r, sep);
        }
        agregar_chars(&mut r, &partes[i]);
        proof {
            assert(vs.take(i + 1).drop_last() == vs.take(i as int));
            if i == 0 {
                assert(vs.take(1) == seq![partes@[0]@]);
            }
        }
        i = i + 1;
    }
    assert(vs.take(partes@.len() as int) == vs);
    r
}

} // verus!

verus! {

/// Igualdad de dos tramos de caracteres.
pub fn iguales(a: &[char], b: &[char]) -> (r: bool)
    ensures
        r == (a@ == b@),
{
    if a.len() != b.len() {
        return false;
    }
    let mut i: usize = 0;
    while i < a.len()
        invariant
            i <= a@.len() == b@.len(),
            forall|j: int| 0 <= j < i ==> a@[j] == b@[j],
        decreases a@.len() - i,
    {
        if a[i] != b[i] {
            return false;
        }
        i = i + 1;
    }
    assert(a@ =~= b@);
    true
}

/// `s` sin ninguna aparición de `c`.
pub open spec fn sin_char(s: Seq<char>, c: char) -> Seq<char>
    decreases s.len(),
{
    if s.len() == 0 {
        s
    } else {
        let p = sin_char(s.drop_last(), c);
        if s.last() == c {
            p
        } else {
            p.push(s.last())
        }
    }
}

pub fn sin_char_vec(v: &[char], c: char) -> (r: Vec<char>)
    ensures
        r@ == sin_char(v@, c),
{
    let mut r: Vec<char> = Vec::new();
    let mut i: usize = 0;
    while i < v.len()
        invariant
            i <= v@.len(),
            r@ == sin_char(v@.take(i as int), c),
        decreases v@.len() - i,
    {
        assert(v@.take(i + 1).drop_last() == v@.take(i as int));
        if v[i] != c {
            r.push(v[i]);
        }
        i = i + 1;
    }
    assert(v@.take(v@.len() as int) == v@);
    r
}

/// Las vistas de una lista de cadenas.
pub open spec fn vistas(v: Seq<Vec<char>>) -> Seq<Seq<char>> {
    v.map_values(|p: Vec<char>| p@)
}

/// Las vistas de una lista de `String`.
pub open spec fn vistas_string(v: Seq<String>) -> Seq<Seq<char>> {
    v.map_values(|p: String| p@)
}

/// Pasa cada lista de caracteres a `String`.
pub fn a_strings(v: &Vec<Vec<char>>) -> (r: Vec<String>)
    ensures
        vistas_string(r@) == vistas(v@),
{
    let mut r: Vec<String> = Vec::new();
    let mut i: usize = 0;
    while i < v.len()
        invariant
            i <= v@.len(),
            vistas_string(r@) == vistas(v@).take(i as int),
        decreases v@.len() - i,
    {
        let ghost antes = r@;
        let s = a_string(v[i].as_slice());
        r.push(s);
        assert(r@ == antes.push(s));
        assert(vistas_string(r@) =~= vistas_string(antes).push(v@[i as int]@));
        assert(vistas(v@).take(i + 1) =~= vistas(v@).take(i as int).push(v@[i as int]@));
        i = i + 1;
    }
    assert(vistas(v@).take(v@.len() as int) =~= vistas(v@));
    r
}

} // verus!

verus! {

/// Sin las apariciones de `c` del principio.
pub open spec fn sin_iniciales(s: Seq<char>, c: char) -> Seq<char>
    decreases s.len(),
{
    if s.len() > 0 && s[0] == c {
        sin_iniciales(s.drop_first(), c)
    } else {
        s
    }
}

/// Sin las apariciones de `c` del final.
pub open spec fn sin_finales(s: Seq<char>, c: char) -> Seq<char>
    decreases s.len(),
{
    if s.len() > 0 && s.last() == c {
        sin_finales(s.drop_last(), c)
    } else {
        s
    }
}

/// Sin las apariciones de `c` de los dos extremos (`trim_matches`).
pub open spec fn recortar_char(s: Seq<char>, c: char) -> Seq<char> {
    sin_finales(sin_iniciales(s, c), c)
}

pub fn recortar_char_vec(v: &[char], c: char) -> (r: Vec<char>)
    ensures
        r@ == recortar_char(v@, c),
{
    let n = v.len();
    let mut a: usize = 0;
    assert(v@.subrange(0, n as int) == v@);
    while a < n && v[a] == c
        invariant
            a <= n == v@.len(),
            sin_iniciales(v@, c) == sin_iniciales(v@.subrange(a as int, n as int), c),
        decreases n - a,
    {
        assert(v@.subrange(a as int, n as int).drop_first() == v@.subrange(a + 1, n as int));
        a = a + 1;
    }
    let mut b: usize = n;
    assert(sin_iniciales(v@, c) == v@.subrange(a as int, n as int));
    while b > a && v[b - 1] == c
        invariant
            a <= b <= n == v@.len(),
            recortar_char(v@, c) == sin_finales(v@.subrange(a as int, b as int), c),
        decreases b,
    {
        assert(v@.subrange(a as int, b as int).drop_last() == v@.subrange(a as int, b - 1));
        b = b - 1;
    }
    tramo(v, a, b)
}

/// Ningún carácter de `s` es `c`.
pub open spec fn sin_el(s: Seq<char>, c: char) -> bool {
    forall|i: int| 0 <= i < s.len() ==> s[i] != c
}

/// Sin `c` en `s`, tampoco lo hay en lo que queda al quitar caracteres de
/// las puntas.
pub proof fn lema_puntas_sin_el(s: Seq<char>, c: char, d: char)
    requires
        sin_el(s, c),
    ensures
        sin_el(sin_blancos_iniciales(s), c),
        sin_el(sin_blancos_finales(s), c),
        sin_el(sin_iniciales(s, d), c),
        sin_el(sin_finales(s, d), c),
    decreases s.len(),
{
    if s.len() > 0 {
        assert(sin_el(s.drop_first(), c)) by {
            assert forall|i: int| 0 <= i < s.drop_first().len() implies s.drop_first()[i] != c by {
                assert(s.drop_first()[i] == s[i + 1]);
            }
        }
        assert(sin_el(s.drop_last(), c)) by {
            assert forall|i: int| 0 <= i < s.drop_last().len() implies s.drop_last()[i] != c by {
                assert(s.drop_last()[i] == s[i]);
            }
        }
        lema_puntas_sin_el(s.drop_first(), c, d);
        lema_puntas_sin_el(s.drop_last(), c, d);
    }
}

/// Sin el separador, una sola parte: el texto entero.
pub proof fn lema_partes_de_uno(s: Seq<char>, sep: char)
    requires
        sin_el(s, sep),
    ensures
        partes(s, sep) == seq![s],
    decreases s.len(),
{
    if s.len() > 0 {
        lema_partes_de_uno(s.drop_last(), sep);
        assert(s.drop_last().push(s.last()) =~= s);
    } else {
        assert(s =~= Seq::<char>::empty());
    }
}

/// Sin `c` en `s`, tampoco lo hay en sus partes.
pub proof fn lema_partes_sin_el(s: Seq<char>, sep: char, c: char)
    requires
        sin_el(s, c),
    ensures
        forall|k: int| 0 <= k < partes(s, sep).len() ==> sin_el(#[trigger] partes(s, sep)[k], c),
    decreases s.len(),
{
    if s.len() > 0 {
        let a = s.drop_last();
        assert(sin_el(a, c)) by {
            assert forall|i: int| 0 <= i < a.len() implies a[i] != c by {
                assert(a[i] == s[i]);
            }
        }
        lema_partes_sin_el(a, sep, c);
        lema_partes_no_vacias(a, sep);
        let p = partes(a, sep);
        assert(s.last() == s[s.len() - 1]);
        if s.last() != sep {
            let u = p.last().push(s.last());
            assert(sin_el(p[p.len() - 1], c));
            assert(sin_el(u, c)) by {
                assert forall|i: int| 0 <= i < u.len() implies u[i] != c by {
                    if i < p.last().len() {
                        assert(u[i] == p[p.len() - 1][i]);
                    }
                }
            }
            let r = p.update(p.len() - 1, u);
            assert forall|k: int| 0 <= k < r.len() implies sin_el(#[trigger] r[k], c) by {
                if k < p.len() - 1 {
                    assert(r[k] == p[k]);
                }
            }
        } else {
            let r = p.push(Seq::<char>::empty());
            assert forall|k: int| 0 <= k < r.len() implies sin_el(#[trigger] r[k], c) by {
                if k < p.len() {
                    assert(r[k] == p[k]);
                }
            }
        }
    }
}

/// Si `c` no aparece, no hay dónde partir.
pub proof fn lema_sin_primera(s: Seq<char>, c: char)
    requires
        primera(s, c) is None,
    ensures
        sin_el(s, c),
    decreases s.len(),
{
    if s.len() > 0 {
        lema_sin_primera(s.drop_first(), c);
        assert forall|i: int| 0 <= i < s.len() implies s[i] != c by {
            if i > 0 {
                assert(s[i] == s.drop_first()[i - 1]);
            }
        }
    }
}

/// Lo de antes y lo de después de la primera aparición de `c`
/// (`split_once`).
pub open spec fn dividir_en(s: Seq<char>, c: char) -> Option<(Seq<char>, Seq<char>)> {
    match primera(s, c) {
        Some(k) => Some((s.take(k), s.skip(k + 1))),
        None => None,
    }
}

pub fn dividir_en_exec(v: &[char], c: char) -> (r: Option<(Vec<char>, Vec<char>)>)
    ensures
        match r {
            Some(p) => dividir_en(v@, c) == Some((p.0@, p.1@)),
            None => dividir_en(v@, c) is None,
        },
{
    let n = v.len();
    match primera_exec(v, c) {
        None => None,
        Some(k) => {
            let antes = tramo(v, 0, k);
            let despues = tramo(v, k + 1, n);
            assert(v@.subrange(0, k as int) == v@.take(k as int));
            assert(v@.subrange(k + 1, n as int) == v@.skip(k + 1));
            Some((antes, despues))
        },
    }
}

/// El tope de tamaño de un texto que se decodifica: sus bytes en UTF-8
/// tienen que entrar cuatro veces en `usize`.
pub open spec fn dentro_del_tope(s: Seq<char>) -> bool {
    s.len() <= usize::MAX / 16
}

pub proof fn lema_largo_utf8(s: Seq<char>)
    ensures
        vstd::utf8::encode_utf8(s).len() <= 4 * s.len(),
    decreases s.len(),
{
    if s.len() > 0 {
        lema_largo_utf8(s.drop_first());
    }
}

/// Los bytes en UTF-8 de unos caracteres.
pub fn bytes_de(v: &[char]) -> (r: Vec<u8>)
    ensures
        r@ == vstd::utf8::encode_utf8(v@),
{
    let s = a_string(v);
    let b = s.as_str().as_bytes();
    let mut r: Vec<u8> = Vec::new();
    let mut i: usize = 0;
    while i < b.len()
        invariant
            i <= b@.len(),
            b@ == vstd::utf8::encode_utf8(v@),
            r@ == b@.take(i as int),
        decreases b@.len() - i,
    {
        r.push(b[i]);
        i = i + 1;
        assert(r@ == b@.take(i as int));
    }
    assert(b@.take(b@.len() as int) == b@);
    r
}

} // verus!

verus! {

/// Cuántos bytes ocupa un carácter en UTF-8.
pub open spec fn ancho(c: char) -> nat {
    vstd::utf8::encode_scalar(c as u32).len()
}

pub fn ancho_exec(c: char) -> (r: usize)
    ensures
        r == ancho(c),
        1 <= r <= 4,
{
    let u = c as u32;
    proof {
        vstd::utf8::char_is_scalar(c);
    }
    if u <= 0x7F {
        1
    } else if u <= 0x7FF {
        2
    } else if u <= 0xFFFF {
        3
    } else {
        4
    }
}

pub proof fn lema_utf8_concat(a: Seq<char>, b: Seq<char>)
    ensures
        vstd::utf8::encode_utf8(a + b) == vstd::utf8::encode_utf8(a) + vstd::utf8::encode_utf8(b),
    decreases a.len(),
{
    if a.len() > 0 {
        lema_utf8_concat(a.drop_first(), b);
        assert((a + b).drop_first() == a.drop_first() + b);
        assert((a + b)[0] == a[0]);
        assert(vstd::utf8::encode_scalar(a[0] as u32) + (vstd::utf8::encode_utf8(a.drop_first())
            + vstd::utf8::encode_utf8(b)) == (vstd::utf8::encode_scalar(a[0] as u32)
            + vstd::utf8::encode_utf8(a.drop_first())) + vstd::utf8::encode_utf8(b));
    } else {
        assert(a + b == b);
        assert(vstd::utf8::encode_utf8(a) == Seq::<u8>::empty());
        assert(Seq::<u8>::empty() + vstd::utf8::encode_utf8(b) == vstd::utf8::encode_utf8(b));
    }
}

/// La suma de los largos.
pub open spec fn suma(ls: Seq<Seq<char>>) -> nat
    decreases ls.len(),
{
    if ls.len() == 0 {
        0
    } else {
        suma(ls.drop_last()) + ls.last().len()
    }
}

pub proof fn lema_suma_partes(s: Seq<char>, sep: char)
    ensures
        suma(partes(s, sep)) <= s.len(),
        forall|i: int| 0 <= i < partes(s, sep).len() ==> (#[trigger] partes(s, sep)[i]).len() <= s.len(),
    decreases s.len(),
{
    if s.len() > 0 {
        lema_suma_partes(s.drop_last(), sep);
        lema_partes_no_vacias(s.drop_last(), sep);
        let p = partes(s.drop_last(), sep);
        if s.last() == sep {
            assert(p.push(Seq::<char>::empty()).drop_last() == p);
        } else {
            let q = p.update(p.len() - 1, p.last().push(s.last()));
            assert(q.drop_last() == p.drop_last());
            assert(suma(p) == suma(p.drop_last()) + p.last().len());
        }
    } else {
        let e = seq![Seq::<char>::empty()];
        assert(e.drop_last() =~= Seq::<Seq<char>>::empty());
        assert(suma(Seq::<Seq<char>>::empty()) == 0);
        assert(e.last().len() == 0);
        assert(suma(e) == 0);
        assert(partes(s, sep) == e);
    }
}

} // verus!
