//! Las líneas de una tarjeta y la separación de varias tarjetas pegadas.

use vstd::prelude::*;
use crate::cadena::{
    sin_el, suma,
    copia,
    iguales, mayusculas, mayusculas_vec, recortar, recortar_vec, unir, unir_vec,
    a_chars, a_strings, agregar_chars, contiene, contiene_exec, minusculas, minusculas_vec, partes,
    partes_vec, primera, primera_exec, sin_char, sin_char_vec, tramo, vistas, vistas_string,
};

verus! {

// ---------------------------------------------------------------------------
// Especificación
// ---------------------------------------------------------------------------

/// Una línea sin el `\r` que la terminaba.
pub open spec fn sin_retorno(l: Seq<char>) -> Seq<char> {
    if l.len() > 0 && l.last() == '\r' {
        l.drop_last()
    } else {
        l
    }
}

/// Las líneas tal como vienen: partidas por `\n`, sin el `\r` final.
pub open spec fn lineas_crudas(t: Seq<char>) -> Seq<Seq<char>> {
    partes(t, '\n').map_values(|l: Seq<char>| sin_retorno(l))
}

/// Lo que anuncia un valor en `quoted-printable`.
pub open spec fn marca_imprimible() -> Seq<char> {
    "encoding=quoted-printable"@
}

/// El parámetro suelto con que la 2.1 declara `quoted-printable`.
pub open spec fn parametro_imprimible() -> Seq<char> {
    "quoted-printable"@
}

/// Lo de antes del valor declara `quoted-printable` (sin mirar mayúsculas
/// ni espacios): como `ENCODING=QUOTED-PRINTABLE` o como el parámetro suelto
/// `QUOTED-PRINTABLE` de la 2.1.
pub open spec fn anuncia_imprimible(izquierda: Seq<char>) -> bool {
    let x = sin_char(minusculas(izquierda), ' ');
    ||| contiene(x, marca_imprimible())
    ||| exists|i: int| 0 <= i < partes(x, ';').len() && #[trigger] partes(x, ';')[i] == parametro_imprimible()
}

/// Una línea en `quoted-printable` que sigue en la siguiente: termina en `=`
/// **y** antes del primer dos puntos declara la codificación.
pub open spec fn queda_a_medias(l: Seq<char>) -> bool {
    &&& l.len() > 0
    &&& l.last() == '='
    &&& match primera(l, ':') {
        Some(k) => anuncia_imprimible(l.take(k)),
        None => false,
    }
}

/// Sin el último carácter, si lo hay (`String::pop`).
pub open spec fn sin_ultimo(s: Seq<char>) -> Seq<char> {
    if s.len() > 0 {
        s.drop_last()
    } else {
        s
    }
}

/// La línea empieza con un espacio o una tabulación: es la continuación de
/// la anterior.
pub open spec fn es_pliegue(l: Seq<char>) -> bool {
    l.len() > 0 && (l[0] == ' ' || l[0] == '\t')
}

/// Un paso del juntado: el estado es lo juntado hasta acá y si la última
/// línea espera una continuación de `quoted-printable`.
pub open spec fn paso_juntar(
    estado: (Seq<Seq<char>>, bool),
    linea: Seq<char>,
) -> (Seq<Seq<char>>, bool) {
    let lineas = estado.0;
    if estado.1 && lineas.len() > 0 {
        let ultima = sin_ultimo(lineas.last()) + linea;
        (lineas.update(lineas.len() - 1, ultima), queda_a_medias(ultima))
    } else {
        let nuevas = if es_pliegue(linea) {
            if lineas.len() > 0 {
                lineas.update(lineas.len() - 1, lineas.last() + linea.drop_first())
            } else {
                lineas.push(linea.drop_first())
            }
        } else {
            lineas.push(linea)
        };
        (nuevas, queda_a_medias(nuevas.last()))
    }
}

/// El resultado de juntar las líneas crudas, una por una.
pub open spec fn juntar(crudas: Seq<Seq<char>>) -> (Seq<Seq<char>>, bool)
    decreases crudas.len(),
{
    if crudas.len() == 0 {
        (Seq::<Seq<char>>::empty(), false)
    } else {
        paso_juntar(juntar(crudas.drop_last()), crudas.last())
    }
}

/// Las líneas lógicas de un texto.
pub open spec fn lineas_unidas(t: Seq<char>) -> Seq<Seq<char>> {
    juntar(lineas_crudas(t)).0
}

// ---------------------------------------------------------------------------
// Largos
// ---------------------------------------------------------------------------

proof fn lema_suma_sin_retorno(ls: Seq<Seq<char>>)
    ensures
        suma(ls.map_values(|l: Seq<char>| sin_retorno(l))) <= suma(ls),
    decreases ls.len(),
{
    if ls.len() > 0 {
        lema_suma_sin_retorno(ls.drop_last());
        assert(ls.map_values(|l: Seq<char>| sin_retorno(l)).drop_last() =~= ls.drop_last().map_values(
            |l: Seq<char>| sin_retorno(l),
        ));
    }
}

proof fn lema_juntar(c: Seq<Seq<char>>)
    ensures
        forall|j: int| 0 <= j < juntar(c).0.len() ==> (#[trigger] juntar(c).0[j]).len() <= suma(c),
    decreases c.len(),
{
    if c.len() > 0 {
        let c0 = c.drop_last();
        lema_juntar(c0);
        let e = juntar(c0);
        let l = c.last();
        assert(suma(c) == suma(c0) + l.len());
        let r = paso_juntar(e, l);
        assert(juntar(c) == r);
        assert forall|j: int| 0 <= j < r.0.len() implies (#[trigger] r.0[j]).len() <= suma(c) by {
            if e.1 && e.0.len() > 0 {
                if j < e.0.len() - 1 {
                    assert(r.0[j] == e.0[j]);
                } else {
                    assert(sin_ultimo(e.0.last()).len() <= e.0[e.0.len() - 1].len());
                }
            } else if es_pliegue(l) {
                if e.0.len() > 0 {
                    if j < e.0.len() - 1 {
                        assert(r.0[j] == e.0[j]);
                    } else {
                        assert(e.0.last() == e.0[e.0.len() - 1]);
                    }
                } else {
                    assert(r.0[j] == l.drop_first());
                }
            } else {
                if j < e.0.len() {
                    assert(r.0[j] == e.0[j]);
                }
            }
        }
    }
}

/// Ninguna línea lógica es más larga que el texto del que sale.
pub proof fn lema_largo_lineas(t: Seq<char>)
    ensures
        forall|j: int| 0 <= j < lineas_unidas(t).len() ==> (#[trigger] lineas_unidas(t)[j]).len() <= t.len(),
{
    crate::cadena::lema_suma_partes(t, '\n');
    lema_suma_sin_retorno(partes(t, '\n'));
    lema_juntar(lineas_crudas(t));
}

// ---------------------------------------------------------------------------
// Implementación
// ---------------------------------------------------------------------------

fn queda_a_medias_exec(l: &[char]) -> (r: bool)
    ensures
        r == queda_a_medias(l@),
{
    if l.len() == 0 || l[l.len() - 1] != '=' {
        return false;
    }
    match primera_exec(l, ':') {
        None => false,
        Some(k) => {
            let izquierda = tramo(l, 0, k);
            let bajas = minusculas_vec(&izquierda);
            let limpias = sin_char_vec(&bajas, ' ');
            let marca = a_chars("encoding=quoted-printable");
            if contiene_exec(&limpias, &marca) {
                return true;
            }
            assert(izquierda@ == l@.take(k as int));
            let suelto = a_chars("quoted-printable");
            let piezas = partes_vec(&limpias, ';');
            let mut i: usize = 0;
            while i < piezas.len()
                invariant
                    i <= piezas@.len(),
                    vistas(piezas@) == partes(limpias@, ';'),
                    suelto@ == parametro_imprimible(),
                    limpias@ == sin_char(minusculas(l@.take(k as int)), ' '),
                    l@.len() > 0 && l@.last() == '=',
                    primera(l@, ':') == Some(k as int),
                    forall|j: int| 0 <= j < i ==> partes(limpias@, ';')[j] != parametro_imprimible(),
                decreases piezas@.len() - i,
            {
                if iguales(&piezas[i], &suelto) {
                    let ghost x = sin_char(minusculas(l@.take(k as int)), ' ');
                    assert(x == limpias@);
                    assert(partes(x, ';')[i as int] == parametro_imprimible());
                    assert(0 <= i < partes(x, ';').len());
                    assert(anuncia_imprimible(l@.take(k as int)));
                    return true;
                }
                i = i + 1;
            }
            false
        },
    }
}

/// Si una línea es un `quoted-printable` que sigue en la siguiente.
///
/// Las dos condiciones juntas: que el valor esté en `quoted-printable` **y**
/// que termine en `=`. El base64 de una foto termina en `=` y no sigue.
pub fn quedo_a_medias(linea: &str) -> (r: bool)
    ensures
        r == queda_a_medias(linea@),
{
    let v = a_chars(linea);
    queda_a_medias_exec(&v)
}

fn sin_retorno_vec(l: Vec<char>) -> (r: Vec<char>)
    ensures
        r@ == sin_retorno(l@),
{
    let mut l = l;
    if l.len() > 0 && l[l.len() - 1] == '\r' {
        l.pop();
    }
    l
}

/// Junta las líneas partidas de una tarjeta.
///
/// Hay dos formas de partir una línea. La de la 3.0 y la 4.0: la siguiente
/// empieza con un espacio o una tabulación, que se va. La de la 2.1, sólo
/// dentro de un valor en `quoted-printable`: la línea termina en `=`, que se
/// va, y la siguiente se pega sin mirar con qué empieza. El `=` solo no junta
/// nada: el base64 de una foto termina en `=` y se comería la propiedad
/// siguiente.
pub fn unir_lineas(texto: &str) -> (r: Vec<String>)
    ensures
        vistas_string(r@) == lineas_unidas(texto@),
{
    let chars = a_chars(texto);
    let lineas = unir_lineas_vec(&chars);
    a_strings(&lineas)
}

/// `unir_lineas` sobre caracteres.
pub fn unir_lineas_vec(chars: &[char]) -> (r: Vec<Vec<char>>)
    ensures
        vistas(r@) == lineas_unidas(chars@),
{
    let crudas = partes_vec(chars, '\n');
    let ghost esperadas = lineas_crudas(chars@);
    let mut lineas: Vec<Vec<char>> = Vec::new();
    let mut sigue = false;
    let mut i: usize = 0;
    while i < crudas.len()
        invariant
            i <= crudas@.len(),
            vistas(crudas@) == partes(chars@, '\n'),
            esperadas == lineas_crudas(chars@),
            esperadas.len() == crudas@.len(),
            (vistas(lineas@), sigue) == juntar(esperadas.take(i as int)),
        decreases crudas@.len() - i,
    {
        let linea = sin_retorno_vec(copia(&crudas[i]));
        assert(linea@ == esperadas[i as int]);
        assert(esperadas.take(i + 1).drop_last() == esperadas.take(i as int));
        assert(esperadas.take(i + 1).last() == esperadas[i as int]);
        let ghost antes = vistas(lineas@);
        if sigue && lineas.len() > 0 {
            let mut ultima = lineas.pop().unwrap();
            ultima.pop();
            agregar_chars(&mut ultima, &linea);
            sigue = queda_a_medias_exec(&ultima);
            lineas.push(ultima);
            assert(vistas(lineas@) =~= antes.update(antes.len() - 1, sin_ultimo(antes.last()) + linea@));
        } else {
            if linea.len() > 0 && (linea[0] == ' ' || linea[0] == '\t') {
                let continuacion = tramo(&linea, 1, linea.len());
                assert(continuacion@ == linea@.drop_first());
                if lineas.len() > 0 {
                    let mut ultima = lineas.pop().unwrap();
                    agregar_chars(&mut ultima, &continuacion);
                    lineas.push(ultima);
                    assert(vistas(lineas@) =~= antes.update(antes.len() - 1, antes.last() + linea@.drop_first()));
                } else {
                    lineas.push(continuacion);
                    assert(vistas(lineas@) =~= antes.push(linea@.drop_first()));
                }
            } else {
                lineas.push(linea);
                assert(vistas(lineas@) =~= antes.push(linea@));
            }
            let n = lineas.len();
            sigue = queda_a_medias_exec(&lineas[n - 1]);
        }
        i = i + 1;
    }
    assert(esperadas.take(crudas@.len() as int) == esperadas);
    lineas
}

// ---------------------------------------------------------------------------
// Varias tarjetas
// ---------------------------------------------------------------------------

/// Cómo se reconoce una línea: recortada y en mayúsculas.
pub open spec fn forma(l: Seq<char>) -> Seq<char> {
    mayusculas(recortar(l))
}

/// El separador con que se vuelven a unir las líneas de una tarjeta.
pub open spec fn fin_de_linea() -> Seq<char> {
    "\r\n"@
}

/// Las tarjetas cerradas, con la abierta (si hay una) cerrada al final.
pub open spec fn cerrar(estado: (Seq<Seq<char>>, Option<Seq<Seq<char>>>)) -> Seq<Seq<char>> {
    match estado.1 {
        Some(abiertas) => estado.0.push(unir(abiertas, fin_de_linea())),
        None => estado.0,
    }
}

/// Un paso de la separación: las tarjetas cerradas y las líneas de la que
/// está abierta, si hay una. Un `BEGIN:VCARD` cierra la tarjeta que quedó
/// sin su `END` (que se aprovecha igual) y abre otra.
pub open spec fn paso_tarjetas(
    estado: (Seq<Seq<char>>, Option<Seq<Seq<char>>>),
    linea: Seq<char>,
) -> (Seq<Seq<char>>, Option<Seq<Seq<char>>>) {
    if forma(linea) == "BEGIN:VCARD"@ {
        (cerrar(estado), Some(seq![linea]))
    } else if forma(linea) == "END:VCARD"@ {
        match estado.1 {
            Some(abiertas) => (estado.0.push(unir(abiertas.push(linea), fin_de_linea())), None),
            None => estado,
        }
    } else {
        match estado.1 {
            Some(abiertas) => (estado.0, Some(abiertas.push(linea))),
            None => estado,
        }
    }
}

pub open spec fn separar(lineas: Seq<Seq<char>>) -> (Seq<Seq<char>>, Option<Seq<Seq<char>>>)
    decreases lineas.len(),
{
    if lineas.len() == 0 {
        (Seq::<Seq<char>>::empty(), None)
    } else {
        paso_tarjetas(separar(lineas.drop_last()), lineas.last())
    }
}

/// Las tarjetas de un texto: cada una desde su `BEGIN:VCARD` hasta su
/// `END:VCARD`, con las líneas unidas por `\r\n`; lo que está fuera de una
/// tarjeta se ignora, y una tarjeta sin cierre se aprovecha igual.
pub open spec fn tarjetas_separadas(t: Seq<char>) -> Seq<Seq<char>> {
    cerrar(separar(lineas_unidas(t)))
}

/// Separa las tarjetas de una respuesta que trae varias pegadas.
///
/// Hay libretas exportadas que son un solo archivo con miles. Sin
/// separarlas, se leería una sola con los datos de todas mezclados.
pub fn tarjetas_de(crudo: &str) -> (r: Vec<String>)
    ensures
        vistas_string(r@) == tarjetas_separadas(crudo@),
{
    let chars = a_chars(crudo);
    let lineas = unir_lineas_vec(&chars);
    let comienzo = a_chars("BEGIN:VCARD");
    let cierre = a_chars("END:VCARD");
    let separador = a_chars("\r\n");
    let mut tarjetas: Vec<Vec<char>> = Vec::new();
    let mut abierta = false;
    let mut actual: Vec<Vec<char>> = Vec::new();
    let mut i: usize = 0;
    while i < lineas.len()
        invariant
            i <= lineas@.len(),
            vistas(lineas@) == lineas_unidas(crudo@),
            comienzo@ == "BEGIN:VCARD"@,
            cierre@ == "END:VCARD"@,
            separador@ == fin_de_linea(),
            separar(vistas(lineas@).take(i as int)) == (vistas(tarjetas@), if abierta {
                Some(vistas(actual@))
            } else {
                None::<Seq<Seq<char>>>
            }),
        decreases lineas@.len() - i,
    {
        let ghost ls = vistas(lineas@);
        assert(ls.take(i + 1).drop_last() == ls.take(i as int));
        assert(ls.take(i + 1).last() == lineas@[i as int]@);
        assert(separar(ls.take(i + 1)) == paso_tarjetas(separar(ls.take(i as int)), lineas@[i as int]@));
        let recortada = recortar_vec(&lineas[i]);
        let forma_linea = mayusculas_vec(&recortada);
        if iguales(&forma_linea, &comienzo) {
            if abierta {
                let ghost antes = vistas(tarjetas@);
                let unida = unir_vec(&actual, &separador);
                tarjetas.push(unida);
                assert(vistas(tarjetas@) =~= antes.push(unida@));
            }
            abierta = true;
            actual = Vec::new();
            actual.push(copia(&lineas[i]));
            assert(vistas(actual@) =~= seq![lineas@[i as int]@]);
            assert(forma(lineas@[i as int]@) == "BEGIN:VCARD"@);
            assert(separar(ls.take(i + 1)) == (vistas(tarjetas@), Some(vistas(actual@))));
        } else if iguales(&forma_linea, &cierre) {
            if abierta {
                let ghost antes = vistas(tarjetas@);
                let ghost abiertas = vistas(actual@);
                actual.push(copia(&lineas[i]));
                assert(vistas(actual@) =~= abiertas.push(ls[i as int]));
                let unida = unir_vec(&actual, &separador);
                tarjetas.push(unida);
                abierta = false;
                actual = Vec::new();
                assert(vistas(tarjetas@) =~= antes.push(unida@));
                assert(forma(lineas@[i as int]@) == "END:VCARD"@);
                assert(forma(lineas@[i as int]@) != "BEGIN:VCARD"@);
                assert(separar(ls.take(i + 1)).1 == None::<Seq<Seq<char>>>);
                assert(separar(ls.take(i + 1)).0 == vistas(tarjetas@));
            }
        } else if abierta {
            let ghost antes = vistas(actual@);
            actual.push(copia(&lineas[i]));
            assert(vistas(actual@) =~= antes.push(lineas@[i as int]@));
        }
        i = i + 1;
    }
    assert(vistas(lineas@).take(lineas@.len() as int) == vistas(lineas@));
    if abierta {
        let ghost antes = vistas(tarjetas@);
        let unida = unir_vec(&actual, &separador);
        tarjetas.push(unida);
        assert(vistas(tarjetas@) =~= antes.push(unida@));
    }
    a_strings(&tarjetas)
}

} // verus!

verus! {

// ---------------------------------------------------------------------------
// Leyes
// ---------------------------------------------------------------------------

proof fn lema_juntar_sin_pliegues(c: Seq<Seq<char>>)
    requires
        forall|i: int| 0 <= i < c.len() ==> !es_pliegue(#[trigger] c[i]) && !queda_a_medias(c[i]),
    ensures
        juntar(c) == (c, false),
    decreases c.len(),
{
    if c.len() > 0 {
        lema_juntar_sin_pliegues(c.drop_last());
        assert(c.drop_last().push(c.last()) == c);
        assert(!es_pliegue(c[c.len() - 1]));
    }
}

/// Un texto en el que ninguna línea está plegada (no empieza con espacio ni
/// tabulación) ni anuncia una continuación de `quoted-printable` queda con
/// sus líneas tal cual: juntar no inventa ni pierde nada.
pub proof fn ley_sin_pliegues(t: Seq<char>)
    requires
        forall|i: int|
            0 <= i < lineas_crudas(t).len() ==> !es_pliegue(#[trigger] lineas_crudas(t)[i])
                && !queda_a_medias(lineas_crudas(t)[i]),
    ensures
        lineas_unidas(t) == lineas_crudas(t),
{
    lema_juntar_sin_pliegues(lineas_crudas(t));
}

proof fn lema_partes_mas_una(x: Seq<char>, y: Seq<char>, sep: char)
    requires
        sin_el(y, sep),
    ensures
        partes(x + seq![sep] + y, sep) == partes(x, sep).push(y),
    decreases y.len(),
{
    let s = x + seq![sep] + y;
    crate::cadena::lema_partes_no_vacias(x, sep);
    if y.len() == 0 {
        assert(s.drop_last() =~= x);
        assert(s.last() == sep);
        assert(y =~= Seq::<char>::empty());
    } else {
        let y0 = y.drop_last();
        lema_partes_mas_una(x, y0, sep);
        assert(s.drop_last() =~= x + seq![sep] + y0);
        assert(s.last() == y.last());
        assert(y0.push(y.last()) =~= y);
    }
}

/// Un pliegue se deshace: una línea partida con un salto y un espacio o una
/// tabulación al principio de la siguiente se lee como si no se hubiera
/// partido. Vale para una línea que no sea ella misma la continuación de
/// otra ni anuncie una de `quoted-printable`.
pub proof fn ley_pliegue(a: Seq<char>, c: char, b: Seq<char>)
    requires
        sin_el(a, '\n'),
        sin_el(b, '\n'),
        a.len() > 0,
        !es_pliegue(a),
        a.last() != '\r',
        !queda_a_medias(a),
        c == ' ' || c == '\t',
    ensures
        lineas_unidas(a + seq!['\r', '\n', c] + b) == lineas_unidas(a + b),
{
    let t = a + seq!['\r', '\n', c] + b;
    let ar = a.push('\r');
    let cb = seq![c] + b;
    assert(t =~= ar + seq!['\n'] + cb);
    assert(sin_el(ar, '\n')) by {
        assert forall|i: int| 0 <= i < ar.len() implies ar[i] != '\n' by {
            if i < a.len() {
                assert(ar[i] == a[i]);
            }
        }
    }
    assert(sin_el(cb, '\n')) by {
        assert forall|i: int| 0 <= i < cb.len() implies cb[i] != '\n' by {
            if i > 0 {
                assert(cb[i] == b[i - 1]);
            }
        }
    }
    crate::cadena::lema_partes_de_uno(ar, '\n');
    lema_partes_mas_una(ar, cb, '\n');
    let crudas = lineas_crudas(t);
    assert(partes(t, '\n') == seq![ar, cb]);
    assert(sin_retorno(ar) =~= a);
    let resto = sin_retorno(cb);
    assert(resto.len() > 0 && resto[0] == c);
    assert(crudas =~= seq![a, resto]);
    assert(crudas.drop_last() =~= seq![a]);
    assert(seq![a].drop_last() =~= Seq::<Seq<char>>::empty());
    assert(juntar(seq![a]) == (seq![a], false)) by {
        let vacio = Seq::<Seq<char>>::empty();
        assert(juntar(vacio) == (vacio, false));
        assert(vacio.push(a) =~= seq![a]);
        assert(vacio.push(a).last() == a);
        assert(juntar(seq![a]) == paso_juntar((vacio, false), a));
    }
    let unidas = seq![a + resto.drop_first()];
    assert(juntar(crudas).0 =~= unidas);
    let ab = a + b;
    assert(sin_el(ab, '\n')) by {
        assert forall|i: int| 0 <= i < ab.len() implies ab[i] != '\n' by {
            if i < a.len() {
                assert(ab[i] == a[i]);
            } else {
                assert(ab[i] == b[i - a.len()]);
            }
        }
    }
    crate::cadena::lema_partes_de_uno(ab, '\n');
    let l = sin_retorno(ab);
    assert(l =~= a + resto.drop_first()) by {
        if b.len() > 0 && b.last() == '\r' {
            assert(resto =~= cb.drop_last());
        } else {
            assert(resto =~= cb);
        }
    }
    assert(lineas_crudas(ab) =~= seq![l]);
    assert(!es_pliegue(l)) by {
        assert(l[0] == a[0]);
    }
    assert(seq![l].drop_last() =~= Seq::<Seq<char>>::empty());
    assert(Seq::<Seq<char>>::empty().push(l) =~= seq![l]);
    assert(juntar(seq![l]).0 =~= seq![l]);
}

proof fn lema_separar_sin_comienzo(ls: Seq<Seq<char>>)
    requires
        forall|i: int| 0 <= i < ls.len() ==> forma(#[trigger] ls[i]) != "BEGIN:VCARD"@,
    ensures
        separar(ls) == (Seq::<Seq<char>>::empty(), None::<Seq<Seq<char>>>),
    decreases ls.len(),
{
    if ls.len() > 0 {
        lema_separar_sin_comienzo(ls.drop_last());
        assert(forma(ls[ls.len() - 1]) != "BEGIN:VCARD"@);
    }
}

/// Lo que está fuera de una tarjeta se ignora: un texto sin ninguna línea
/// `BEGIN:VCARD` no tiene tarjetas.
pub proof fn ley_sin_comienzo_no_hay_tarjetas(t: Seq<char>)
    requires
        forall|i: int|
            0 <= i < lineas_unidas(t).len() ==> forma(#[trigger] lineas_unidas(t)[i]) != "BEGIN:VCARD"@,
    ensures
        tarjetas_separadas(t).len() == 0,
{
    lema_separar_sin_comienzo(lineas_unidas(t));
}

} // verus!

verus! {

proof fn lema_marca_de_continuacion(c: Seq<Seq<char>>)
    ensures
        juntar(c).1 == (juntar(c).0.len() > 0 && queda_a_medias(juntar(c).0.last())),
        c.len() > 0 ==> juntar(c).0.len() > 0,
    decreases c.len(),
{
    if c.len() > 0 {
        lema_marca_de_continuacion(c.drop_last());
    }
}

/// Las dos formas de seguir una línea. Después de una línea en
/// `quoted-printable` que termina en `=`, la siguiente se pega sin mirar con
/// qué empieza y el `=` se va. Después de cualquier otra, una línea que no
/// empieza con espacio ni tabulación queda aparte, tal cual: el `=` solo (el
/// del final de un base64) no junta nada.
pub proof fn ley_continuaciones(c: Seq<Seq<char>>, m: Seq<char>)
    ensures
        ({
            let antes = juntar(c).0;
            let despues = juntar(c.push(m)).0;
            &&& antes.len() > 0 && queda_a_medias(antes.last()) ==> despues == antes.update(
                antes.len() - 1,
                antes.last().drop_last() + m,
            )
            &&& !(antes.len() > 0 && queda_a_medias(antes.last())) && !es_pliegue(m) ==> despues
                == antes.push(m)
        }),
{
    lema_marca_de_continuacion(c);
    assert(c.push(m).drop_last() == c);
    assert(c.push(m).last() == m);
}

} // verus!

verus! {

proof fn lema_unir_empieza(ls: Seq<Seq<char>>, sep: Seq<char>)
    requires
        ls.len() >= 1,
    ensures
        crate::cadena::empieza_con(unir(ls, sep), ls[0]),
    decreases ls.len(),
{
    if ls.len() >= 2 {
        lema_unir_empieza(ls.drop_last(), sep);
        let u = unir(ls.drop_last(), sep);
        assert(ls.drop_last()[0] == ls[0]);
        assert((u + sep + ls.last()).take(ls[0].len() as int) == u.take(ls[0].len() as int));
    } else {
        assert(unir(ls, sep) == ls[0]);
        assert(ls[0].take(ls[0].len() as int) == ls[0]);
    }
}

/// Cada tarjeta separada empieza con su línea de comienzo.
pub open spec fn empieza_con_comienzo(t: Seq<char>) -> bool {
    exists|l: Seq<char>| forma(l) == "BEGIN:VCARD"@ && #[trigger] crate::cadena::empieza_con(t, l)
}

proof fn lema_separar_empieza(ls: Seq<Seq<char>>)
    ensures
        forall|j: int|
            0 <= j < separar(ls).0.len() ==> empieza_con_comienzo(#[trigger] separar(ls).0[j]),
        separar(ls).1 matches Some(ab) ==> ab.len() >= 1 && forma(ab[0]) == "BEGIN:VCARD"@,
    decreases ls.len(),
{
    if ls.len() > 0 {
        lema_separar_empieza(ls.drop_last());
        let e = separar(ls.drop_last());
        let l = ls.last();
        if forma(l) != "BEGIN:VCARD"@ && forma(l) == "END:VCARD"@ {
            if let Some(ab) = e.1 {
                let ab2 = ab.push(l);
                lema_unir_empieza(ab2, fin_de_linea());
                assert(ab2[0] == ab[0]);
                let nueva = unir(ab2, fin_de_linea());
                assert(empieza_con_comienzo(nueva));
                let r = e.0.push(nueva);
                assert forall|j: int| 0 <= j < r.len() implies empieza_con_comienzo(#[trigger] r[j]) by {
                    if j < e.0.len() {
                        assert(r[j] == e.0[j]);
                    }
                }
            }
        } else if forma(l) != "BEGIN:VCARD"@ {
            if let Some(ab) = e.1 {
                assert(ab.push(l)[0] == ab[0]);
            }
        } else {
            assert(seq![l][0] == l);
            if let Some(ab) = e.1 {
                lema_unir_empieza(ab, fin_de_linea());
                let nueva = unir(ab, fin_de_linea());
                assert(empieza_con_comienzo(nueva));
                let r = e.0.push(nueva);
                assert forall|j: int| 0 <= j < r.len() implies empieza_con_comienzo(#[trigger] r[j]) by {
                    if j < e.0.len() {
                        assert(r[j] == e.0[j]);
                    }
                }
            }
        }
    }
}

/// Cada tarjeta que se separa empieza con su línea `BEGIN:VCARD`: nada de
/// lo que está antes de ella o entre tarjetas se cuela.
pub proof fn ley_tarjetas_empiezan_con_comienzo(t: Seq<char>)
    ensures
        forall|j: int|
            0 <= j < tarjetas_separadas(t).len() ==> empieza_con_comienzo(
                #[trigger] tarjetas_separadas(t)[j],
            ),
{
    let ls = lineas_unidas(t);
    lema_separar_empieza(ls);
    let (cerradas, abierta) = separar(ls);
    if let Some(ab) = abierta {
        lema_unir_empieza(ab, fin_de_linea());
        assert(empieza_con_comienzo(unir(ab, fin_de_linea())));
        let r = cerradas.push(unir(ab, fin_de_linea()));
        assert forall|j: int| 0 <= j < r.len() implies empieza_con_comienzo(#[trigger] r[j]) by {
            if j < cerradas.len() {
                assert(r[j] == cerradas[j]);
            }
        }
    }
}

} // verus!

verus! {

/// Cuántas líneas `BEGIN:VCARD` hay.
pub open spec fn comienzos(ls: Seq<Seq<char>>) -> nat
    decreases ls.len(),
{
    if ls.len() == 0 {
        0
    } else if forma(ls.last()) == "BEGIN:VCARD"@ {
        comienzos(ls.drop_last()) + 1
    } else {
        comienzos(ls.drop_last())
    }
}

proof fn lema_cuenta_de_tarjetas(ls: Seq<Seq<char>>)
    ensures
        cerrar(separar(ls)).len() == comienzos(ls),
    decreases ls.len(),
{
    if ls.len() > 0 {
        lema_cuenta_de_tarjetas(ls.drop_last());
    }
}

/// Una tarjeta por cada línea `BEGIN:VCARD`: ninguna se pierde, tampoco la
/// que quedó sin su `END` (se cierra en el `BEGIN:VCARD` siguiente o al
/// final del texto), y nada fuera de una tarjeta da otra.
pub proof fn ley_una_tarjeta_por_comienzo(t: Seq<char>)
    ensures
        tarjetas_separadas(t).len() == comienzos(lineas_unidas(t)),
{
    lema_cuenta_de_tarjetas(lineas_unidas(t));
}

// ---------------------------------------------------------------------------
// Tarjetas por bloques
// ---------------------------------------------------------------------------

/// Líneas entre tarjetas: ninguna es un `BEGIN:VCARD` (un `END:VCARD`
/// suelto puede haber).
pub open spec fn sin_comienzo(ls: Seq<Seq<char>>) -> bool {
    forall|i: int| 0 <= i < ls.len() ==> forma(#[trigger] ls[i]) != "BEGIN:VCARD"@
}

/// Ni comienzo ni fin de tarjeta.
pub open spec fn ni_comienzo_ni_fin(l: Seq<char>) -> bool {
    forma(l) != "BEGIN:VCARD"@ && forma(l) != "END:VCARD"@
}

/// Una tarjeta abierta: su `BEGIN:VCARD` y lo que sigue, sin otro comienzo
/// ni un fin.
pub open spec fn es_abierta(b: Seq<Seq<char>>) -> bool {
    &&& b.len() >= 1
    &&& forma(b[0]) == "BEGIN:VCARD"@
    &&& forall|i: int| 1 <= i < b.len() ==> ni_comienzo_ni_fin(#[trigger] b[i])
}

/// Una tarjeta cerrada: abierta hasta su primer `END:VCARD`, que la cierra.
pub open spec fn es_bloque(b: Seq<Seq<char>>) -> bool {
    &&& b.len() >= 2
    &&& es_abierta(b.drop_last())
    &&& forma(b.last()) == "END:VCARD"@
}

/// Las líneas de un texto armado con huecos y tarjetas cerradas, alternados:
/// el primer hueco, la primera tarjeta, el segundo hueco, la segunda…
pub open spec fn armar(huecos: Seq<Seq<Seq<char>>>, bloques: Seq<Seq<Seq<char>>>) -> Seq<Seq<char>>
    decreases huecos.len(),
{
    if huecos.len() == 0 || bloques.len() == 0 {
        Seq::<Seq<char>>::empty()
    } else {
        armar(huecos.drop_last(), bloques.drop_last()) + huecos.last() + bloques.last()
    }
}

proof fn lema_paso_con_previas(a: Seq<Seq<char>>, x: Seq<Seq<char>>, o: Option<Seq<Seq<char>>>, l: Seq<char>)
    ensures
        paso_tarjetas((a + x, o), l) == (a + paso_tarjetas((x, o), l).0, paso_tarjetas((x, o), l).1),
{
    if forma(l) == "BEGIN:VCARD"@ {
        if let Some(ab) = o {
            assert((a + x).push(unir(ab, fin_de_linea())) =~= a + x.push(unir(ab, fin_de_linea())));
        }
    } else if forma(l) == "END:VCARD"@ {
        if let Some(ab) = o {
            assert((a + x).push(unir(ab.push(l), fin_de_linea())) =~= a + x.push(
                unir(ab.push(l), fin_de_linea()),
            ));
        }
    }
}

/// Separar lo que sigue a un tramo que terminó fuera de toda tarjeta es
/// separarlo solo y poner antes las tarjetas del tramo.
proof fn lema_separar_concatenado(p: Seq<Seq<char>>, q: Seq<Seq<char>>)
    requires
        separar(p).1 is None,
    ensures
        separar(p + q) == (separar(p).0 + separar(q).0, separar(q).1),
    decreases q.len(),
{
    if q.len() == 0 {
        assert(p + q =~= p);
        assert(separar(p).0 + Seq::<Seq<char>>::empty() =~= separar(p).0);
    } else {
        let q0 = q.drop_last();
        lema_separar_concatenado(p, q0);
        assert((p + q).drop_last() =~= p + q0);
        assert((p + q).last() == q.last());
        lema_paso_con_previas(separar(p).0, separar(q0).0, separar(q0).1, q.last());
    }
}

proof fn lema_separar_abierta(b: Seq<Seq<char>>)
    requires
        es_abierta(b),
    ensures
        separar(b) == (Seq::<Seq<char>>::empty(), Some(b)),
    decreases b.len(),
{
    if b.len() == 1 {
        let vacio = Seq::<Seq<char>>::empty();
        assert(b.drop_last() =~= vacio);
        assert(separar(vacio) == (vacio, None::<Seq<Seq<char>>>));
        assert(b.last() == b[0]);
        assert(cerrar((vacio, None::<Seq<Seq<char>>>)) == vacio);
        assert(separar(b) == paso_tarjetas((vacio, None::<Seq<Seq<char>>>), b[0]));
        assert(seq![b[0]] =~= b);
    } else {
        let b0 = b.drop_last();
        assert(es_abierta(b0)) by {
            assert forall|i: int| 1 <= i < b0.len() implies ni_comienzo_ni_fin(#[trigger] b0[i]) by {
                assert(b0[i] == b[i]);
            }
        }
        lema_separar_abierta(b0);
        assert(b.last() == b[b.len() - 1]);
        assert(ni_comienzo_ni_fin(b.last()));
        assert(b0.push(b.last()) =~= b);
    }
}

proof fn lema_separar_bloque(b: Seq<Seq<char>>)
    requires
        es_bloque(b),
    ensures
        separar(b) == (seq![unir(b, fin_de_linea())], None::<Seq<Seq<char>>>),
{
    reveal_strlit("BEGIN:VCARD");
    reveal_strlit("END:VCARD");
    lema_separar_abierta(b.drop_last());
    assert("END:VCARD"@.len() == 9 && "BEGIN:VCARD"@.len() == 11);
    assert(forma(b.last()) != "BEGIN:VCARD"@);
    assert(b.drop_last().push(b.last()) =~= b);
    assert(Seq::<Seq<char>>::empty().push(unir(b, fin_de_linea())) =~= seq![unir(b, fin_de_linea())]);
}

proof fn lema_separar_armado(huecos: Seq<Seq<Seq<char>>>, bloques: Seq<Seq<Seq<char>>>)
    requires
        huecos.len() == bloques.len(),
        forall|i: int| 0 <= i < huecos.len() ==> sin_comienzo(#[trigger] huecos[i]),
        forall|i: int| 0 <= i < bloques.len() ==> es_bloque(#[trigger] bloques[i]),
    ensures
        separar(armar(huecos, bloques)) == (
            bloques.map_values(|b: Seq<Seq<char>>| unir(b, fin_de_linea())),
            None::<Seq<Seq<char>>>,
        ),
    decreases huecos.len(),
{
    let f = |b: Seq<Seq<char>>| unir(b, fin_de_linea());
    if huecos.len() == 0 {
        assert(bloques.map_values(f) =~= Seq::<Seq<char>>::empty());
    } else {
        let h0 = huecos.drop_last();
        let b0 = bloques.drop_last();
        assert forall|i: int| 0 <= i < h0.len() implies sin_comienzo(#[trigger] h0[i]) by {
            assert(h0[i] == huecos[i]);
        }
        assert forall|i: int| 0 <= i < b0.len() implies es_bloque(#[trigger] b0[i]) by {
            assert(b0[i] == bloques[i]);
        }
        lema_separar_armado(h0, b0);
        let x = armar(h0, b0);
        let g = huecos.last();
        let b = bloques.last();
        assert(sin_comienzo(huecos[huecos.len() - 1]));
        assert(es_bloque(bloques[bloques.len() - 1]));
        lema_separar_sin_comienzo(g);
        lema_separar_concatenado(x, g);
        assert(b0.map_values(f) + Seq::<Seq<char>>::empty() =~= b0.map_values(f));
        lema_separar_bloque(b);
        lema_separar_concatenado(x + g, b);
        assert(armar(huecos, bloques) == x + g + b);
        assert(b0.map_values(f) + seq![unir(b, fin_de_linea())] =~= bloques.map_values(f));
    }
}

/// Las tarjetas, línea por línea: si las líneas de un texto son huecos sin
/// comienzo alternados con tarjetas cerradas (cada una desde su
/// `BEGIN:VCARD` hasta el primer `END:VCARD`), y al final un hueco más o una
/// tarjeta que quedó abierta, las tarjetas son esas, en orden, con sus
/// líneas unidas por `\r\n`; la abierta va al final. Lo que está en los
/// huecos (también un `END:VCARD` suelto) no entra en ninguna.
pub proof fn ley_tarjetas_por_bloques(
    t: Seq<char>,
    huecos: Seq<Seq<Seq<char>>>,
    bloques: Seq<Seq<Seq<char>>>,
    cola: Seq<Seq<char>>,
)
    requires
        huecos.len() == bloques.len(),
        forall|i: int| 0 <= i < huecos.len() ==> sin_comienzo(#[trigger] huecos[i]),
        forall|i: int| 0 <= i < bloques.len() ==> es_bloque(#[trigger] bloques[i]),
        sin_comienzo(cola) || es_abierta(cola),
        lineas_unidas(t) == armar(huecos, bloques) + cola,
    ensures
        sin_comienzo(cola) ==> tarjetas_separadas(t) == bloques.map_values(
            |b: Seq<Seq<char>>| unir(b, fin_de_linea()),
        ),
        es_abierta(cola) ==> tarjetas_separadas(t) == bloques.map_values(
            |b: Seq<Seq<char>>| unir(b, fin_de_linea()),
        ).push(unir(cola, fin_de_linea())),
{
    let f = |b: Seq<Seq<char>>| unir(b, fin_de_linea());
    lema_separar_armado(huecos, bloques);
    lema_separar_concatenado(armar(huecos, bloques), cola);
    if sin_comienzo(cola) {
        lema_separar_sin_comienzo(cola);
        assert(bloques.map_values(f) + Seq::<Seq<char>>::empty() =~= bloques.map_values(f));
    }
    if es_abierta(cola) {
        lema_separar_abierta(cola);
        assert(bloques.map_values(f) + Seq::<Seq<char>>::empty() =~= bloques.map_values(f));
    }
}

} // verus!
