//! Una línea de la tarjeta separada en nombre, parámetros y valor.

use vstd::prelude::*;
use crate::cadena::{
    a_chars, a_string, copia, mayusculas, mayusculas_vec, partes, partes_vec, recortar,
    recortar_vec, tramo, vistas, vistas_string,
};

verus! {

/// Una propiedad ya separada en sus partes.
#[derive(Debug, Clone, PartialEq, Eq)]
pub struct Propiedad {
    pub nombre: String,
    pub parametros: Vec<String>,
    pub valor: String,
}

/// Una propiedad vista como secuencias de caracteres.
pub struct PropiedadVista {
    pub nombre: Seq<char>,
    pub parametros: Seq<Seq<char>>,
    pub valor: Seq<char>,
}

impl View for Propiedad {
    type V = PropiedadVista;

    open spec fn view(&self) -> PropiedadVista {
        PropiedadVista {
            nombre: self.nombre@,
            parametros: vistas_string(self.parametros@),
            valor: self.valor@,
        }
    }
}

/// La misma propiedad sobre caracteres, como se usa por dentro.
pub struct PropiedadChars {
    pub nombre: Vec<char>,
    pub parametros: Vec<Vec<char>>,
    pub valor: Vec<char>,
}

impl View for PropiedadChars {
    type V = PropiedadVista;

    open spec fn view(&self) -> PropiedadVista {
        PropiedadVista {
            nombre: self.nombre@,
            parametros: vistas(self.parametros@),
            valor: self.valor@,
        }
    }
}

/// La posición del primer dos puntos fuera de comillas, buscando desde `i`
/// con `dentro` diciendo si en `i` se está entre comillas.
pub open spec fn corte_desde(s: Seq<char>, i: int, dentro: bool) -> Option<int>
    decreases s.len() - i,
{
    if i < 0 || i >= s.len() {
        None
    } else if s[i] == '"' {
        corte_desde(s, i + 1, !dentro)
    } else if s[i] == ':' && !dentro {
        Some(i)
    } else {
        corte_desde(s, i + 1, dentro)
    }
}

/// El primer dos puntos fuera de comillas.
pub open spec fn corte(s: Seq<char>) -> Option<int> {
    corte_desde(s, 0, false)
}

pub proof fn lema_corte_desde(s: Seq<char>, i: int, dentro: bool)
    requires
        0 <= i,
    ensures
        corte_desde(s, i, dentro) matches Some(k) ==> i <= k < s.len() && s[k] == ':',
    decreases s.len() - i,
{
    if i < s.len() {
        lema_corte_desde(s, i + 1, !dentro);
        lema_corte_desde(s, i + 1, dentro);
    }
}

/// Lo que queda después del último punto (`rsplit('.').next()`): el nombre
/// sin el grupo que le ponen adelante los exportadores de Apple.
pub open spec fn sin_grupo(s: Seq<char>) -> Seq<char> {
    partes(s, '.').last()
}

/// La propiedad de una línea: `None` si no tiene dos puntos fuera de
/// comillas. El nombre va en mayúsculas y sin grupo; los parámetros,
/// recortados; el valor, tal cual.
pub open spec fn propiedad_de(l: Seq<char>) -> Option<PropiedadVista> {
    match corte(l) {
        None => None,
        Some(k) => {
            let izquierda = partes(l.take(k), ';');
            Some(
                PropiedadVista {
                    nombre: mayusculas(sin_grupo(recortar(izquierda[0]))),
                    parametros: izquierda.drop_first().map_values(|p: Seq<char>| recortar(p)),
                    valor: l.skip(k + 1),
                },
            )
        },
    }
}

/// El valor de una propiedad sale de su línea: nunca es más largo.
pub proof fn lema_valor_mas_corto(l: Seq<char>)
    ensures
        propiedad_de(l) matches Some(p) ==> p.valor.len() <= l.len(),
{
    lema_corte_desde(l, 0, false);
}

fn corte_exec(l: &[char]) -> (r: Option<usize>)
    ensures
        r matches Some(k) ==> corte(l@) == Some(k as int) && k < l@.len(),
        r is None ==> corte(l@) is None,
{
    let mut dentro = false;
    let mut i: usize = 0;
    while i < l.len()
        invariant
            i <= l@.len(),
            corte(l@) == corte_desde(l@, i as int, dentro),
        decreases l@.len() - i,
    {
        if l[i] == '"' {
            dentro = !dentro;
        } else if l[i] == ':' && !dentro {
            return Some(i);
        }
        i = i + 1;
    }
    None
}

/// `partir` sobre caracteres.
pub fn partir_chars(l: &[char]) -> (r: Option<PropiedadChars>)
    ensures
        match r {
            Some(p) => propiedad_de(l@) == Some(p@),
            None => propiedad_de(l@) is None,
        },
{
    let n = l.len();
    let k = match corte_exec(l) {
        Some(k) => k,
        None => return None,
    };
    let izquierda = tramo(l, 0, k);
    let valor = tramo(l, k + 1, n);
    let piezas = partes_vec(&izquierda, ';');
    proof {
        crate::cadena::lema_partes_no_vacias(izquierda@, ';');
    }
    let crudo = recortar_vec(&piezas[0]);
    let puntos = partes_vec(&crudo, '.');
    proof {
        crate::cadena::lema_partes_no_vacias(crudo@, '.');
    }
    let nombre = mayusculas_vec(&puntos[puntos.len() - 1]);
    let mut parametros: Vec<Vec<char>> = Vec::new();
    let mut i: usize = 1;
    while i < piezas.len()
        invariant
            1 <= i <= piezas@.len(),
            vistas(parametros@) == vistas(piezas@).subrange(1, i as int).map_values(
                |p: Seq<char>| recortar(p),
            ),
        decreases piezas@.len() - i,
    {
        let ghost antes = vistas(parametros@);
        let x = recortar_vec(piezas[i].as_slice());
        parametros.push(x);
        assert(vistas(parametros@) =~= antes.push(x@));
        assert(vistas(piezas@).subrange(1, i + 1) =~= vistas(piezas@).subrange(1, i as int).push(
            piezas@[i as int]@,
        ));
        assert(vistas(parametros@) =~= vistas(piezas@).subrange(1, i + 1).map_values(
            |p: Seq<char>| recortar(p),
        ));
        i = i + 1;
    }
    assert(vistas(piezas@).subrange(1, piezas@.len() as int) == vistas(piezas@).drop_first());
    assert(l@.subrange(k + 1, l@.len() as int) == l@.skip(k + 1));
    assert(l@.subrange(0, k as int) == l@.take(k as int));
    Some(PropiedadChars { nombre, parametros, valor })
}

/// Separa el nombre y sus parámetros del valor.
///
/// Se corta por el **primer** dos puntos fuera de comillas: el valor puede
/// tener varios (`URL:https://x`). El grupo que ponen adelante los
/// exportadores de Apple (`item1.EMAIL`) se descarta.
pub fn partir(linea: &str) -> (r: Option<Propiedad>)
    ensures
        match r {
            Some(p) => propiedad_de(linea@) == Some(p@),
            None => propiedad_de(linea@) is None,
        },
{
    let l = a_chars(linea);
    match partir_chars(&l) {
        None => None,
        Some(p) => Some(a_propiedad(&p)),
    }
}

/// Pasa una propiedad sobre caracteres a su forma con `String`.
pub fn a_propiedad(p: &PropiedadChars) -> (r: Propiedad)
    ensures
        r@ == p@,
{
    Propiedad {
        nombre: a_string(&p.nombre),
        parametros: crate::cadena::a_strings(&p.parametros),
        valor: a_string(&p.valor),
    }
}

/// Pasa una propiedad a su forma sobre caracteres.
pub fn de_propiedad(p: &Propiedad) -> (r: PropiedadChars)
    ensures
        r@ == p@,
{
    let mut parametros: Vec<Vec<char>> = Vec::new();
    let mut i: usize = 0;
    while i < p.parametros.len()
        invariant
            i <= p.parametros@.len(),
            vistas(parametros@) == vistas_string(p.parametros@).take(i as int),
        decreases p.parametros@.len() - i,
    {
        let ghost antes = vistas(parametros@);
        let x = a_chars(p.parametros[i].as_str());
        parametros.push(x);
        assert(vistas(parametros@) =~= antes.push(x@));
        assert(vistas(parametros@) =~= vistas_string(p.parametros@).take(i + 1));
        i = i + 1;
    }
    assert(vistas_string(p.parametros@).take(p.parametros@.len() as int) =~= vistas_string(
        p.parametros@,
    ));
    PropiedadChars {
        nombre: a_chars(p.nombre.as_str()),
        parametros,
        valor: a_chars(p.valor.as_str()),
    }
}

} // verus!
