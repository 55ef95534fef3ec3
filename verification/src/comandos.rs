//! Lo que se junta al leer una cuenta entera.
//!
//! Una libreta vacía y una que no se pudo leer se ven idénticas, y la
//! diferencia importa: «no tengo a nadie anotado» y «no sé a quién tengo
//! anotado» no son lo mismo. Por eso la lectura trae las dos cosas juntas.
//!
//! El orden de los contactos lo pone la ventana con la intercalación del
//! idioma de la sesión, no esto: comparar cadenas por sus bytes manda
//! «Álvarez» después de «Zaparte».

use vstd::prelude::*;
use crate::cadena::{a_chars, a_string, agregar_chars, vistas_string};
use crate::carddav::Libreta;
use crate::vcard::contacto::Contacto;

verus! {

/// Lo que se pudo leer de una cuenta, y lo que no.
#[derive(Debug, Clone, Default, PartialEq, Eq)]
pub struct LecturaDeCuenta {
    pub libretas: Vec<Libreta>,
    pub contactos: Vec<Contacto>,
    /// Las libretas que no se pudieron leer, con el motivo. Vacío si salió
    /// todo bien.
    pub fallos: Vec<String>,
}

/// El aviso de una libreta que falló: su nombre y el motivo. «Falló una
/// libreta» no le dice a nadie cuál de las suyas le falta.
pub open spec fn aviso_de_fallo(nombre: Seq<char>, motivo: Seq<char>) -> Seq<char> {
    nombre + ": "@ + motivo
}

/// Lo que dio una libreta, visto como valores: sus contactos, o el motivo
/// por el que no se pudo leer.
pub open spec fn resultado_visto(r: Result<Vec<Contacto>, String>) -> Result<Seq<Contacto>, Seq<char>> {
    match r {
        Ok(cs) => Ok(cs@),
        Err(e) => Err(e@),
    }
}

/// Los contactos y los avisos tras anotar lo que dio la libreta `nombre`.
pub open spec fn registrada(
    contactos: Seq<Contacto>,
    fallos: Seq<Seq<char>>,
    nombre: Seq<char>,
    r: Result<Seq<Contacto>, Seq<char>>,
) -> (Seq<Contacto>, Seq<Seq<char>>) {
    match r {
        Ok(cs) => (contactos + cs, fallos),
        Err(e) => (contactos, fallos.push(aviso_de_fallo(nombre, e))),
    }
}

/// Anotar, una tras otra, las libretas de `pasos` (cada una con su nombre y
/// lo que dio), a partir de los contactos y avisos dados.
pub open spec fn registradas(
    contactos: Seq<Contacto>,
    fallos: Seq<Seq<char>>,
    pasos: Seq<(Seq<char>, Result<Seq<Contacto>, Seq<char>>)>,
) -> (Seq<Contacto>, Seq<Seq<char>>)
    decreases pasos.len(),
{
    if pasos.len() == 0 {
        (contactos, fallos)
    } else {
        let (c, f) = registradas(contactos, fallos, pasos.drop_last());
        registrada(c, f, pasos.last().0, pasos.last().1)
    }
}

/// Los contactos de las libretas que se pudieron leer, en el orden de las
/// libretas.
pub open spec fn contactos_leidos(pasos: Seq<(Seq<char>, Result<Seq<Contacto>, Seq<char>>)>) -> Seq<Contacto>
    decreases pasos.len(),
{
    if pasos.len() == 0 {
        Seq::<Contacto>::empty()
    } else {
        contactos_leidos(pasos.drop_last()) + match pasos.last().1 {
            Ok(cs) => cs,
            Err(_) => Seq::<Contacto>::empty(),
        }
    }
}

/// Un aviso «nombre: motivo» por cada libreta que no se pudo leer, en orden.
pub open spec fn fallos_leidos(pasos: Seq<(Seq<char>, Result<Seq<Contacto>, Seq<char>>)>) -> Seq<Seq<char>>
    decreases pasos.len(),
{
    if pasos.len() == 0 {
        Seq::<Seq<char>>::empty()
    } else {
        fallos_leidos(pasos.drop_last()) + match pasos.last().1 {
            Ok(_) => Seq::<Seq<char>>::empty(),
            Err(e) => seq![aviso_de_fallo(pasos.last().0, e)],
        }
    }
}

/// Leer una cuenta entera: tras anotar cada libreta en una lectura nueva,
/// los contactos son los de las libretas que se leyeron, en orden, y los
/// avisos dicen, en orden, cada libreta que falló y por qué. Una libreta
/// rota no se lleva los contactos de las demás.
pub proof fn ley_lectura_de_cuenta(pasos: Seq<(Seq<char>, Result<Seq<Contacto>, Seq<char>>)>)
    ensures
        registradas(Seq::<Contacto>::empty(), Seq::<Seq<char>>::empty(), pasos) == (
            contactos_leidos(pasos),
            fallos_leidos(pasos),
        ),
    decreases pasos.len(),
{
    if pasos.len() > 0 {
        ley_lectura_de_cuenta(pasos.drop_last());
        match pasos.last().1 {
            Ok(cs) => {},
            Err(e) => {
                assert(fallos_leidos(pasos.drop_last()).push(aviso_de_fallo(pasos.last().0, e))
                    =~= fallos_leidos(pasos.drop_last()) + seq![aviso_de_fallo(pasos.last().0, e)]);
            },
        }
        assert(contactos_leidos(pasos) =~= registradas(Seq::<Contacto>::empty(), Seq::<Seq<char>>::empty(), pasos).0);
    }
}

impl LecturaDeCuenta {
    /// Una lectura que empieza: las libretas de la cuenta, sin contactos ni
    /// fallos todavía.
    pub fn nueva(libretas: Vec<Libreta>) -> (r: LecturaDeCuenta)
        ensures
            r.libretas@ == libretas@,
            r.contactos@.len() == 0,
            r.fallos@.len() == 0,
    {
        LecturaDeCuenta { libretas, contactos: Vec::new(), fallos: Vec::new() }
    }

    /// Anota lo que dio una libreta: sus contactos se suman a los que ya
    /// había, en orden; si falló, se anota su nombre con el motivo. Una
    /// libreta rota no vacía la agenda.
    pub fn registrar(&mut self, libreta: &Libreta, resultado: Result<Vec<Contacto>, String>)
        ensures
            final(self).libretas@ == old(self).libretas@,
            (final(self).contactos@, vistas_string(final(self).fallos@)) == registrada(
                old(self).contactos@,
                vistas_string(old(self).fallos@),
                libreta.nombre@,
                resultado_visto(resultado),
            ),
            match resultado {
                Ok(cs) => final(self).contactos@ == old(self).contactos@ + cs@ && final(self).fallos@
                    == old(self).fallos@,
                Err(e) => final(self).contactos@ == old(self).contactos@ && final(self).fallos@.len()
                    == old(self).fallos@.len() + 1 && final(self).fallos@.drop_last()
                    == old(self).fallos@ && final(self).fallos@.last()@ == aviso_de_fallo(
                    libreta.nombre@,
                    e@,
                ),
            },
    {
        match resultado {
            Ok(cs) => {
                let mut cs = cs;
                self.contactos.append(&mut cs);
            },
            Err(e) => {
                let mut aviso = a_chars(libreta.nombre.as_str());
                agregar_chars(&mut aviso, &a_chars(": "));
                agregar_chars(&mut aviso, &a_chars(e.as_str()));
                let ghost antes = self.fallos@;
                self.fallos.push(a_string(&aviso));
                assert(self.fallos@.drop_last() == antes);
            },
        }
    }
}

} // verus!
