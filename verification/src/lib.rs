//! Lectura de libretas de contactos: tarjetas vCard y respuestas CardDAV.

pub mod cadena;
pub mod vcard;
pub mod carddav;
pub mod comandos;

