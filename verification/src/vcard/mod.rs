//! Interpretar tarjetas de contacto vCard (2.1, 3.0 y 4.0).
//!
//! Una tarjeta **la escribió cualquiera**: puede haber llegado adjunta a un
//! correo o importada de un teléfono viejo. Todo lo que no se entiende
//! devuelve algo razonable en vez de cortar, y ninguna función de este
//! módulo puede entrar en pánico.

pub mod lineas;

pub use lineas::{unir_lineas, tarjetas_de};
pub mod propiedad;

pub use propiedad::{partir, Propiedad};
pub mod codificacion;
pub mod valor;

pub use valor::{a_texto, campos_de, decodificado, etiqueta_de, imprimible_de, texto_de, valor_legible};
pub mod contacto;

pub use contacto::{contacto_de, Contacto, Dato};
