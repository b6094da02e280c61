pub mod color;
pub mod pieza;
pub mod tipo;
