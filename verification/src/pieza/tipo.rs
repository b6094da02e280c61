use vstd::prelude::*;

verus! {

/// The kind of a chess piece.
#[derive(Clone, Copy, Debug, PartialEq, Eq, Structural)]
pub enum Tipo {
    Peon,
    Torre,
    Caballo,
    Alfil,
    Dama,
    Rey,
}

} // verus!
