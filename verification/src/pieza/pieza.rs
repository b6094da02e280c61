use vstd::prelude::*;

use crate::pieza::color::Color;
use crate::pieza::tipo::Tipo;

verus! {

/// One piece on the board: its side, its kind, and its position given as a
/// row (`fila`) and a column (`col`) index.
#[derive(Clone, Copy, Debug, PartialEq, Eq, Structural)]
pub struct Pieza {
    pub color: Color,
    pub tipo: Tipo,
    pub fila: usize,
    pub col: usize,
}

/// The distance between two coordinates, `|a - b|`.
pub open spec fn distancia(a: int, b: int) -> int {
    if a >= b {
        a - b
    } else {
        b - a
    }
}

/// A pawn captures one square ahead diagonally; "ahead" depends on its side:
/// a white pawn captures into the row before its own (index one less), a
/// black pawn into the row after its own (index one more).
pub open spec fn captura_peon_spec(p: Pieza, otra: Pieza) -> bool {
    ||| (p.color == Color::Blanco && p.fila - otra.fila == 1 && distancia(
        p.col as int,
        otra.col as int,
    ) == 1)
    ||| (p.color == Color::Negro && otra.fila - p.fila == 1 && distancia(
        p.col as int,
        otra.col as int,
    ) == 1)
}

/// A rook captures along its own row or column, at any nonzero distance:
/// the zero offset (both pieces on the same square) captures nothing.
pub open spec fn captura_lineal_spec(p: Pieza, otra: Pieza) -> bool {
    &&& (p.fila == otra.fila || p.col == otra.col)
    &&& !(p.fila == otra.fila && p.col == otra.col)
}

/// A knight captures at an L-shaped offset: two squares one way and one the
/// other.
pub open spec fn captura_caballo_spec(p: Pieza, otra: Pieza) -> bool {
    ||| (distancia(p.fila as int, otra.fila as int) == 2 && distancia(
        p.col as int,
        otra.col as int,
    ) == 1)
    ||| (distancia(p.fila as int, otra.fila as int) == 1 && distancia(
        p.col as int,
        otra.col as int,
    ) == 2)
}

/// A bishop captures along a diagonal: equal nonzero row and column distance.
pub open spec fn captura_diagonal_spec(p: Pieza, otra: Pieza) -> bool {
    &&& distancia(p.fila as int, otra.fila as int) == distancia(p.col as int, otra.col as int)
    &&& distancia(p.fila as int, otra.fila as int) != 0
}

/// A king captures any of the up to eight squares adjacent to its own.
pub open spec fn captura_rey_spec(p: Pieza, otra: Pieza) -> bool {
    &&& distancia(p.fila as int, otra.fila as int) <= 1
    &&& distancia(p.col as int, otra.col as int) <= 1
    &&& !(p.fila == otra.fila && p.col == otra.col)
}

/// Whether `p` can capture `otra`: the two sides must differ, and the
/// position offset must match the rule of `p`'s own kind. A queen combines
/// the rook and bishop rules.
pub open spec fn puede_capturar_spec(p: Pieza, otra: Pieza) -> bool {
    &&& p.color != otra.color
    &&& match p.tipo {
        Tipo::Peon => captura_peon_spec(p, otra),
        Tipo::Torre => captura_lineal_spec(p, otra),
        Tipo::Caballo => captura_caballo_spec(p, otra),
        Tipo::Alfil => captura_diagonal_spec(p, otra),
        Tipo::Dama => captura_diagonal_spec(p, otra) || captura_lineal_spec(p, otra),
        Tipo::Rey => captura_rey_spec(p, otra),
    }
}

impl Pieza {
    /// Builds a piece from its side, kind and position.
    pub fn new(color: Color, tipo: Tipo, fila: usize, col: usize) -> (p: Pieza)
        ensures
            p.color == color,
            p.tipo == tipo,
            p.fila == fila,
            p.col == col,
    {
        Pieza { color, tipo, fila, col }
    }

    /// Decides whether this piece can capture `otra_pieza`, by this piece's
    /// own kind-specific rule. Two pieces of the same side never capture one
    /// another.
    pub fn puede_capturar(&self, otra_pieza: &Self) -> (r: bool)
        ensures
            r == puede_capturar_spec(*self, *otra_pieza),
    {
        if self.color == otra_pieza.color {
            return false;
        }
        match self.tipo {
            Tipo::Peon => self.peon_puede_capturar(otra_pieza),
            Tipo::Torre => self.puede_capturar_lineal(otra_pieza),
            Tipo::Caballo => self.caballo_puede_capturar(otra_pieza),
            Tipo::Alfil => self.puede_capturar_diagonal(otra_pieza),
            Tipo::Dama => self.puede_capturar_diagonal(otra_pieza) || self.puede_capturar_lineal(
                otra_pieza,
            ),
            Tipo::Rey => self.rey_puede_capturar(otra_pieza),
        }
    }

    /// The distance between the columns of the two pieces.
    fn dif_col(&self, otra_pieza: &Pieza) -> (d: usize)
        ensures
            d == distancia(self.col as int, otra_pieza.col as int),
    {
        if self.col >= otra_pieza.col {
            self.col - otra_pieza.col
        } else {
            otra_pieza.col - self.col
        }
    }

    /// The distance between the rows of the two pieces.
    fn dif_fila(&self, otra_pieza: &Pieza) -> (d: usize)
        ensures
            d == distancia(self.fila as int, otra_pieza.fila as int),
    {
        if self.fila >= otra_pieza.fila {
            self.fila - otra_pieza.fila
        } else {
            otra_pieza.fila - self.fila
        }
    }

    fn peon_puede_capturar(&self, otra_pieza: &Pieza) -> (r: bool)
        ensures
            r == captura_peon_spec(*self, *otra_pieza),
    {
        let col_dif = self.dif_col(otra_pieza);
        match self.color {
            Color::Blanco => otra_pieza.fila < self.fila && self.fila - otra_pieza.fila == 1
                && col_dif == 1,
            Color::Negro => self.fila < otra_pieza.fila && otra_pieza.fila - self.fila == 1
                && col_dif == 1,
        }
    }

    fn puede_capturar_lineal(&self, otra_pieza: &Pieza) -> (r: bool)
        ensures
            r == captura_lineal_spec(*self, *otra_pieza),
    {
        (self.fila == otra_pieza.fila || self.col == otra_pieza.col) && !(self.fila
            == otra_pieza.fila && self.col == otra_pieza.col)
    }

    fn caballo_puede_capturar(&self, otra_pieza: &Pieza) -> (r: bool)
        ensures
            r == captura_caballo_spec(*self, *otra_pieza),
    {
        let fila_dif = self.dif_fila(otra_pieza);
        let col_dif = self.dif_col(otra_pieza);
        (fila_dif == 2 && col_dif == 1) || (fila_dif == 1 && col_dif == 2)
    }

    fn puede_capturar_diagonal(&self, otra_pieza: &Pieza) -> (r: bool)
        ensures
            r == captura_diagonal_spec(*self, *otra_pieza),
    {
        let fila_dif = self.dif_fila(otra_pieza);
        let col_dif = self.dif_col(otra_pieza);
        fila_dif == col_dif && fila_dif != 0
    }

    fn rey_puede_capturar(&self, otra_pieza: &Pieza) -> (r: bool)
        ensures
            r == captura_rey_spec(*self, *otra_pieza),
    {
        let fila_dif = self.dif_fila(otra_pieza);
        let col_dif = self.dif_col(otra_pieza);
        fila_dif <= 1 && col_dif <= 1 && !(fila_dif == 0 && col_dif == 0)
    }
}

} // verus!
