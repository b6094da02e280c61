use vstd::prelude::*;

verus! {

/// The side a piece belongs to.
#[derive(Clone, Copy, Debug, PartialEq, Eq, Structural)]
pub enum Color {
    Blanco,
    Negro,
}

/// The opposite side.
pub open spec fn color_opuesto(color: Color) -> Color {
    match color {
        Color::Blanco => Color::Negro,
        Color::Negro => Color::Blanco,
    }
}

} // verus!
