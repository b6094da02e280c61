use vstd::prelude::*;

use crate::pieza::color::Color;
use crate::pieza::color::color_opuesto;
use crate::pieza::pieza::Pieza;
use crate::pieza::pieza::puede_capturar_spec;
use crate::pieza::tipo::Tipo;

verus! {

/// Everything that can go wrong while loading a board. The first two
/// variants and `MissingArgument` are produced by the I/O layer around the
/// library; the loader here produces the other three.
#[derive(Clone, Copy, Debug, PartialEq, Eq)]
pub enum LoadError {
    /// The board file could not be opened.
    FileOpenFailure,
    /// The board file could not be read.
    FileReadFailure,
    /// The board text holds a character that encodes neither a square nor a
    /// piece; the payload is the character and the row it stands in.
    InvalidCharacter(char, usize),
    /// A second piece of the given side was found.
    DuplicateColor(Color),
    /// The board text holds no piece of the given side.
    MissingColor(Color),
    /// No board file was named on the command line.
    MissingArgument,
}

/// Whether `c` encodes a white piece: a lowercase letter from the board
/// alphabet.
pub open spec fn es_letra_blanca(c: char) -> bool {
    c == 'p' || c == 't' || c == 'c' || c == 'a' || c == 'd' || c == 'r'
}

/// Whether `c` encodes a black piece: an uppercase letter from the board
/// alphabet.
pub open spec fn es_letra_negra(c: char) -> bool {
    c == 'P' || c == 'T' || c == 'C' || c == 'A' || c == 'D' || c == 'R'
}

/// Whether `c` encodes a piece of either side.
pub open spec fn es_letra_pieza(c: char) -> bool {
    es_letra_blanca(c) || es_letra_negra(c)
}

/// The side a piece letter encodes: lowercase is white, uppercase is black.
pub open spec fn color_de(c: char) -> Color {
    if es_letra_blanca(c) {
        Color::Blanco
    } else {
        Color::Negro
    }
}

/// The kind a piece letter encodes, by the board alphabet
/// p/t/c/a/d/r (in either case).
pub open spec fn tipo_de(c: char) -> Tipo {
    if c == 'p' || c == 'P' {
        Tipo::Peon
    } else if c == 't' || c == 'T' {
        Tipo::Torre
    } else if c == 'c' || c == 'C' {
        Tipo::Caballo
    } else if c == 'a' || c == 'A' {
        Tipo::Alfil
    } else if c == 'd' || c == 'D' {
        Tipo::Dama
    } else {
        Tipo::Rey
    }
}

/// Whether some piece of the given side stands among `piezas`.
pub open spec fn hay_color(piezas: Seq<Pieza>, color: Color) -> bool {
    exists|k: int| 0 <= k < piezas.len() && piezas[k].color == color
}

/// The board-text scanner, one character at a time, starting at index `i`
/// with the current row `fila`, the current column counter `col`, and the
/// pieces found so far in order of appearance.
///
/// A newline (or a carriage return directly before one) ends the row; an
/// underscore is an empty square and advances the column counter; a space is
/// an ignored separator and advances nothing. A piece letter records a piece
/// at the current row and at one past the column counter, without advancing
/// it, and a second piece of a side already seen is an error. Any other
/// character is an error. Once the text is exhausted, each side must have
/// appeared exactly once, and the two pieces are returned in order of
/// appearance.
pub open spec fn escanear(
    s: Seq<char>,
    i: int,
    fila: int,
    col: int,
    piezas: Seq<Pieza>,
) -> Result<(Pieza, Pieza), LoadError>
    decreases s.len() - i,
{
    if i >= s.len() {
        if !hay_color(piezas, Color::Blanco) {
            Err(LoadError::MissingColor(Color::Blanco))
        } else if !hay_color(piezas, Color::Negro) {
            Err(LoadError::MissingColor(Color::Negro))
        } else {
            Ok((piezas[0], piezas[1]))
        }
    } else {
        let c: char = s[i];
        if c == '\n' {
            escanear(s, i + 1, fila + 1, 1, piezas)
        } else if c == '\r' && i + 1 < s.len() && s[i + 1] == '\n' {
            escanear(s, i + 2, fila + 1, 1, piezas)
        } else if c == '_' {
            escanear(s, i + 1, fila, col + 1, piezas)
        } else if c == ' ' {
            escanear(s, i + 1, fila, col, piezas)
        } else if es_letra_pieza(c) {
            if hay_color(piezas, color_de(c)) {
                Err(LoadError::DuplicateColor(color_de(c)))
            } else {
                escanear(
                    s,
                    i + 1,
                    fila,
                    col,
                    piezas.push(
                        Pieza {
                            color: color_de(c),
                            tipo: tipo_de(c),
                            fila: fila as usize,
                            col: (col + 1) as usize,
                        },
                    ),
                )
            }
        } else {
            Err(LoadError::InvalidCharacter(c, fila as usize))
        }
    }
}

/// What loading a board text yields: the scanner run over the whole text,
/// from row 1 with the column counter at 1 and no piece seen yet.
pub open spec fn cargar_tablero_spec(s: Seq<char>) -> Result<(Pieza, Pieza), LoadError> {
    escanear(s, 0, 1, 1, Seq::empty())
}

/// Whether the character at `j` is one the scanner recognizes there: a
/// newline, an empty square, a separator, a piece letter, or a carriage
/// return directly before a newline.
pub open spec fn char_valido_en(s: Seq<char>, j: int) -> bool {
    ||| s[j] == '\n'
    ||| s[j] == '_'
    ||| s[j] == ' '
    ||| es_letra_pieza(s[j])
    ||| (s[j] == '\r' && j + 1 < s.len() && s[j + 1] == '\n')
}

/// Whether every character from `i` on is recognized by the scanner.
pub open spec fn todos_validos(s: Seq<char>, i: int) -> bool {
    forall|j: int| i <= j < s.len() ==> #[trigger] char_valido_en(s, j)
}

/// How many piece letters of the given side stand in `s` from `i` on.
pub open spec fn letras_color(s: Seq<char>, i: int, color: Color) -> nat
    decreases s.len() - i,
{
    if i < 0 || i >= s.len() {
        0
    } else if es_letra_pieza(s[i]) && color_de(s[i]) == color {
        1 + letras_color(s, i + 1, color)
    } else {
        letras_color(s, i + 1, color)
    }
}

/// How many piece letters of the given side stand in `s` at the indices
/// `i <= j < k`.
pub open spec fn letras_color_hasta(s: Seq<char>, i: int, k: int, color: Color) -> nat
    decreases k - i,
{
    if i < 0 || i >= k {
        0
    } else if es_letra_pieza(s[i]) && color_de(s[i]) == color {
        1 + letras_color_hasta(s, i + 1, k, color)
    } else {
        letras_color_hasta(s, i + 1, k, color)
    }
}

/// How many newline characters stand in `s` at the indices `i <= j < k`:
/// the number of rows the scanner finishes over that stretch.
pub open spec fn saltos_de_linea(s: Seq<char>, i: int, k: int) -> nat
    decreases k - i,
{
    if i < 0 || i >= k {
        0
    } else if s[i] == '\n' {
        1 + saltos_de_linea(s, i + 1, k)
    } else {
        saltos_de_linea(s, i + 1, k)
    }
}

/// Whether the result is an `InvalidCharacter` error.
pub open spec fn es_error_caracter(r: Result<(Pieza, Pieza), LoadError>) -> bool {
    match r {
        Err(LoadError::InvalidCharacter(_, _)) => true,
        _ => false,
    }
}

/// 1 where a piece of the given side stands among `piezas`, else 0.
spec fn presente(piezas: Seq<Pieza>, color: Color) -> int {
    if hay_color(piezas, color) {
        1
    } else {
        0
    }
}

/// The scanner's running state is well formed: at most two pieces, no two of
/// them of the same side.
spec fn piezas_wf(piezas: Seq<Pieza>) -> bool {
    &&& piezas.len() <= 2
    &&& forall|k1: int, k2: int|
        #![trigger piezas[k1], piezas[k2]]
        0 <= k1 < k2 < piezas.len() ==> piezas[k1].color != piezas[k2].color
}

proof fn lemma_hay_color_push(piezas: Seq<Pieza>, p: Pieza, color: Color)
    ensures
        hay_color(piezas.push(p), color) == (hay_color(piezas, color) || p.color == color),
{
    if hay_color(piezas, color) {
        let k: int = choose|k: int| 0 <= k < piezas.len() && piezas[k].color == color;
        assert(piezas.push(p)[k].color == color);
    }
    if p.color == color {
        assert(piezas.push(p)[piezas.len() as int].color == color);
    }
    if hay_color(piezas.push(p), color) {
        let k: int = choose|k: int| 0 <= k < piezas.push(p).len() && piezas.push(p)[k].color
            == color;
        if k < piezas.len() {
            assert(piezas[k].color == color);
        }
    }
}

proof fn lemma_wf_push(piezas: Seq<Pieza>, p: Pieza)
    requires
        piezas_wf(piezas),
        !hay_color(piezas, p.color),
    ensures
        piezas_wf(piezas.push(p)),
        piezas.len() <= 1,
{
    if piezas.len() == 2 {
        assert(piezas[0].color != piezas[1].color);
        if piezas[0].color == p.color {
            assert(hay_color(piezas, p.color));
        } else {
            assert(piezas[1].color == p.color);
            assert(hay_color(piezas, p.color));
        }
        assert(false);
    }
    assert forall|k1: int, k2: int|
        #![trigger piezas.push(p)[k1], piezas.push(p)[k2]]
        0 <= k1 < k2 < piezas.push(p).len() implies piezas.push(p)[k1].color != piezas.push(
        p,
    )[k2].color by {
        if k2 == piezas.len() {
            assert(piezas.push(p)[k1] == piezas[k1]);
            assert(piezas.push(p)[k2] == p);
            assert(piezas[k1].color != p.color);
        } else {
            assert(piezas.push(p)[k1] == piezas[k1]);
            assert(piezas.push(p)[k2] == piezas[k2]);
        }
    }
}

proof fn lemma_escanear_ok_colores(s: Seq<char>, i: int, fila: int, col: int, piezas: Seq<Pieza>)
    requires
        0 <= i,
        piezas_wf(piezas),
    ensures
        escanear(s, i, fila, col, piezas) matches Ok(par) ==> par.0.color != par.1.color,
    decreases s.len() - i,
{
    if i >= s.len() {
        if hay_color(piezas, Color::Blanco) && hay_color(piezas, Color::Negro) {
            let kb: int = choose|k: int| 0 <= k < piezas.len() && piezas[k].color == Color::Blanco;
            let kn: int = choose|k: int| 0 <= k < piezas.len() && piezas[k].color == Color::Negro;
            assert(piezas[kb].color == Color::Blanco);
            assert(piezas[kn].color == Color::Negro);
            assert(piezas.len() == 2);
            assert(piezas[0].color != piezas[1].color);
        }
    } else {
        let c: char = s[i];
        if c == '\n' {
            lemma_escanear_ok_colores(s, i + 1, fila + 1, 1, piezas);
        } else if c == '\r' && i + 1 < s.len() && s[i + 1] == '\n' {
            lemma_escanear_ok_colores(s, i + 2, fila + 1, 1, piezas);
        } else if c == '_' {
            lemma_escanear_ok_colores(s, i + 1, fila, col + 1, piezas);
        } else if c == ' ' {
            lemma_escanear_ok_colores(s, i + 1, fila, col, piezas);
        } else if es_letra_pieza(c) {
            if !hay_color(piezas, color_de(c)) {
                let p = Pieza {
                    color: color_de(c),
                    tipo: tipo_de(c),
                    fila: fila as usize,
                    col: (col + 1) as usize,
                };
                lemma_wf_push(piezas, p);
                lemma_escanear_ok_colores(s, i + 1, fila, col, piezas.push(p));
            }
        }
    }
}

proof fn lemma_escanear_carga(s: Seq<char>, i: int, fila: int, col: int, piezas: Seq<Pieza>)
    requires
        0 <= i,
        todos_validos(s, i),
        piezas_wf(piezas),
        letras_color(s, i, Color::Blanco) + presente(piezas, Color::Blanco) <= 1,
        letras_color(s, i, Color::Negro) + presente(piezas, Color::Negro) <= 1,
    ensures
        letras_color(s, i, Color::Blanco) + presente(piezas, Color::Blanco) == 0 ==> escanear(
            s,
            i,
            fila,
            col,
            piezas,
        ) == Err::<(Pieza, Pieza), LoadError>(LoadError::MissingColor(Color::Blanco)),
        letras_color(s, i, Color::Blanco) + presente(piezas, Color::Blanco) == 1 && letras_color(
            s,
            i,
            Color::Negro,
        ) + presente(piezas, Color::Negro) == 0 ==> escanear(s, i, fila, col, piezas) == Err::<(Pieza, Pieza), LoadError>(
            LoadError::MissingColor(Color::Negro),
        ),
        letras_color(s, i, Color::Blanco) + presente(piezas, Color::Blanco) == 1 && letras_color(
            s,
            i,
            Color::Negro,
        ) + presente(piezas, Color::Negro) == 1 ==> (escanear(s, i, fila, col, piezas) matches Ok(
            par,
        ) && par.0.color != par.1.color),
    decreases s.len() - i,
{
    if i >= s.len() {
        if hay_color(piezas, Color::Blanco) && hay_color(piezas, Color::Negro) {
            let kb: int = choose|k: int| 0 <= k < piezas.len() && piezas[k].color == Color::Blanco;
            let kn: int = choose|k: int| 0 <= k < piezas.len() && piezas[k].color == Color::Negro;
            assert(piezas[kb].color == Color::Blanco);
            assert(piezas[kn].color == Color::Negro);
            assert(piezas.len() == 2);
            assert(piezas[0].color != piezas[1].color);
        }
    } else {
        let c: char = s[i];
        assert(char_valido_en(s, i));
        if c == '\n' {
            lemma_escanear_carga(s, i + 1, fila + 1, 1, piezas);
        } else if c == '\r' {
            assert(i + 1 < s.len() && s[i + 1] == '\n');
            assert(letras_color(s, i + 1, Color::Blanco) == letras_color(s, i + 2, Color::Blanco));
            assert(letras_color(s, i + 1, Color::Negro) == letras_color(s, i + 2, Color::Negro));
            lemma_escanear_carga(s, i + 2, fila + 1, 1, piezas);
        } else if c == '_' {
            lemma_escanear_carga(s, i + 1, fila, col + 1, piezas);
        } else if c == ' ' {
            lemma_escanear_carga(s, i + 1, fila, col, piezas);
        } else {
            assert(es_letra_pieza(c));
            let color: Color = color_de(c);
            let otro: Color = color_opuesto(color);
            assert(color != otro);
            assert(letras_color(s, i, color) == 1 + letras_color(s, i + 1, color));
            assert(letras_color(s, i, otro) == letras_color(s, i + 1, otro));
            assert(!hay_color(piezas, color));
            let p = Pieza {
                color: color,
                tipo: tipo_de(c),
                fila: fila as usize,
                col: (col + 1) as usize,
            };
            lemma_wf_push(piezas, p);
            lemma_hay_color_push(piezas, p, Color::Blanco);
            lemma_hay_color_push(piezas, p, Color::Negro);
            assert(presente(piezas.push(p), color) == 1);
            assert(presente(piezas.push(p), otro) == presente(piezas, otro));
            lemma_escanear_carga(s, i + 1, fila, col, piezas.push(p));
        }
    }
}

proof fn lemma_escanear_duplicado(
    s: Seq<char>,
    i: int,
    fila: int,
    col: int,
    piezas: Seq<Pieza>,
    color: Color,
)
    requires
        0 <= i,
        todos_validos(s, i),
        piezas_wf(piezas),
        letras_color(s, i, color) + presente(piezas, color) >= 2,
        letras_color(s, i, color_opuesto(color)) + presente(piezas, color_opuesto(color)) <= 1,
    ensures
        escanear(s, i, fila, col, piezas) == Err::<(Pieza, Pieza), LoadError>(LoadError::DuplicateColor(color)),
    decreases s.len() - i,
{
    let otro: Color = color_opuesto(color);
    assert(color != otro);
    if i >= s.len() {
        assert(letras_color(s, i, color) == 0);
        assert(false);
    } else {
        let c: char = s[i];
        assert(char_valido_en(s, i));
        if c == '\n' {
            lemma_escanear_duplicado(s, i + 1, fila + 1, 1, piezas, color);
        } else if c == '\r' {
            assert(i + 1 < s.len() && s[i + 1] == '\n');
            assert(letras_color(s, i + 1, color) == letras_color(s, i + 2, color));
            assert(letras_color(s, i + 1, otro) == letras_color(s, i + 2, otro));
            lemma_escanear_duplicado(s, i + 2, fila + 1, 1, piezas, color);
        } else if c == '_' {
            lemma_escanear_duplicado(s, i + 1, fila, col + 1, piezas, color);
        } else if c == ' ' {
            lemma_escanear_duplicado(s, i + 1, fila, col, piezas, color);
        } else {
            assert(es_letra_pieza(c));
            let cc: Color = color_de(c);
            assert(cc == color || cc == otro);
            if cc == color {
                assert(letras_color(s, i, color) == 1 + letras_color(s, i + 1, color));
                assert(letras_color(s, i, otro) == letras_color(s, i + 1, otro));
                if !hay_color(piezas, color) {
                    let p = Pieza {
                        color: cc,
                        tipo: tipo_de(c),
                        fila: fila as usize,
                        col: (col + 1) as usize,
                    };
                    lemma_wf_push(piezas, p);
                    lemma_hay_color_push(piezas, p, color);
                    lemma_hay_color_push(piezas, p, otro);
                    lemma_escanear_duplicado(s, i + 1, fila, col, piezas.push(p), color);
                }
            } else {
                assert(letras_color(s, i, otro) == 1 + letras_color(s, i + 1, otro));
                assert(letras_color(s, i, color) == letras_color(s, i + 1, color));
                assert(!hay_color(piezas, otro));
                let p = Pieza {
                    color: cc,
                    tipo: tipo_de(c),
                    fila: fila as usize,
                    col: (col + 1) as usize,
                };
                lemma_wf_push(piezas, p);
                lemma_hay_color_push(piezas, p, color);
                lemma_hay_color_push(piezas, p, otro);
                lemma_escanear_duplicado(s, i + 1, fila, col, piezas.push(p), color);
            }
        }
    }
}

proof fn lemma_escanear_invalido(s: Seq<char>, i: int, fila: int, col: int, piezas: Seq<Pieza>)
    requires
        0 <= i,
        piezas_wf(piezas),
        exists|j: int| i <= j < s.len() && !(#[trigger] char_valido_en(s, j)),
        letras_color(s, i, Color::Blanco) + presente(piezas, Color::Blanco) <= 1,
        letras_color(s, i, Color::Negro) + presente(piezas, Color::Negro) <= 1,
    ensures
        es_error_caracter(escanear(s, i, fila, col, piezas)),
    decreases s.len() - i,
{
    let j: int = choose|j: int| i <= j < s.len() && !(#[trigger] char_valido_en(s, j));
    let c: char = s[i];
    if char_valido_en(s, i) {
        assert(j != i);
        if c == '\n' {
            lemma_escanear_invalido(s, i + 1, fila + 1, 1, piezas);
        } else if c == '\r' {
            assert(i + 1 < s.len() && s[i + 1] == '\n');
            assert(char_valido_en(s, i + 1));
            assert(i + 2 <= j < s.len() && !char_valido_en(s, j));
            assert(letras_color(s, i + 1, Color::Blanco) == letras_color(s, i + 2, Color::Blanco));
            assert(letras_color(s, i + 1, Color::Negro) == letras_color(s, i + 2, Color::Negro));
            lemma_escanear_invalido(s, i + 2, fila + 1, 1, piezas);
        } else if c == '_' {
            lemma_escanear_invalido(s, i + 1, fila, col + 1, piezas);
        } else if c == ' ' {
            lemma_escanear_invalido(s, i + 1, fila, col, piezas);
        } else {
            assert(es_letra_pieza(c));
            let color: Color = color_de(c);
            let otro: Color = color_opuesto(color);
            assert(color != otro);
            assert(letras_color(s, i, color) == 1 + letras_color(s, i + 1, color));
            assert(letras_color(s, i, otro) == letras_color(s, i + 1, otro));
            assert(!hay_color(piezas, color));
            let p = Pieza {
                color: color,
                tipo: tipo_de(c),
                fila: fila as usize,
                col: (col + 1) as usize,
            };
            lemma_wf_push(piezas, p);
            lemma_hay_color_push(piezas, p, Color::Blanco);
            lemma_hay_color_push(piezas, p, Color::Negro);
            lemma_escanear_invalido(s, i + 1, fila, col, piezas.push(p));
        }
    } else {
        assert(c != '\n' && c != '_' && c != ' ' && !es_letra_pieza(c));
        if c == '\r' {
            assert(!(i + 1 < s.len() && s[i + 1] == '\n'));
        }
        assert(escanear(s, i, fila, col, piezas) == Err::<(Pieza, Pieza), LoadError>(
            LoadError::InvalidCharacter(c, fila as usize),
        ));
    }
}

proof fn lemma_escanear_duplicado_exacto(
    s: Seq<char>,
    i: int,
    fila: int,
    col: int,
    piezas: Seq<Pieza>,
    color: Color,
    k: int,
)
    requires
        0 <= i <= k < s.len(),
        es_letra_pieza(s[k]),
        color_de(s[k]) == color,
        forall|j: int| i <= j < k ==> #[trigger] char_valido_en(s, j),
        piezas_wf(piezas),
        letras_color_hasta(s, i, k, color) + presente(piezas, color) == 1,
        letras_color_hasta(s, i, k, color_opuesto(color)) + presente(
            piezas,
            color_opuesto(color),
        ) <= 1,
    ensures
        escanear(s, i, fila, col, piezas) == Err::<(Pieza, Pieza), LoadError>(
            LoadError::DuplicateColor(color),
        ),
    decreases k - i,
{
    let otro: Color = color_opuesto(color);
    assert(color != otro);
    if i == k {
        assert(letras_color_hasta(s, i, k, color) == 0);
        assert(hay_color(piezas, color));
    } else {
        let c: char = s[i];
        assert(char_valido_en(s, i));
        if c == '\n' {
            assert(letras_color_hasta(s, i, k, color) == letras_color_hasta(s, i + 1, k, color));
            assert(letras_color_hasta(s, i, k, otro) == letras_color_hasta(s, i + 1, k, otro));
            lemma_escanear_duplicado_exacto(s, i + 1, fila + 1, 1, piezas, color, k);
        } else if c == '\r' {
            assert(i + 1 < s.len() && s[i + 1] == '\n');
            assert(i + 1 < k);
            assert(letras_color_hasta(s, i, k, color) == letras_color_hasta(s, i + 1, k, color));
            assert(letras_color_hasta(s, i, k, otro) == letras_color_hasta(s, i + 1, k, otro));
            assert(letras_color_hasta(s, i + 1, k, color) == letras_color_hasta(
                s,
                i + 2,
                k,
                color,
            ));
            assert(letras_color_hasta(s, i + 1, k, otro) == letras_color_hasta(s, i + 2, k, otro));
            lemma_escanear_duplicado_exacto(s, i + 2, fila + 1, 1, piezas, color, k);
        } else if c == '_' {
            lemma_escanear_duplicado_exacto(s, i + 1, fila, col + 1, piezas, color, k);
        } else if c == ' ' {
            lemma_escanear_duplicado_exacto(s, i + 1, fila, col, piezas, color, k);
        } else {
            assert(es_letra_pieza(c));
            let cc: Color = color_de(c);
            assert(cc == color || cc == otro);
            if cc == color {
                assert(letras_color_hasta(s, i, k, color) == 1 + letras_color_hasta(
                    s,
                    i + 1,
                    k,
                    color,
                ));
                assert(letras_color_hasta(s, i, k, otro) == letras_color_hasta(s, i + 1, k, otro));
                assert(!hay_color(piezas, color));
            } else {
                assert(letras_color_hasta(s, i, k, otro) == 1 + letras_color_hasta(
                    s,
                    i + 1,
                    k,
                    otro,
                ));
                assert(letras_color_hasta(s, i, k, color) == letras_color_hasta(
                    s,
                    i + 1,
                    k,
                    color,
                ));
                assert(!hay_color(piezas, otro));
            }
            let p = Pieza {
                color: cc,
                tipo: tipo_de(c),
                fila: fila as usize,
                col: (col + 1) as usize,
            };
            lemma_wf_push(piezas, p);
            lemma_hay_color_push(piezas, p, color);
            lemma_hay_color_push(piezas, p, otro);
            lemma_escanear_duplicado_exacto(s, i + 1, fila, col, piezas.push(p), color, k);
        }
    }
}

proof fn lemma_escanear_invalido_exacto(
    s: Seq<char>,
    i: int,
    fila: int,
    col: int,
    piezas: Seq<Pieza>,
    k: int,
)
    requires
        0 <= i <= k < s.len(),
        !char_valido_en(s, k),
        forall|j: int| i <= j < k ==> #[trigger] char_valido_en(s, j),
        piezas_wf(piezas),
        letras_color_hasta(s, i, k, Color::Blanco) + presente(piezas, Color::Blanco) <= 1,
        letras_color_hasta(s, i, k, Color::Negro) + presente(piezas, Color::Negro) <= 1,
    ensures
        escanear(s, i, fila, col, piezas) == Err::<(Pieza, Pieza), LoadError>(
            LoadError::InvalidCharacter(s[k], (fila + saltos_de_linea(s, i, k)) as usize),
        ),
    decreases k - i,
{
    if i == k {
        let c: char = s[i];
        assert(c != '\n' && c != '_' && c != ' ' && !es_letra_pieza(c));
        if c == '\r' {
            assert(!(i + 1 < s.len() && s[i + 1] == '\n'));
        }
        assert(saltos_de_linea(s, i, k) == 0);
    } else {
        let c: char = s[i];
        assert(char_valido_en(s, i));
        if c == '\n' {
            assert(saltos_de_linea(s, i, k) == 1 + saltos_de_linea(s, i + 1, k));
            assert(letras_color_hasta(s, i, k, Color::Blanco) == letras_color_hasta(
                s,
                i + 1,
                k,
                Color::Blanco,
            ));
            assert(letras_color_hasta(s, i, k, Color::Negro) == letras_color_hasta(
                s,
                i + 1,
                k,
                Color::Negro,
            ));
            lemma_escanear_invalido_exacto(s, i + 1, fila + 1, 1, piezas, k);
        } else if c == '\r' {
            assert(i + 1 < s.len() && s[i + 1] == '\n');
            assert(char_valido_en(s, i + 1));
            assert(i + 1 < k);
            assert(saltos_de_linea(s, i, k) == saltos_de_linea(s, i + 1, k));
            assert(saltos_de_linea(s, i + 1, k) == 1 + saltos_de_linea(s, i + 2, k));
            assert(letras_color_hasta(s, i, k, Color::Blanco) == letras_color_hasta(
                s,
                i + 2,
                k,
                Color::Blanco,
            ));
            assert(letras_color_hasta(s, i, k, Color::Negro) == letras_color_hasta(
                s,
                i + 2,
                k,
                Color::Negro,
            ));
            lemma_escanear_invalido_exacto(s, i + 2, fila + 1, 1, piezas, k);
        } else if c == '_' {
            assert(saltos_de_linea(s, i, k) == saltos_de_linea(s, i + 1, k));
            lemma_escanear_invalido_exacto(s, i + 1, fila, col + 1, piezas, k);
        } else if c == ' ' {
            assert(saltos_de_linea(s, i, k) == saltos_de_linea(s, i + 1, k));
            lemma_escanear_invalido_exacto(s, i + 1, fila, col, piezas, k);
        } else {
            assert(es_letra_pieza(c));
            let color: Color = color_de(c);
            let otro: Color = color_opuesto(color);
            assert(color != otro);
            assert(saltos_de_linea(s, i, k) == saltos_de_linea(s, i + 1, k));
            assert(letras_color_hasta(s, i, k, color) == 1 + letras_color_hasta(
                s,
                i + 1,
                k,
                color,
            ));
            assert(letras_color_hasta(s, i, k, otro) == letras_color_hasta(s, i + 1, k, otro));
            assert(!hay_color(piezas, color));
            let p = Pieza {
                color: color,
                tipo: tipo_de(c),
                fila: fila as usize,
                col: (col + 1) as usize,
            };
            lemma_wf_push(piezas, p);
            lemma_hay_color_push(piezas, p, Color::Blanco);
            lemma_hay_color_push(piezas, p, Color::Negro);
            lemma_escanear_invalido_exacto(s, i + 1, fila, col, piezas.push(p), k);
        }
    }
}

/// A board text whose characters are all recognized and which names exactly
/// one white and one black piece loads successfully, and the two loaded
/// pieces are of different sides.
pub proof fn lemma_carga_valida(s: Seq<char>)
    requires
        todos_validos(s, 0),
        letras_color(s, 0, Color::Blanco) == 1,
        letras_color(s, 0, Color::Negro) == 1,
    ensures
        cargar_tablero_spec(s) matches Ok(par) && par.0.color != par.1.color,
{
    lemma_escanear_carga(s, 0, 1, 1, Seq::empty());
}

/// A board text made of recognized characters with at most one piece in all
/// fails, naming the side that is missing: white where no piece at all was
/// found, black where only the white piece was.
pub proof fn lemma_color_faltante(s: Seq<char>)
    requires
        todos_validos(s, 0),
        letras_color(s, 0, Color::Blanco) + letras_color(s, 0, Color::Negro) <= 1,
    ensures
        letras_color(s, 0, Color::Blanco) == 0 ==> cargar_tablero_spec(s) == Err::<(Pieza, Pieza), LoadError>(
            LoadError::MissingColor(Color::Blanco),
        ),
        letras_color(s, 0, Color::Blanco) == 1 ==> cargar_tablero_spec(s) == Err::<(Pieza, Pieza), LoadError>(
            LoadError::MissingColor(Color::Negro),
        ),
{
    lemma_escanear_carga(s, 0, 1, 1, Seq::empty());
}

/// A board text made of recognized characters that names one side twice,
/// with at most one piece of the other side, fails with `DuplicateColor` of
/// the repeated side, wherever its pieces stand.
pub proof fn lemma_color_duplicado(s: Seq<char>, color: Color)
    requires
        todos_validos(s, 0),
        letras_color(s, 0, color) >= 2,
        letras_color(s, 0, color_opuesto(color)) <= 1,
    ensures
        cargar_tablero_spec(s) == Err::<(Pieza, Pieza), LoadError>(LoadError::DuplicateColor(color)),
{
    lemma_escanear_duplicado(s, 0, 1, 1, Seq::empty(), color);
}

/// A board text holding an unrecognized character, with at most one piece
/// letter of each side, fails with `InvalidCharacter`.
pub proof fn lemma_caracter_invalido(s: Seq<char>)
    requires
        exists|j: int| 0 <= j < s.len() && !(#[trigger] char_valido_en(s, j)),
        letras_color(s, 0, Color::Blanco) <= 1,
        letras_color(s, 0, Color::Negro) <= 1,
    ensures
        es_error_caracter(cargar_tablero_spec(s)),
{
    lemma_escanear_invalido(s, 0, 1, 1, Seq::empty());
}

/// A board text in which a second piece letter of one side is reached,
/// scanning row by row, before any unrecognized character and before any
/// second letter of the other side, fails with `DuplicateColor` of that
/// side, wherever its letters stand and whatever comes after.
pub proof fn lemma_color_duplicado_exacto(s: Seq<char>, color: Color, k: int)
    requires
        0 <= k < s.len(),
        es_letra_pieza(s[k]),
        color_de(s[k]) == color,
        forall|j: int| 0 <= j < k ==> #[trigger] char_valido_en(s, j),
        letras_color_hasta(s, 0, k, color) == 1,
        letras_color_hasta(s, 0, k, color_opuesto(color)) <= 1,
    ensures
        cargar_tablero_spec(s) == Err::<(Pieza, Pieza), LoadError>(
            LoadError::DuplicateColor(color),
        ),
{
    lemma_escanear_duplicado_exacto(s, 0, 1, 1, Seq::empty(), color, k);
}

/// A board text whose first violation, scanning row by row, is an
/// unrecognized character fails with `InvalidCharacter` naming that very
/// character and its row, whatever comes after it.
pub proof fn lemma_caracter_invalido_exacto(s: Seq<char>, k: int)
    requires
        0 <= k < s.len(),
        !char_valido_en(s, k),
        forall|j: int| 0 <= j < k ==> #[trigger] char_valido_en(s, j),
        letras_color_hasta(s, 0, k, Color::Blanco) <= 1,
        letras_color_hasta(s, 0, k, Color::Negro) <= 1,
    ensures
        cargar_tablero_spec(s) == Err::<(Pieza, Pieza), LoadError>(
            LoadError::InvalidCharacter(s[k], (1 + saltos_de_linea(s, 0, k)) as usize),
        ),
{
    lemma_escanear_invalido_exacto(s, 0, 1, 1, Seq::empty(), k);
}

/// Classifies one character of the board text: the side and kind it encodes,
/// or `None` where it is no piece letter.
fn clasificar(c: char) -> (r: Option<(Color, Tipo)>)
    ensures
        r is Some <==> es_letra_pieza(c),
        es_letra_pieza(c) ==> r == Some((color_de(c), tipo_de(c))),
{
    if c == 'p' {
        Some((Color::Blanco, Tipo::Peon))
    } else if c == 't' {
        Some((Color::Blanco, Tipo::Torre))
    } else if c == 'c' {
        Some((Color::Blanco, Tipo::Caballo))
    } else if c == 'a' {
        Some((Color::Blanco, Tipo::Alfil))
    } else if c == 'd' {
        Some((Color::Blanco, Tipo::Dama))
    } else if c == 'r' {
        Some((Color::Blanco, Tipo::Rey))
    } else if c == 'P' {
        Some((Color::Negro, Tipo::Peon))
    } else if c == 'T' {
        Some((Color::Negro, Tipo::Torre))
    } else if c == 'C' {
        Some((Color::Negro, Tipo::Caballo))
    } else if c == 'A' {
        Some((Color::Negro, Tipo::Alfil))
    } else if c == 'D' {
        Some((Color::Negro, Tipo::Dama))
    } else if c == 'R' {
        Some((Color::Negro, Tipo::Rey))
    } else {
        None
    }
}

/// Loads a board from its text. The text is scanned row by row as
/// `cargar_tablero_spec` describes; on success the two pieces come back in
/// order of appearance, and otherwise the first violation found is reported.
/// The length bound only keeps the row and column counters within machine
/// range.
pub fn cargar_tablero(contenido: &str) -> (r: Result<(Pieza, Pieza), LoadError>)
    requires
        contenido@.len() < usize::MAX,
    ensures
        r == cargar_tablero_spec(contenido@),
        r matches Ok(par) ==> par.0.color != par.1.color,
{
    proof {
        lemma_escanear_ok_colores(contenido@, 0, 1, 1, Seq::empty());
    }
    let n: usize = contenido.unicode_len();
    let mut i: usize = 0;
    let mut fila: usize = 1;
    let mut col: usize = 1;
    let mut piezas: Vec<Pieza> = Vec::new();
    let mut hay_blanca: bool = false;
    let mut hay_negra: bool = false;
    while i < n
        invariant
            n == contenido@.len(),
            n < usize::MAX,
            i <= n,
            1 <= fila,
            fila as int <= 1 + i,
            1 <= col,
            col as int <= 1 + i,
            hay_blanca == hay_color(piezas@, Color::Blanco),
            hay_negra == hay_color(piezas@, Color::Negro),
            piezas@.len() == (if hay_blanca {
                1int
            } else {
                0int
            }) + (if hay_negra {
                1int
            } else {
                0int
            }),
            cargar_tablero_spec(contenido@) == escanear(
                contenido@,
                i as int,
                fila as int,
                col as int,
                piezas@,
            ),
        decreases n - i,
    {
        let c = contenido.get_char(i);
        if c == '\n' {
            fila = fila + 1;
            col = 1;
            i = i + 1;
        } else if c == '\r' && i + 1 < n && contenido.get_char(i + 1) == '\n' {
            fila = fila + 1;
            col = 1;
            i = i + 2;
        } else if c == '_' {
            col = col + 1;
            i = i + 1;
        } else if c == ' ' {
            i = i + 1;
        } else {
            match clasificar(c) {
                Some((color, tipo)) => {
                    let ya_vista = match color {
                        Color::Blanco => hay_blanca,
                        Color::Negro => hay_negra,
                    };
                    if ya_vista {
                        return Err(LoadError::DuplicateColor(color));
                    }
                    match color {
                        Color::Blanco => {
                            hay_blanca = true;
                        },
                        Color::Negro => {
                            hay_negra = true;
                        },
                    }
                    let pieza = Pieza::new(color, tipo, fila, col + 1);
                    proof {
                        lemma_hay_color_push(piezas@, pieza, Color::Blanco);
                        lemma_hay_color_push(piezas@, pieza, Color::Negro);
                    }
                    piezas.push(pieza);
                    i = i + 1;
                },
                None => {
                    return Err(LoadError::InvalidCharacter(c, fila));
                },
            }
        }
    }
    if !hay_blanca {
        return Err(LoadError::MissingColor(Color::Blanco));
    }
    if !hay_negra {
        return Err(LoadError::MissingColor(Color::Negro));
    }
    let primera = piezas.remove(0);
    let segunda = piezas.remove(0);
    Ok((primera, segunda))
}

/// The verdict letter for two pieces that can each try to capture the other:
/// `'E'` where both succeed, `'N'` where only the first does, `'B'` where
/// only the second does, and `'P'` where neither does. The caller is expected
/// to hand the pair as (black, white), so that `'N'` reads as "only black
/// captures" and `'B'` as "only white captures"; the loader itself returns
/// the pieces in order of appearance.
pub open spec fn captura_spec(pieza_negra: Pieza, pieza_blanca: Pieza) -> char {
    if puede_capturar_spec(pieza_negra, pieza_blanca) {
        if puede_capturar_spec(pieza_blanca, pieza_negra) {
            'E'
        } else {
            'N'
        }
    } else if puede_capturar_spec(pieza_blanca, pieza_negra) {
        'B'
    } else {
        'P'
    }
}

/// The verdict is always one of the four letters, and each letter stands for
/// exactly one combination of the two capture directions.
pub proof fn lemma_veredicto(pieza_negra: Pieza, pieza_blanca: Pieza)
    ensures
        captura_spec(pieza_negra, pieza_blanca) == 'E' <==> (puede_capturar_spec(
            pieza_negra,
            pieza_blanca,
        ) && puede_capturar_spec(pieza_blanca, pieza_negra)),
        captura_spec(pieza_negra, pieza_blanca) == 'N' <==> (puede_capturar_spec(
            pieza_negra,
            pieza_blanca,
        ) && !puede_capturar_spec(pieza_blanca, pieza_negra)),
        captura_spec(pieza_negra, pieza_blanca) == 'B' <==> (!puede_capturar_spec(
            pieza_negra,
            pieza_blanca,
        ) && puede_capturar_spec(pieza_blanca, pieza_negra)),
        captura_spec(pieza_negra, pieza_blanca) == 'P' <==> (!puede_capturar_spec(
            pieza_negra,
            pieza_blanca,
        ) && !puede_capturar_spec(pieza_blanca, pieza_negra)),
{
}

/// Two pieces of the same side can capture in neither direction, so the
/// verdict for such a pair is always `'P'`.
pub proof fn lemma_mismo_color_no_captura(a: Pieza, b: Pieza)
    requires
        a.color == b.color,
    ensures
        !puede_capturar_spec(a, b),
        !puede_capturar_spec(b, a),
        captura_spec(a, b) == 'P',
{
}

/// Reports which of the two loaded pieces can capture the other, as the
/// single verdict letter that `captura_spec` describes.
pub fn captura(piezas: (Pieza, Pieza)) -> (r: char)
    ensures
        r == captura_spec(piezas.0, piezas.1),
{
    let (pieza_negra, pieza_blanca) = piezas;
    if pieza_negra.puede_capturar(&pieza_blanca) {
        if pieza_blanca.puede_capturar(&pieza_negra) {
            'E'
        } else {
            'N'
        }
    } else if pieza_blanca.puede_capturar(&pieza_negra) {
        'B'
    } else {
        'P'
    }
}

} // verus!
