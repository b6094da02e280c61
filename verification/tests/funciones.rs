use tpindividual::funciones::LoadError;
use tpindividual::funciones::captura;
use tpindividual::funciones::cargar_tablero;
use tpindividual::pieza::color::Color;
use tpindividual::pieza::pieza::Pieza;
use tpindividual::pieza::tipo::Tipo;

#[test]
fn captura_negra() {
    let pieza1 = Pieza::new(Color::Negro, Tipo::Dama, 8, 9);
    let pieza2 = Pieza::new(Color::Blanco, Tipo::Peon, 8, 1);
    assert_eq!('N', captura((pieza1, pieza2)));
}

#[test]
fn captura_blanca() {
    let pieza1 = Pieza::new(Color::Negro, Tipo::Peon, 3, 4);
    let pieza2 = Pieza::new(Color::Blanco, Tipo::Rey, 3, 3);
    assert_eq!('B', captura((pieza1, pieza2)));
}

#[test]
fn ambas_capturan() {
    let pieza1 = Pieza::new(Color::Negro, Tipo::Peon, 1, 1);
    let pieza2 = Pieza::new(Color::Blanco, Tipo::Rey, 2, 2);
    assert_eq!('E', captura((pieza1, pieza2)));
}

#[test]
fn ninguna_captura() {
    let pieza1 = Pieza::new(Color::Negro, Tipo::Caballo, 5, 7);
    let pieza2 = Pieza::new(Color::Blanco, Tipo::Torre, 2, 2);
    assert_eq!('P', captura((pieza1, pieza2)));
}

#[test]
fn captura_mismo_color_es_p() {
    let pieza1 = Pieza::new(Color::Blanco, Tipo::Dama, 1, 1);
    let pieza2 = Pieza::new(Color::Blanco, Tipo::Rey, 1, 2);
    assert_eq!('P', captura((pieza1, pieza2)));
}

#[test]
fn tablero_correcto() {
    let (primera, segunda) = cargar_tablero("_d_\n_R_").unwrap();
    assert_eq!(Color::Blanco, primera.color);
    assert_eq!(Tipo::Dama, primera.tipo);
    assert_eq!(1, primera.fila);
    assert_eq!(3, primera.col);
    assert_eq!(Color::Negro, segunda.color);
    assert_eq!(Tipo::Rey, segunda.tipo);
    assert_eq!(2, segunda.fila);
    assert_eq!(3, segunda.col);
}

#[test]
fn tablero_orden_de_aparicion() {
    let (primera, segunda) = cargar_tablero("R\nd").unwrap();
    assert_eq!(Color::Negro, primera.color);
    assert_eq!(Color::Blanco, segunda.color);
}

#[test]
fn tablero_dos_piezas_negras_error() {
    assert_eq!(
        Err(LoadError::DuplicateColor(Color::Negro)),
        cargar_tablero("T_\n_R")
    );
}

#[test]
fn tablero_dos_piezas_blancas_error() {
    assert_eq!(
        Err(LoadError::DuplicateColor(Color::Blanco)),
        cargar_tablero("t_\n_r")
    );
}

#[test]
fn tablero_caracter_invalido_error() {
    assert_eq!(Err(LoadError::InvalidCharacter('x', 1)), cargar_tablero("x"));
}

#[test]
fn tablero_caracter_invalido_con_fila() {
    assert_eq!(
        Err(LoadError::InvalidCharacter('?', 2)),
        cargar_tablero("d\n__?")
    );
}

#[test]
fn tablero_solo_una_pieza_error() {
    assert_eq!(
        Err(LoadError::MissingColor(Color::Negro)),
        cargar_tablero("___d___")
    );
}

#[test]
fn tablero_solo_pieza_negra_error() {
    assert_eq!(
        Err(LoadError::MissingColor(Color::Blanco)),
        cargar_tablero("___D___")
    );
}

#[test]
fn tablero_vacio_error() {
    assert_eq!(Err(LoadError::MissingColor(Color::Blanco)), cargar_tablero(""));
}

#[test]
fn espacio_no_consume_columna() {
    let (primera, _) = cargar_tablero("  d\nR").unwrap();
    assert_eq!(2, primera.col);
}

#[test]
fn guion_bajo_consume_columna() {
    let (primera, _) = cargar_tablero("__d\nR").unwrap();
    assert_eq!(4, primera.col);
}

#[test]
fn letra_no_consume_columna() {
    let (primera, segunda) = cargar_tablero("dR").unwrap();
    assert_eq!(2, primera.col);
    assert_eq!(2, segunda.col);
}

#[test]
fn retorno_de_carro_con_salto_termina_fila() {
    let (_, segunda) = cargar_tablero("d\r\nR").unwrap();
    assert_eq!(2, segunda.fila);
    assert_eq!(2, segunda.col);
}

#[test]
fn retorno_de_carro_solo_es_invalido() {
    assert_eq!(
        Err(LoadError::InvalidCharacter('\r', 1)),
        cargar_tablero("d\rR")
    );
}

#[test]
fn mayusculas_cargan_cada_tipo() {
    let (primera, segunda) = cargar_tablero("pT").unwrap();
    assert_eq!(Tipo::Peon, primera.tipo);
    assert_eq!(Color::Blanco, primera.color);
    assert_eq!(Tipo::Torre, segunda.tipo);
    assert_eq!(Color::Negro, segunda.color);
    let (a, c) = cargar_tablero("aC").unwrap();
    assert_eq!(Tipo::Alfil, a.tipo);
    assert_eq!(Tipo::Caballo, c.tipo);
}

#[test]
fn duplicado_gana_a_faltante() {
    assert_eq!(
        Err(LoadError::DuplicateColor(Color::Blanco)),
        cargar_tablero("pp")
    );
}

#[test]
fn caracter_invalido_gana_a_duplicado_posterior() {
    assert_eq!(Err(LoadError::InvalidCharacter('!', 1)), cargar_tablero("p!p"));
}

#[test]
fn duplicado_gana_a_invalido_posterior() {
    assert_eq!(
        Err(LoadError::DuplicateColor(Color::Blanco)),
        cargar_tablero("pp?")
    );
}

#[test]
fn caracter_invalido_con_basura_despues() {
    assert_eq!(
        Err(LoadError::InvalidCharacter('x', 2)),
        cargar_tablero("P\n_x_TT")
    );
}

#[test]
fn misma_casilla_veredicto_p() {
    let (blanca, negra) = cargar_tablero("tR").unwrap();
    assert_eq!(1, blanca.fila);
    assert_eq!(2, blanca.col);
    assert_eq!(1, negra.fila);
    assert_eq!(2, negra.col);
    assert_eq!('P', captura((negra, blanca)));
}
