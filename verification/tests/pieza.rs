use tpindividual::pieza::color::Color;
use tpindividual::pieza::pieza::Pieza;
use tpindividual::pieza::tipo::Tipo;

#[test]
fn rey_puede_capturar() {
    let pieza1 = Pieza::new(Color::Blanco, Tipo::Rey, 2, 2);
    let pieza2 = Pieza::new(Color::Negro, Tipo::Peon, 2, 3);
    assert!(pieza1.puede_capturar(&pieza2));
}

#[test]
fn dama_puede_capturar() {
    let pieza1 = Pieza::new(Color::Blanco, Tipo::Dama, 2, 2);
    let pieza2 = Pieza::new(Color::Negro, Tipo::Alfil, 8, 2);
    assert!(pieza1.puede_capturar(&pieza2));
}

#[test]
fn alfil_puede_capturar() {
    let pieza1 = Pieza::new(Color::Blanco, Tipo::Alfil, 2, 2);
    let pieza2 = Pieza::new(Color::Negro, Tipo::Peon, 3, 3);
    assert!(pieza1.puede_capturar(&pieza2));
}

#[test]
fn igual_color_no_captura() {
    let pieza1 = Pieza::new(Color::Blanco, Tipo::Rey, 2, 2);
    let pieza2 = Pieza::new(Color::Blanco, Tipo::Peon, 2, 3);
    assert_eq!(false, pieza1.puede_capturar(&pieza2));
}

#[test]
fn caballo_puede_capturar() {
    let pieza1 = Pieza::new(Color::Blanco, Tipo::Caballo, 2, 2);
    let pieza2 = Pieza::new(Color::Negro, Tipo::Peon, 3, 4);
    assert!(pieza1.puede_capturar(&pieza2));
}

#[test]
fn torre_puede_capturar() {
    let pieza1 = Pieza::new(Color::Blanco, Tipo::Torre, 2, 2);
    let pieza2 = Pieza::new(Color::Negro, Tipo::Peon, 2, 8);
    assert!(pieza1.puede_capturar(&pieza2));
}

#[test]
fn peon_puede_capturar() {
    let pieza1 = Pieza::new(Color::Blanco, Tipo::Peon, 7, 2);
    let pieza2 = Pieza::new(Color::Negro, Tipo::Dama, 6, 1);
    assert!(pieza1.puede_capturar(&pieza2));
}

#[test]
fn pieza_rey_puede_capturar() {
    let pieza1 = Pieza::new(Color::Blanco, Tipo::Rey, 2, 2);
    let pieza2 = Pieza::new(Color::Negro, Tipo::Peon, 2, 3);
    assert!(pieza1.puede_capturar(&pieza2));
}

#[test]
fn pieza_dama_puede_capturar() {
    let pieza1 = Pieza::new(Color::Blanco, Tipo::Dama, 2, 2);
    let pieza2 = Pieza::new(Color::Negro, Tipo::Alfil, 8, 2);
    assert!(pieza1.puede_capturar(&pieza2));
}

#[test]
fn pieza_alfil_puede_capturar() {
    let pieza1 = Pieza::new(Color::Blanco, Tipo::Alfil, 2, 2);
    let pieza2 = Pieza::new(Color::Negro, Tipo::Peon, 3, 3);
    assert!(pieza1.puede_capturar(&pieza2));
}

#[test]
fn pieza_igual_color_no_captura() {
    let pieza1 = Pieza::new(Color::Blanco, Tipo::Rey, 2, 2);
    let pieza2 = Pieza::new(Color::Blanco, Tipo::Peon, 2, 3);
    assert_eq!(false, pieza1.puede_capturar(&pieza2));
}

#[test]
fn pieza_caballo_puede_capturar() {
    let pieza1 = Pieza::new(Color::Blanco, Tipo::Caballo, 2, 2);
    let pieza2 = Pieza::new(Color::Negro, Tipo::Peon, 3, 4);
    assert!(pieza1.puede_capturar(&pieza2));
}

#[test]
fn pieza_torre_puede_capturar() {
    let pieza1 = Pieza::new(Color::Blanco, Tipo::Torre, 2, 2);
    let pieza2 = Pieza::new(Color::Negro, Tipo::Peon, 2, 8);
    assert!(pieza1.puede_capturar(&pieza2));
}

#[test]
fn pieza_peon_puede_capturar() {
    let pieza1 = Pieza::new(Color::Blanco, Tipo::Peon, 7, 2);
    let pieza2 = Pieza::new(Color::Negro, Tipo::Dama, 6, 1);
    assert!(pieza1.puede_capturar(&pieza2));
}

#[test]
fn peon_negro_captura_hacia_abajo() {
    let negro = Pieza::new(Color::Negro, Tipo::Peon, 5, 5);
    let blanco = Pieza::new(Color::Blanco, Tipo::Torre, 6, 6);
    assert!(negro.puede_capturar(&blanco));
    let mas_arriba = Pieza::new(Color::Blanco, Tipo::Torre, 4, 6);
    assert_eq!(false, negro.puede_capturar(&mas_arriba));
}

#[test]
fn peon_blanco_no_captura_hacia_abajo() {
    let blanco = Pieza::new(Color::Blanco, Tipo::Peon, 5, 5);
    let abajo = Pieza::new(Color::Negro, Tipo::Torre, 6, 6);
    assert_eq!(false, blanco.puede_capturar(&abajo));
}

#[test]
fn caballo_no_captura_diagonal() {
    let caballo = Pieza::new(Color::Blanco, Tipo::Caballo, 2, 2);
    let otra = Pieza::new(Color::Negro, Tipo::Peon, 3, 3);
    assert_eq!(false, caballo.puede_capturar(&otra));
}

#[test]
fn rey_no_alcanza_dos_casilleros() {
    let rey = Pieza::new(Color::Blanco, Tipo::Rey, 2, 2);
    let lejos = Pieza::new(Color::Negro, Tipo::Peon, 2, 4);
    assert_eq!(false, rey.puede_capturar(&lejos));
}

#[test]
fn torre_misma_casilla_no_captura() {
    let torre = Pieza::new(Color::Blanco, Tipo::Torre, 3, 3);
    let otra = Pieza::new(Color::Negro, Tipo::Peon, 3, 3);
    assert_eq!(false, torre.puede_capturar(&otra));
}

#[test]
fn dama_misma_casilla_no_captura() {
    let dama = Pieza::new(Color::Negro, Tipo::Dama, 3, 3);
    let otra = Pieza::new(Color::Blanco, Tipo::Peon, 3, 3);
    assert_eq!(false, dama.puede_capturar(&otra));
}

#[test]
fn dama_combina_torre_y_alfil() {
    let dama = Pieza::new(Color::Blanco, Tipo::Dama, 4, 4);
    assert!(dama.puede_capturar(&Pieza::new(Color::Negro, Tipo::Peon, 4, 9)));
    assert!(dama.puede_capturar(&Pieza::new(Color::Negro, Tipo::Peon, 7, 7)));
    assert_eq!(false, dama.puede_capturar(&Pieza::new(Color::Negro, Tipo::Peon, 6, 5)));
}
