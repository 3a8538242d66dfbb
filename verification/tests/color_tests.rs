use sketchmotion::{from_hex, to_hex, to_hex_rgba, Color, PaletteLibrary};

#[test]
fn hex_ida_e_volta() {
    let c = Color::rgb(0xD1, 0x8A, 0x62);
    assert_eq!(to_hex(c), "#D18A62");
    assert_eq!(from_hex("#D18A62"), Some(c));
    assert_eq!(from_hex("d18a62"), Some(c)); // without # and lower case
}

#[test]
fn hex_curto_e_invalido() {
    assert_eq!(from_hex("#FFF"), Some(Color::rgb(255, 255, 255)));
    assert_eq!(from_hex("#12"), None);
    assert_eq!(from_hex("xyz"), None);
}

#[test]
fn montar_paleta_de_personagem() {
    let mut lib = PaletteLibrary::new();
    let p = lib.add_character("Personagem N1");
    let personagem = &mut lib.characters[p];
    let g = personagem.add_group("Pele");
    personagem.groups[g].add_color("base", Color::rgb(0xD1, 0x8A, 0x62));
    personagem.groups[g].add_color("luz", Color::rgb(0xFF, 0xA8, 0x78));
    personagem.groups[g].add_color("sombra", Color::rgb(0x8B, 0x57, 0x2A));

    assert_eq!(lib.characters.len(), 1);
    assert_eq!(lib.characters[0].groups.len(), 1);
    assert_eq!(lib.characters[0].groups[0].name, "Pele");
    assert_eq!(lib.characters[0].groups[0].colors.len(), 3);
    assert_eq!(lib.characters[0].groups[0].colors[1].label, "luz");
}

#[test]
fn hex_with_alpha_round_trip() {
    let c = Color::rgba(0x01, 0xAB, 0xFF, 0x80);
    assert_eq!(to_hex_rgba(c), "#01ABFF80");
    assert_eq!(from_hex(&to_hex_rgba(c)), Some(c));
    assert_eq!(from_hex("01abff80"), Some(c));
}

#[test]
fn hex_without_alpha_drops_alpha() {
    let c = Color::rgba(0x10, 0x20, 0x30, 0x40);
    assert_eq!(to_hex(c), "#102030");
    assert_eq!(from_hex(&to_hex(c)), Some(Color::rgb(0x10, 0x20, 0x30)));
}

#[test]
fn hex_short_form_doubles_digits() {
    assert_eq!(from_hex("#a1F"), Some(Color::rgb(0xAA, 0x11, 0xFF)));
    assert_eq!(from_hex("000"), Some(Color::rgb(0, 0, 0)));
}

#[test]
fn hex_trims_whitespace_and_hashes() {
    assert_eq!(from_hex("  #D18A62 \n"), Some(Color::rgb(0xD1, 0x8A, 0x62)));
    assert_eq!(from_hex("##FFF"), Some(Color::rgb(255, 255, 255)));
}

#[test]
fn hex_rejects_bad_lengths_and_digits() {
    assert_eq!(from_hex(""), None);
    assert_eq!(from_hex("#"), None);
    assert_eq!(from_hex("#12345"), None);
    assert_eq!(from_hex("#1234567"), None);
    assert_eq!(from_hex("#123456789"), None);
    assert_eq!(from_hex("#GG0000"), None);
    assert_eq!(from_hex("#12345G"), None);
}

#[test]
fn hex_fields_are_digits_only() {
    assert_eq!(from_hex("+1+2+3"), None);
    assert_eq!(from_hex("+F+F+F"), None);
    assert_eq!(from_hex("éa"), None);
    assert_eq!(from_hex("#ééF"), None);
    assert_eq!(from_hex("#1é3"), None);
}

#[test]
fn palette_remove_and_bounds() {
    let mut lib = PaletteLibrary::new();
    let a = lib.add_character("A");
    let b = lib.add_character("B");
    assert_eq!((a, b), (0, 1));
    lib.remove_character(5); // out of range: nothing happens
    assert_eq!(lib.characters.len(), 2);
    lib.remove_character(0);
    assert_eq!(lib.characters.len(), 1);
    assert_eq!(lib.characters[0].name, "B");

    let g = lib.characters[0].add_group("Olhos");
    lib.characters[0].groups[g].add_color("iris", Color::rgb(1, 2, 3));
    lib.characters[0].groups[g].add_color("pupila", Color::black());
    lib.characters[0].groups[g].remove_color(0);
    assert_eq!(lib.characters[0].groups[g].colors.len(), 1);
    assert_eq!(lib.characters[0].groups[g].colors[0].label, "pupila");
    assert_eq!(lib.characters[0].groups[g].colors[0].color, Color::rgb(0, 0, 0));
    lib.characters[0].remove_group(0);
    assert!(lib.characters[0].groups.is_empty());
}

#[test]
fn color_constants() {
    assert_eq!(Color::transparent(), Color::rgba(0, 0, 0, 0));
    assert_eq!(Color::white(), Color::rgba(255, 255, 255, 255));
    assert_eq!(Color::black(), Color::rgba(0, 0, 0, 255));
    assert_eq!(Color::rgb(1, 2, 3).a, 255);
}
