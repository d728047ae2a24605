use castli::term::add_frame;
use castli::term::draw_text;
use castli::term::FromTermCoord;
use castli::term::TermCell;
use castli::term::TermCoord;
use castli::GameCoord;

#[test]
fn term_cell_as_string_concatenates_codes_and_glyph() {
    let cell = TermCell::new('G', "\x1b[32m", "\x1b[42m");
    assert_eq!(cell.as_string(), "\x1b[32m\x1b[42mG");
}

#[test]
fn from_game_coord_halves_rows_and_offsets() {
    let r = TermCoord::from_game_coord(GameCoord { x: 10, y: 7 }, TermCoord { x: 4, y: 1 });
    assert_eq!(r, (2, 6));
}

#[test]
fn from_term_coord_doubles_rows_back() {
    let c = GameCoord::from_term_coord(TermCoord { x: 6, y: 2 }, TermCoord { x: 4, y: 1 });
    assert_eq!(c, GameCoord { x: 10, y: 6 });
}

#[test]
fn draw_text_writes_inside_the_row() {
    let blank = TermCell::new(' ', "", "");
    let mut content = vec![vec![blank; 10]; 3];
    draw_text(&mut content, "hi", 1, 2);
    assert_eq!(content[1][2].ch, 'h');
    assert_eq!(content[1][3].ch, 'i');
    assert_eq!(content[1][4].ch, ' ');
    assert_eq!(content[0][2].ch, ' ');
}

#[test]
fn draw_text_clips_at_the_row_end() {
    let blank = TermCell::new(' ', "", "");
    let mut content = vec![vec![blank; 4]; 1];
    draw_text(&mut content, "long", 0, 2);
    assert_eq!(content[0][2].ch, 'l');
    assert_eq!(content[0][3].ch, 'o');
    assert_eq!(content[0].len(), 4);
    draw_text(&mut content, "x", 5, 0);
    assert_eq!(content.len(), 1);
}

#[test]
fn add_frame_wraps_content_with_borders() {
    let blank = TermCell::new('.', "", "");
    let mut content = vec![vec![blank; 4]; 2];
    add_frame("hi", &mut content);
    assert_eq!(content.len(), 4);
    for row in content.iter() {
        assert_eq!(row.len(), 6);
    }
    assert_eq!(content[0][0].ch, '+');
    assert_eq!(content[0][2].ch, 'h');
    assert_eq!(content[0][3].ch, 'i');
    assert_eq!(content[1][0].ch, '|');
    assert_eq!(content[1][1].ch, '.');
    assert_eq!(content[2][4].ch, '.');
    assert_eq!(content[3][0].ch, '+');
}
