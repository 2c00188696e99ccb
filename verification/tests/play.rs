use termine::field::{GameState, MineField};
use termine::render::{FACE_BLINK, FACE_BURST, FACE_CLOSED, FACE_EMPTY, FACE_MINE};

fn board(w: u16, h: u16, m: u16, f: Vec<u8>) -> MineField {
    MineField { s: 0, w, h, m, f, r: 0, c: 0, ms: 10, b: 80, t: 0 }
}

#[test]
fn board_without_mines_opens_whole_and_succeeds() {
    let mut m = MineField::new(2, 2, 0);
    assert!(m.click());
    assert_eq!(m.f, vec![0x10, 0x10, 0x10, 0x10]);
    assert_eq!(m.opened(), 4);
    assert_eq!(m.state(), GameState::Success);
    assert_eq!(m.s, 0x4004);
}

#[test]
fn board_of_one_mine_explodes_at_once() {
    let mut m = MineField::new(1, 1, 1);
    assert!(m.click());
    assert_eq!(m.f, vec![0x0f]);
    assert_eq!(m.state(), GameState::Exploded);
    assert_eq!(m.s, 0x8000);
    m.ending();
    assert_eq!(m.f, vec![0x9f]);
}

#[test]
fn flood_from_a_corner_opens_all_but_the_mine() {
    let mut m = board(3, 3, 1, vec![0, 0, 0, 0, 1, 1, 0, 1, 15]);
    assert!(m.open(0, 0));
    assert_eq!(m.f, vec![0x10, 0x10, 0x10, 0x10, 0x11, 0x11, 0x10, 0x11, 0x0f]);
    assert_eq!(m.s, 8);
}

#[test]
fn select_that_opens_the_last_cell_succeeds() {
    let mut m = board(3, 3, 1, vec![0, 0, 0, 0, 1, 1, 0, 1, 15]);
    assert!(m.probe(0, 0));
    assert_eq!(m.s, 0x4008);
    assert_eq!(m.state(), GameState::Success);
}

#[test]
fn flood_stops_at_numbers() {
    let mut m = board(5, 1, 1, vec![0, 1, 15, 1, 0]);
    assert!(m.probe(0, 0));
    assert_eq!(m.f, vec![0x10, 0x11, 15, 1, 0]);
    assert_eq!(m.s, 2);
    assert_eq!(m.state(), GameState::Playing);
    assert!(m.probe(0, 3));
    assert_eq!(m.f, vec![0x10, 0x11, 15, 0x11, 0]);
    assert_eq!(m.s, 3);
    assert!(m.probe(0, 4));
    assert_eq!(m.f, vec![0x10, 0x11, 15, 0x11, 0x10]);
    assert_eq!(m.s, 0x4004);
}

#[test]
fn flood_opens_the_region_and_its_border_and_nothing_else() {
    let f = vec![
        0, 0, 1, 15, 1, 0, //
        0, 0, 1, 1, 1, 0, //
        1, 1, 0, 0, 0, 0, //
        15, 1, 0, 0, 0, 0,
    ];
    let mut m = board(6, 4, 2, f.clone());
    let mut g = f.clone();
    for u in g.iter_mut() {
        if *u != 15 {
            *u |= 0x10;
        }
    }
    assert!(m.open(0, 0));
    assert_eq!(m.f, g);
    assert_eq!(m.s, 22);

    let f = vec![
        0, 1, 15, 1, 0, //
        0, 1, 2, 2, 1, //
        0, 0, 1, 15, 1,
    ];
    let mut m = board(5, 3, 2, f);
    assert!(m.open(0, 4));
    assert_eq!(m.f, vec![0, 1, 15, 0x11, 0x10, 0, 1, 2, 0x12, 0x11, 0, 0, 1, 15, 1]);
    assert_eq!(m.s, 4);
    assert!(m.open(1, 2));
    assert_eq!(m.s, 5);
    assert_eq!(m.f[7], 0x12);
}

#[test]
fn flood_on_a_large_empty_board() {
    let mut m = MineField::new(127, 129, 0);
    assert!(m.click());
    assert_eq!(m.opened(), 16383);
    assert!(m.f.iter().all(|u| *u == 0x10));
    assert_eq!(m.state(), GameState::Success);
}

#[test]
fn open_on_a_mine_changes_nothing() {
    let mut m = board(2, 1, 1, vec![15, 1]);
    let before = m.clone();
    assert!(!m.open(0, 0));
    assert_eq!(m, before);
}

#[test]
fn select_on_a_mine_explodes_and_the_ending_opens_all() {
    let mut m = board(3, 1, 1, vec![1, 15, 1]);
    m.s = 1;
    m.f[0] = 0x11;
    m.c = 1;
    assert!(m.click());
    assert_eq!(m.state(), GameState::Exploded);
    assert_eq!(m.s, 0x8001);
    assert_eq!(m.f, vec![0x11, 15, 1]);
    m.ending();
    assert_eq!(m.f, vec![0x11, 0x9f, 0x91]);
    assert!(m.f.iter().all(|u| *u & 0x10 != 0));
}

#[test]
fn select_on_an_opened_cell_changes_nothing() {
    let mut m = board(3, 1, 1, vec![1, 15, 1]);
    m.s = 1;
    m.f[0] = 0x11;
    m.t = 7;
    let before = m.clone();
    assert!(!m.click());
    assert_eq!(m, before);
    assert!(!m.probe(0, 0));
    assert_eq!(m, before);
}

#[test]
fn select_after_the_end_changes_nothing() {
    let mut m = board(3, 1, 1, vec![0x11, 15, 1]);
    m.s = 0x8001;
    let before = m.clone();
    assert!(!m.probe(0, 2));
    assert_eq!(m, before);
}

#[test]
fn first_select_is_safe_and_counts_what_it_opened() {
    for _ in 0..50 {
        let mut m = MineField::new(8, 8, 5);
        assert!(m.update_m(3, 4));
        assert!(m.click());
        assert!(!m.is_explosion());
        assert_eq!(m.f.iter().filter(|u| **u & 0x0f == 0x0f).count(), 5);
        let n = m.f.iter().filter(|u| **u & 0x10 != 0).count();
        assert!(n >= 1);
        assert_eq!(m.opened() as usize, n);
        assert_eq!(m.is_success(), n + 5 == 64);
        assert!(m.is_opened(4, 3));
    }
}

#[test]
fn success_comes_exactly_when_all_other_cells_are_open() {
    let mut m = board(2, 2, 2, vec![2, 15, 15, 2]);
    assert!(m.probe(0, 0));
    assert_eq!(m.state(), GameState::Playing);
    assert_eq!(m.opened() + m.m, 3);
    assert!(m.probe(1, 1));
    assert_eq!(m.state(), GameState::Success);
    assert_eq!(m.opened() + m.m, 4);
}

#[test]
fn glyphs_and_colours() {
    let mut m = board(4, 1, 1, vec![0x10, 0x11, 15, 0x91]);
    m.s = 2;
    m.c = 2;
    assert_eq!(m.glyph(0, 0), (FACE_EMPTY, 2, 3));
    assert_eq!(m.glyph(0, 1), (b'1', 2, 3));
    assert_eq!(m.glyph(0, 2), (FACE_CLOSED, 0, 1));
    assert_eq!(m.glyph(0, 3), (b'1', 4, 5));
    m.t = 40;
    assert_eq!(m.glyph(0, 2), (FACE_BLINK, 0, 1));
    m.c = 1;
    assert_eq!(m.glyph(0, 1), (b'1', 2, 3));
    m.c = 2;
    m.s = 0x8002;
    assert_eq!(m.glyph(0, 2), (FACE_BURST, 0, 1));
    m.ending();
    m.c = 0;
    assert_eq!(m.glyph(0, 2), (FACE_MINE, 4, 5));
}

#[test]
fn no_blink_after_success() {
    let mut m = board(2, 1, 1, vec![0x11, 15]);
    m.s = 0x4001;
    m.c = 1;
    for _ in 0..200 {
        m.tick();
        assert_eq!(m.glyph(0, 1).0, FACE_CLOSED);
        assert_ne!(m.glyph(0, 0).0, FACE_BLINK);
    }
}
