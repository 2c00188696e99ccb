use termine::field::{GameState, MineField};
use termine::termine::{ask, is_quit, palette, Ask, Fault, Input, Key, Note, Step, Termine};

fn board(w: u16, h: u16, m: u16, f: Vec<u8>) -> MineField {
    MineField { s: 0, w, h, m, f, r: 0, c: 0, ms: 10, b: 80, t: 0 }
}

#[test]
fn keys_ask_for_moves_and_selects() {
    assert_eq!(ask(Key::Left), Ask::Left);
    assert_eq!(ask(Key::Char('h')), Ask::Left);
    assert_eq!(ask(Key::Down), Ask::Down);
    assert_eq!(ask(Key::Char('j')), Ask::Down);
    assert_eq!(ask(Key::Up), Ask::Up);
    assert_eq!(ask(Key::Char('k')), Ask::Up);
    assert_eq!(ask(Key::Right), Ask::Right);
    assert_eq!(ask(Key::Char('l')), Ask::Right);
    assert_eq!(ask(Key::Char(' ')), Ask::Select);
    assert_eq!(ask(Key::Char('x')), Ask::Nothing);
    assert_eq!(ask(Key::Ctrl('h')), Ask::Nothing);
    assert_eq!(ask(Key::Other), Ask::Nothing);
}

#[test]
fn quit_keys() {
    assert!(is_quit(Key::Ctrl('c')));
    assert!(is_quit(Key::Char('q')));
    assert!(is_quit(Key::Esc));
    assert!(is_quit(Key::Char('\x1b')));
    assert!(!is_quit(Key::Char('c')));
    assert!(!is_quit(Key::Ctrl('q')));
    assert!(!is_quit(Key::Left));
}

#[test]
fn palette_has_six_colours() {
    assert_eq!(
        palette(),
        vec![(96, 240, 32), (32, 96, 240), (32, 96, 240), (240, 192, 32), (240, 32, 96), (240, 192, 32)]
    );
}

#[test]
fn new_game_starts_the_blink_period() {
    let mut m = MineField::new(3, 3, 1);
    m.t = 5;
    let g = Termine::new(m);
    assert_eq!(g.m.t, 0);
    assert_eq!(g.m.f, vec![0u8; 9]);
}

#[test]
fn key_moves_the_cursor() {
    let mut g = Termine::new(MineField::new(3, 3, 1));
    assert!(g.key(Key::Char('l')));
    assert!(g.key(Key::Down));
    assert_eq!((g.m.r, g.m.c), (1, 1));
    assert!(g.key(Key::Char('k')));
    assert!(g.key(Key::Left));
    assert!(g.key(Key::Left));
    assert_eq!((g.m.r, g.m.c), (0, 0));
    assert!(!g.key(Key::Char('x')));
    assert!(!g.key(Key::Other));
}

#[test]
fn idle_time_counts_a_tick() {
    let mut g = Termine::new(MineField::new(3, 3, 1));
    g.m.t = 38;
    assert_eq!(
        g.proc(Input::Timeout),
        Ok(Step { note: Note::Field(1, 0), redraw: false, go_on: true })
    );
    assert_eq!(
        g.proc(Input::Timeout),
        Ok(Step { note: Note::Field(1, 0), redraw: true, go_on: true })
    );
    assert_eq!(g.m.t, 40);
}

#[test]
fn end_of_input_is_a_fault() {
    let mut g = Termine::new(MineField::new(3, 3, 1));
    let before = g.clone();
    assert_eq!(g.proc(Input::Disconnected), Err(Fault::Disconnected));
    assert_eq!(g, before);
}

#[test]
fn quit_key_stops_the_game() {
    let mut g = Termine::new(MineField::new(3, 3, 1));
    let before = g.clone();
    for k in [Key::Ctrl('c'), Key::Char('q'), Key::Esc] {
        assert_eq!(
            g.proc(Input::Key(k)),
            Ok(Step { note: Note::Nothing, redraw: false, go_on: false })
        );
        assert_eq!(g, before);
    }
}

#[test]
fn ignored_input_changes_nothing() {
    let mut g = Termine::new(MineField::new(3, 3, 1));
    g.m.t = 9;
    let before = g.clone();
    assert_eq!(g.proc(Input::Other), Ok(Step { note: Note::Nothing, redraw: false, go_on: true }));
    assert_eq!(
        g.proc(Input::Key(Key::Char('x'))),
        Ok(Step { note: Note::Nothing, redraw: false, go_on: true })
    );
    assert_eq!(g, before);
}

#[test]
fn movement_key_redraws_and_resets_the_tick() {
    let mut g = Termine::new(MineField::new(3, 3, 1));
    g.m.t = 9;
    assert_eq!(
        g.proc(Input::Key(Key::Right)),
        Ok(Step { note: Note::Nothing, redraw: true, go_on: true })
    );
    assert_eq!((g.m.r, g.m.c, g.m.t), (0, 1, 0));
}

#[test]
fn select_on_opened_cell_neither_redraws_nor_resets_the_tick() {
    let mut m = board(3, 1, 1, vec![0x11, 15, 1]);
    m.s = 1;
    m.t = 9;
    let mut g = Termine { m };
    let before = g.clone();
    assert_eq!(
        g.proc(Input::Key(Key::Char(' '))),
        Ok(Step { note: Note::Nothing, redraw: false, go_on: true })
    );
    assert_eq!(g, before);
    assert_eq!(
        g.proc(Input::Press(4, 5)),
        Ok(Step { note: Note::Pointer(4, 5), redraw: false, go_on: true })
    );
    assert_eq!(g, before);
}

#[test]
fn select_on_a_mine_ends_the_game_with_every_cell_open() {
    let mut m = board(3, 1, 1, vec![0x11, 15, 1]);
    m.s = 1;
    m.c = 1;
    m.t = 9;
    let mut g = Termine { m };
    assert_eq!(
        g.proc(Input::Key(Key::Char(' '))),
        Ok(Step { note: Note::Nothing, redraw: true, go_on: false })
    );
    assert_eq!(g.m.state(), GameState::Exploded);
    assert_eq!(g.m.f, vec![0x11, 0x9f, 0x91]);
    assert_eq!(g.m.t, 0);
}

#[test]
fn press_selects_the_cell_under_the_cursor() {
    let mut g = Termine::new(MineField::new(2, 2, 0));
    g.m.t = 3;
    assert_eq!(
        g.proc(Input::Press(7, 9)),
        Ok(Step { note: Note::Pointer(7, 9), redraw: true, go_on: false })
    );
    assert_eq!(g.m.state(), GameState::Success);
    assert_eq!(g.m.f, vec![0x10, 0x10, 0x10, 0x10]);
    assert_eq!(g.m.t, 0);
}

#[test]
fn select_that_leaves_the_game_open_goes_on() {
    let mut m = board(5, 1, 1, vec![0, 1, 15, 1, 0]);
    m.s = 0;
    let mut g = Termine { m };
    g.m.f[4] = 0x10;
    g.m.s = 1;
    assert_eq!(
        g.proc(Input::Key(Key::Char(' '))),
        Ok(Step { note: Note::Nothing, redraw: true, go_on: true })
    );
    assert_eq!(g.m.f, vec![0x10, 0x11, 15, 1, 0x10]);
    assert_eq!(g.m.s, 3);
}
