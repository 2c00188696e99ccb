use termine::field::{GameState, MineField};

fn board(w: u16, h: u16, m: u16, f: Vec<u8>) -> MineField {
    MineField { s: 0, w, h, m, f, r: 0, c: 0, ms: 10, b: 80, t: 0 }
}

fn recount(f: &[u8], w: i32, h: i32, r: i32, c: i32) -> u8 {
    let mut n = 0u8;
    for dr in -1..=1 {
        for dc in -1..=1 {
            let (j, i) = (r + dr, c + dc);
            if (dr != 0 || dc != 0) && j >= 0 && j < h && i >= 0 && i < w {
                if f[(j * w + i) as usize] & 0x0f == 0x0f {
                    n += 1;
                }
            }
        }
    }
    n
}

#[test]
fn new_board_is_blank() {
    let m = MineField::new(16, 8, 12);
    assert_eq!(m.w, 16);
    assert_eq!(m.h, 8);
    assert_eq!(m.m, 12);
    assert_eq!(m.f, vec![0u8; 128]);
    assert_eq!((m.s, m.r, m.c, m.ms, m.b, m.t), (0, 0, 0, 10, 80, 0));
    assert_eq!(m.state(), GameState::Playing);
    assert!(!m.is_end());
    assert_eq!(m.opened(), 0);
}

#[test]
fn cursor_moves_and_stops_at_the_edges() {
    let mut m = MineField::new(3, 2, 0);
    m.up();
    assert_eq!((m.r, m.c), (0, 0));
    m.left();
    assert_eq!((m.r, m.c), (0, 0));
    m.down();
    assert_eq!((m.r, m.c), (1, 0));
    m.down();
    assert_eq!((m.r, m.c), (1, 0));
    m.right();
    m.right();
    assert_eq!((m.r, m.c), (1, 2));
    m.right();
    assert_eq!((m.r, m.c), (1, 2));
    m.up();
    m.left();
    assert_eq!((m.r, m.c), (0, 1));
}

#[test]
fn cursor_stays_on_the_board_after_many_moves() {
    let mut m = MineField::new(4, 3, 0);
    let mut x = 12345u32;
    for _ in 0..1000 {
        x = x.wrapping_mul(1103515245).wrapping_add(12345);
        match (x >> 16) % 4 {
            0 => m.up(),
            1 => m.down(),
            2 => m.left(),
            _ => m.right(),
        }
        assert!(m.r < 3 && m.c < 4);
    }
}

#[test]
fn update_m_takes_positions_on_the_board_only() {
    let mut m = MineField::new(4, 3, 0);
    assert!(m.update_m(3, 2));
    assert_eq!((m.r, m.c), (2, 3));
    assert!(!m.update_m(4, 0));
    assert!(!m.update_m(0, 3));
    assert_eq!((m.r, m.c), (2, 3));
}

#[test]
fn tick_redraws_at_half_and_full_period() {
    let mut m = MineField::new(2, 2, 0);
    for n in 1..40u16 {
        assert!(!m.tick());
        assert_eq!(m.t, n);
        assert!(!m.is_blink());
    }
    assert!(m.tick());
    assert_eq!(m.t, 40);
    assert!(m.is_blink());
    for n in 41..80u16 {
        assert!(!m.tick());
        assert_eq!(m.t, n);
    }
    assert!(m.tick());
    assert_eq!(m.t, 0);
    m.tick();
    m.reset_tick();
    assert_eq!(m.t, 0);
}

#[test]
fn start_places_the_mines_asked_for_and_spares_the_cursor() {
    for &(w, h, n, r, c) in
        &[(16u16, 8u16, 12u16, 0u16, 0u16), (5, 4, 3, 2, 2), (8, 8, 63, 7, 7), (2, 2, 2, 1, 0), (3, 3, 8, 1, 1)]
    {
        for _ in 0..20 {
            let mut m = MineField::new(w, h, n);
            assert!(m.update_m(c, r));
            m.start();
            assert_eq!(m.f.len(), (w * h) as usize);
            assert_eq!(m.f.iter().filter(|u| **u == 0x0f).count(), n as usize);
            assert_ne!(m.f[(r * w + c) as usize], 0x0f);
            assert_eq!((m.s, m.r, m.c, m.t), (0, r, c, 0));
        }
    }
}

#[test]
fn start_fills_the_board_when_the_mines_do_not_fit() {
    for &(w, h, n) in &[(1u16, 1u16, 1u16), (3, 2, 6), (3, 2, 7), (2, 2, 65535)] {
        let mut m = MineField::new(w, h, n);
        m.start();
        assert_eq!(m.f, vec![0x0fu8; (w * h) as usize]);
    }
}

#[test]
fn start_counts_the_mines_around_every_other_cell() {
    for _ in 0..20 {
        let mut m = MineField::new(9, 7, 15);
        m.start();
        for r in 0..7 {
            for c in 0..9 {
                let u = m.get(r, c);
                if u != 0x0f {
                    assert_eq!(u, recount(&m.f, 9, 7, r as i32, c as i32));
                }
            }
        }
    }
}

#[test]
fn ending_opens_every_cell_and_marks_the_forced_ones() {
    let mut m = board(3, 1, 1, vec![0x11, 0x01, 0x0f]);
    m.s = 1;
    m.ending();
    assert_eq!(m.f, vec![0x11, 0x91, 0x9f]);
    assert_eq!(m.s, 1);
    m.ending();
    assert_eq!(m.f, vec![0x11, 0x91, 0x9f]);
}

#[test]
fn status_bits() {
    let mut m = MineField::new(2, 2, 1);
    m.s = 3;
    m.explosion();
    assert_eq!(m.s, 0x8003);
    assert!(m.is_explosion() && !m.is_success() && m.is_end());
    assert_eq!(m.state(), GameState::Exploded);
    assert_eq!(m.opened(), 3);
    let mut m = MineField::new(2, 2, 1);
    m.s = 3;
    m.success();
    assert_eq!(m.s, 0x4003);
    assert!(!m.is_explosion() && m.is_success() && m.is_end());
    assert_eq!(m.state(), GameState::Success);
    assert_eq!(m.opened(), 3);
}

#[test]
fn index_is_row_major() {
    let m = MineField::new(5, 4, 0);
    assert_eq!(m.index(0, 0), 0);
    assert_eq!(m.index(1, 0), 5);
    assert_eq!(m.index(3, 4), 19);
}
