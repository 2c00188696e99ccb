use termine::field::MineField;

fn board(w: u16, h: u16, m: u16, f: Vec<u8>) -> MineField {
    MineField { s: 0, w, h, m, f, r: 0, c: 0, ms: 10, b: 80, t: 0 }
}

#[test]
fn try_new_takes_sizes_that_fit() {
    assert!(MineField::try_new(0, 3, 1).is_none());
    assert!(MineField::try_new(3, 0, 1).is_none());
    assert!(MineField::try_new(128, 128, 1).is_none());
    assert!(MineField::try_new(65535, 65535, 1).is_none());
    assert_eq!(MineField::try_new(127, 129, 7), Some(MineField::new(127, 129, 7)));
    assert_eq!(MineField::try_new(1, 1, 0), Some(MineField::new(1, 1, 0)));
}

#[test]
fn get_k_counts_the_mines_around() {
    let m = board(3, 3, 3, vec![15, 2, 15, 2, 3, 2, 15, 1, 0]);
    assert_eq!(m.get_k(1, 1), 3);
    assert_eq!(m.get_k(0, 0), 0);
    assert_eq!(m.get_k(0, 1), 2);
    assert_eq!(m.get_k(2, 2), 0);
    assert_eq!(m.get_k(2, 1), 1);
    let m = board(3, 3, 9, vec![15; 9]);
    assert_eq!(m.get_k(1, 1), 8);
    assert_eq!(m.get_k(0, 0), 3);
    assert_eq!(m.get_k(1, 0), 5);
}

#[test]
fn counts() {
    let m = board(3, 2, 2, vec![0x11, 15, 0x9f, 0x91, 0x10, 1]);
    assert_eq!(m.count_mines(), 2);
    assert_eq!(m.count_played(), 2);
}

#[test]
fn a_new_field_is_ready() {
    let m = MineField::new(5, 4, 3);
    assert!(m.is_shaped() && m.is_wf() && m.is_blank() && m.is_ready());
}

#[test]
fn a_field_stays_ready_through_a_game() {
    for _ in 0..20 {
        let mut m = MineField::new(6, 5, 4);
        let mut x = 99u32;
        for _ in 0..60 {
            x = x.wrapping_mul(1103515245).wrapping_add(12345);
            match (x >> 16) % 6 {
                0 => m.up(),
                1 => m.down(),
                2 => m.left(),
                3 => m.right(),
                4 => {
                    m.tick();
                }
                _ => {
                    m.click();
                }
            }
            assert!(m.is_ready());
            assert_eq!(m.count_played(), m.opened() as usize);
            if m.s != 0 {
                assert!(m.is_laid());
                assert_eq!(m.count_mines(), 4);
            }
            assert_eq!(m.is_success(), m.opened() + 4 == 30);
            if m.is_end() {
                m.ending();
                assert!(m.is_ready());
                assert!(m.f.iter().all(|u| *u & 0x10 != 0));
                break;
            }
        }
    }
}

#[test]
fn a_board_built_by_hand_is_checked() {
    let good = board(3, 3, 1, vec![0, 0, 0, 0, 1, 1, 0, 1, 15]);
    assert!(good.is_wf());
    assert!(good.is_laid());
    assert!(good.is_counted());
    assert!(!good.is_blank());

    let mut bad = good.clone();
    bad.f[4] = 2;
    assert!(bad.is_wf());
    assert!(!bad.is_counted());
    assert!(!bad.is_laid());

    let mut bad = good.clone();
    bad.m = 2;
    assert!(!bad.is_laid());

    let mut bad = good.clone();
    bad.f[0] = 0x10;
    assert!(!bad.is_shaped());
    bad.s = 1;
    assert!(bad.is_shaped() && bad.is_ready());

    let mut bad = good.clone();
    bad.f[0] = 0x80;
    assert!(!bad.is_shaped());

    let mut bad = good.clone();
    bad.r = 3;
    assert!(!bad.is_shaped());

    let mut bad = good.clone();
    bad.f.pop();
    assert!(!bad.is_shaped());

    let mut bad = good.clone();
    bad.t = 80;
    assert!(!bad.is_shaped());

    let mut bad = good.clone();
    bad.s = 0xc000;
    assert!(bad.is_shaped());
    assert!(!bad.is_wf());

    let mut bad = good.clone();
    bad.s = 0x4000;
    assert!(!bad.is_wf());

    let mut bad = good.clone();
    bad.s = 0;
    assert!(!bad.is_ready());
}
