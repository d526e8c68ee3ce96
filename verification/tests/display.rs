use chip8::graphics::u8_to_binary;
use chip8::graphics::Point;
use chip8::graphics::Screen;

fn lit_points(s: &Screen) -> Vec<Point> {
    s.pixel_sets().0
}

#[test]
fn new_screen_is_dark() {
    let s = Screen::new();
    let (lit, unlit) = s.pixel_sets();
    assert!(lit.is_empty());
    assert_eq!(unlit.len(), 2048);
    assert_eq!(unlit[0], Point { x: 0, y: 0 });
    assert_eq!(unlit[65], Point { x: 1, y: 1 });
    assert_eq!(unlit[2047], Point { x: 63, y: 31 });
}

#[test]
fn u8_to_binary_is_msb_first() {
    assert_eq!(
        u8_to_binary(0b1010_0001),
        [true, false, true, false, false, false, false, true]
    );
    assert_eq!(u8_to_binary(0), [false; 8]);
    assert_eq!(u8_to_binary(0xFF), [true; 8]);
}

#[test]
fn byte_bits_tell_bytes_apart() {
    for a in 0..=255u8 {
        for b in 0..=255u8 {
            if a != b {
                assert_ne!(u8_to_binary(a), u8_to_binary(b));
            }
        }
    }
}

#[test]
fn draw_sprite_sets_one_row() {
    let mut s = Screen::new();
    let (collision, updates) = s.draw_sprite(2, 3, &[0xF0]);
    assert!(!collision);
    assert_eq!(updates.len(), 8);
    assert_eq!(updates[0], (Point { x: 2, y: 3 }, true));
    assert_eq!(updates[4], (Point { x: 6, y: 3 }, false));
    assert_eq!(
        lit_points(&s),
        vec![
            Point { x: 2, y: 3 },
            Point { x: 3, y: 3 },
            Point { x: 4, y: 3 },
            Point { x: 5, y: 3 }
        ]
    );
}

#[test]
fn draw_sprite_overwrites_and_reports_pixels_turned_dark() {
    let mut s = Screen::new();
    let (c1, _) = s.draw_sprite(10, 0, &[0xFF]);
    assert!(!c1);
    let (c2, updates) = s.draw_sprite(10, 0, &[0x0F]);
    assert!(c2);
    assert_eq!(updates[0], (Point { x: 10, y: 0 }, false));
    assert_eq!(updates[7], (Point { x: 17, y: 0 }, true));
    assert_eq!(
        lit_points(&s),
        vec![
            Point { x: 14, y: 0 },
            Point { x: 15, y: 0 },
            Point { x: 16, y: 0 },
            Point { x: 17, y: 0 }
        ]
    );
}

#[test]
fn draw_sprite_of_several_rows() {
    let mut s = Screen::new();
    let (collision, updates) = s.draw_sprite(0, 0, &[0x80, 0x40, 0x01]);
    assert!(!collision);
    assert_eq!(updates.len(), 24);
    assert_eq!(updates[9], (Point { x: 1, y: 1 }, true));
    assert_eq!(updates[23], (Point { x: 7, y: 2 }, true));
    assert_eq!(
        lit_points(&s),
        vec![Point { x: 0, y: 0 }, Point { x: 1, y: 1 }, Point { x: 7, y: 2 }]
    );
}

#[test]
fn draw_sprite_past_the_right_edge_runs_into_the_next_row() {
    let mut s = Screen::new();
    let (_, updates) = s.draw_sprite(62, 0, &[0xFF]);
    assert_eq!(updates[7], (Point { x: 69, y: 0 }, true));
    let lit = lit_points(&s);
    assert_eq!(lit.len(), 8);
    assert_eq!(lit[0], Point { x: 62, y: 0 });
    assert_eq!(lit[1], Point { x: 63, y: 0 });
    assert_eq!(lit[2], Point { x: 0, y: 1 });
    assert_eq!(lit[7], Point { x: 5, y: 1 });
}

#[test]
fn draw_empty_sprite_changes_nothing() {
    let mut s = Screen::new();
    let (collision, updates) = s.draw_sprite(255, 255, &[]);
    assert!(!collision);
    assert!(updates.is_empty());
    assert!(lit_points(&s).is_empty());
}

#[test]
fn redraw_changes_nothing() {
    let mut s = Screen::new();
    s.draw_sprite(5, 5, &[0xAA]);
    let sprite = [0x3C, 0x42, 0x81];
    s.draw_sprite(4, 4, &sprite);
    let after_first = lit_points(&s);
    let (collision, _) = s.draw_sprite(4, 4, &sprite);
    assert!(!collision);
    assert_eq!(lit_points(&s), after_first);
}

#[test]
fn clear_turns_every_pixel_dark() {
    let mut s = Screen::new();
    s.draw_sprite(0, 0, &[0xFF, 0xFF]);
    s.clear();
    let (lit, unlit) = s.pixel_sets();
    assert!(lit.is_empty());
    assert_eq!(unlit.len(), 2048);
}

#[test]
fn pixel_sets_partition_the_screen() {
    let mut s = Screen::new();
    s.draw_sprite(7, 9, &[0x5A, 0xC3]);
    let (lit, unlit) = s.pixel_sets();
    assert_eq!(lit.len() + unlit.len(), 2048);
    assert_eq!(lit.len(), 8);
    for p in &lit {
        assert!(!unlit.contains(p));
    }
}

#[test]
fn byte_bits_spell_the_byte() {
    for n in 0..=255u8 {
        let r = u8_to_binary(n);
        let value = r.iter().fold(0u16, |acc, b| 2 * acc + *b as u16);
        assert_eq!(value, n as u16);
        assert_eq!(r.iter().filter(|b| **b).count() as u32, n.count_ones());
    }
}
