use p2d::agent::Agent;
use p2d::sprite::{SpriteSheet, SpriteTile};
use p2d::ux::{compute_len, frame_ms, frame_sleep_ms, FrameClock, SpriteUxBox, SpriteUxFont, SpriteUxMenuBox, UxEvent};

struct Mono {
    glyph: SpriteTile,
}

impl SpriteUxFont for Mono {
    fn glyph_size(&self, c: char) -> Option<(usize, usize)> {
        self.sprite_for(&c).map(|t| t.size)
    }

    fn get_sheet(&self) -> String {
        "font".to_string()
    }

    fn sprite_for(&self, c: &char) -> Option<&SpriteTile> {
        if *c == '~' {
            None
        } else {
            Some(&self.glyph)
        }
    }
}

struct Frame {
    unit: usize,
    piece: SpriteTile,
}

impl SpriteUxBox for Frame {
    fn spec_unit_size(&self) -> usize {
        self.unit
    }
    fn unit_size(&self) -> usize {
        self.unit
    }
    fn get_sheet(&self) -> String {
        "box".to_string()
    }
    fn get_ul_corner(&self) -> &SpriteTile {
        &self.piece
    }
    fn get_ur_corner(&self) -> &SpriteTile {
        &self.piece
    }
    fn get_ll_corner(&self) -> &SpriteTile {
        &self.piece
    }
    fn get_lr_corner(&self) -> &SpriteTile {
        &self.piece
    }
    fn get_top(&self) -> &SpriteTile {
        &self.piece
    }
    fn get_bottom(&self) -> &SpriteTile {
        &self.piece
    }
    fn get_left(&self) -> &SpriteTile {
        &self.piece
    }
    fn get_right(&self) -> &SpriteTile {
        &self.piece
    }
}

fn font() -> Mono {
    Mono { glyph: SpriteTile { sheet: "font".to_string(), coords: (0, 0), size: (6, 8) } }
}

fn frame(unit: usize) -> Frame {
    Frame { unit, piece: SpriteTile::stub() }
}

fn menu() -> SpriteUxMenuBox {
    SpriteUxMenuBox::with_entries(
        vec!["New".to_string(), "Load".to_string(), "Quit".to_string()],
        ">".to_string(),
        " ".to_string(),
        (10, 20, 30),
    )
}

#[test]
fn empty_menu() {
    let mut m = SpriteUxMenuBox::new();
    assert!(m.entries().is_empty());
    m.move_down();
    m.move_up();
    assert_eq!(m.curr_selected(), 0);
    assert_eq!(m.box_size(), (0, 0));
}

#[test]
fn entries_are_formatted() {
    let m = menu();
    assert_eq!(m.formatted_entries(), &vec!["> New".to_string(), "  Load".to_string(), "  Quit".to_string()]);
}

#[test]
fn moving_the_selection() {
    let mut m = menu();
    m.move_up();
    assert_eq!(m.curr_selected(), 0);
    m.move_down();
    assert_eq!(m.curr_selected(), 1);
    assert_eq!(m.formatted_entries(), &vec!["  New".to_string(), "> Load".to_string(), "  Quit".to_string()]);
    m.move_down();
    m.move_down();
    assert_eq!(m.curr_selected(), 2);
    m.move_up();
    assert_eq!(m.curr_selected(), 1);
}

#[test]
fn text_length_in_pixels() {
    assert_eq!(compute_len(&font(), "abc", 2), Some(24));
    assert_eq!(compute_len(&font(), "", 2), Some(0));
    assert_eq!(compute_len(&font(), "a~c", 2), None);
}

#[test]
fn bounds_fit_the_text() {
    let mut m = menu();
    assert!(m.update_bounds((5, -3), &font(), &frame(8)));
    // Widest line "  Load": 6 glyphs of 8 pixels = 48 = 6 units, plus frame.
    // Height: 3 lines of 8 and 2 gaps of 2 = 28 pixels: 3 units and a part, plus frame.
    assert_eq!(m.box_size(), (8, 6));
    assert_eq!(m.coords(), (5, -3));
}

#[test]
fn bounds_refused_without_unit() {
    let mut m = menu();
    assert!(!m.update_bounds((5, 5), &font(), &frame(0)));
    assert_eq!(m.box_size(), (0, 0));
    assert_eq!(m.coords(), (0, 0));
}

#[test]
fn bounds_refused_for_missing_glyph() {
    let mut m = SpriteUxMenuBox::with_entries(vec!["a~".to_string()], "*".to_string(), "-".to_string(), (0, 0, 0));
    assert!(!m.update_bounds((1, 1), &font(), &frame(8)));
    assert_eq!(m.box_size(), (0, 0));
}

#[test]
fn sprite_and_agent_stubs() {
    let t = SpriteTile::stub();
    assert_eq!(t.sheet, "");
    assert_eq!(t.coords, (0, 0));
    assert_eq!(t.size, (0, 0));
    let c = SpriteTile { sheet: "s".to_string(), coords: (1, 2), size: (3, 4) }.clone();
    assert_eq!((c.sheet.as_str(), c.coords, c.size), ("s", (1, 2), (3, 4)));
    let s = SpriteSheet { path: "a.bmp".to_string(), name: "a".to_string() }.clone();
    assert_eq!(s.name, "a");
    let a = Agent::stub();
    assert_eq!(a.id, 0);
    assert_eq!(a.zone_id, 0);
    assert_eq!(a.name, "");
    assert_eq!(a.animations.len(), 1);
    let b = Agent::new(7, "bob".to_string(), vec![c], 3);
    assert_eq!((b.id, b.zone_id, b.name.as_str(), b.animations.len()), (7, 3, "bob", 1));
    assert_ne!(UxEvent::Continue, UxEvent::Quit);
}

#[test]
fn frame_timing() {
    assert_eq!(frame_ms(60), 16);
    assert_eq!(frame_ms(1), 1000);
    assert_eq!(frame_sleep_ms(100, 16, 110), 6);
    assert_eq!(frame_sleep_ms(100, 16, 116), 0);
    assert_eq!(frame_sleep_ms(100, 16, 130), 0);
    let mut c = FrameClock::new(1000);
    assert_eq!(c.tick(1010), (10, 0));
    assert_eq!(c.tick(1500), (490, 0));
    assert_eq!(c.tick(2000), (500, 3));
    assert_eq!(c.fps_ctr, 0);
    assert_eq!(c.next_fps_ms, 3000);
    assert_eq!(c.tick(2100), (100, 3));
}
