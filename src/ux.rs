//! The logic of sprite-drawn menus: which entry is selected and how each
//! entry reads.
use vstd::prelude::*;
use vstd::string::{StrSliceExecFns, StringExecFns};

use crate::sprite::SpriteTile;

verus! {

/// What a view loop tells its caller after handling a frame.
#[derive(Clone, Copy, Debug, PartialEq, Eq, Structural)]
pub enum UxEvent {
    Continue,
    Quit,
}

/// The length in milliseconds of one frame at `fps` frames a second.
pub fn frame_ms(fps: u32) -> (r: u64)
    requires
        fps > 0,
    ensures
        r == 1000int / (fps as int),
{
    (1000 / fps) as u64
}

/// How long to sleep at `now_ms` so that a frame started at `start_ms` lasts
/// `target_ms`: the time left, or nothing when the frame has overrun.
pub fn frame_sleep_ms(start_ms: u64, target_ms: u64, now_ms: u64) -> (r: u64)
    requires
        start_ms + target_ms <= u64::MAX,
    ensures
        now_ms < start_ms + target_ms ==> r == start_ms + target_ms - now_ms,
        now_ms >= start_ms + target_ms ==> r == 0,
{
    if now_ms < start_ms + target_ms {
        start_ms + target_ms - now_ms
    } else {
        0
    }
}

/// Frame bookkeeping for a loop that runs frame after frame: when the last
/// frame started, and how many frames ran in the last whole second.
pub struct FrameClock {
    pub last_ms: u64,
    pub next_fps_ms: u64,
    pub fps_ctr: u32,
    pub curr_fps: u32,
}

impl FrameClock {
    /// A clock whose first second starts at `now_ms`.
    pub fn new(now_ms: u64) -> (r: FrameClock)
        requires
            now_ms <= u64::MAX - 1000,
        ensures
            r.last_ms == now_ms,
            r.next_fps_ms == now_ms + 1000,
            r.fps_ctr == 0,
            r.curr_fps == 0,
    {
        FrameClock { last_ms: now_ms, next_fps_ms: now_ms + 1000, fps_ctr: 0, curr_fps: 0 }
    }

    /// Starts a frame at `now_ms`. Returns the milliseconds since the last
    /// frame started and the number of frames of the last whole second; a
    /// new second starts once `now_ms` reaches the end of the current one.
    pub fn tick(&mut self, now_ms: u64) -> (r: (u64, u32))
        requires
            old(self).last_ms <= now_ms <= u64::MAX - 1000,
            old(self).fps_ctr < u32::MAX,
        ensures
            r.0 == now_ms - old(self).last_ms,
            final(self).last_ms == now_ms,
            now_ms >= old(self).next_fps_ms ==> {
                &&& final(self).next_fps_ms == now_ms + 1000
                &&& final(self).curr_fps == old(self).fps_ctr + 1
                &&& final(self).fps_ctr == 0
            },
            now_ms < old(self).next_fps_ms ==> {
                &&& final(self).next_fps_ms == old(self).next_fps_ms
                &&& final(self).curr_fps == old(self).curr_fps
                &&& final(self).fps_ctr == old(self).fps_ctr + 1
            },
            r.1 == final(self).curr_fps,
    {
        let ms_since = now_ms - self.last_ms;
        self.last_ms = now_ms;
        self.fps_ctr = self.fps_ctr + 1;
        if now_ms >= self.next_fps_ms {
            self.next_fps_ms = now_ms + 1000;
            self.curr_fps = self.fps_ctr;
            self.fps_ctr = 0;
        }
        (ms_since, self.curr_fps)
    }
}

/// A font whose glyphs are sprites of one sheet.
pub trait SpriteUxFont {
    /// The size in pixels of the glyph for `c`, if the font has one.
    spec fn glyph_size(&self, c: char) -> Option<(usize, usize)>;

    fn get_sheet(&self) -> String;

    fn sprite_for(&self, c: &char) -> (r: Option<&SpriteTile>)
        ensures
            match r {
                Some(t) => self.glyph_size(*c) == Some(t.size),
                None => self.glyph_size(*c).is_none(),
            },
    ;
}

/// The sprites a box is framed with; each is one square unit.
pub trait SpriteUxBox {
    /// The side of one unit of the box, in pixels.
    spec fn spec_unit_size(&self) -> usize;

    /// The side of one unit of the box, in pixels.
    fn unit_size(&self) -> (r: usize)
        ensures
            r == self.spec_unit_size(),
    ;

    fn get_sheet(&self) -> String;

    fn get_ul_corner(&self) -> &SpriteTile;

    fn get_ur_corner(&self) -> &SpriteTile;

    fn get_ll_corner(&self) -> &SpriteTile;

    fn get_lr_corner(&self) -> &SpriteTile;

    fn get_top(&self) -> &SpriteTile;

    fn get_bottom(&self) -> &SpriteTile;

    fn get_left(&self) -> &SpriteTile;

    fn get_right(&self) -> &SpriteTile;
}

/// The width in pixels of `s` drawn in `font`, each glyph followed by `gap`
/// pixels; none when a glyph is missing.
pub open spec fn text_width<F: SpriteUxFont>(font: &F, s: Seq<char>, gap: int) -> Option<int>
    decreases s.len(),
{
    if s.len() == 0 {
        Some(0)
    } else {
        match (text_width(font, s.drop_last(), gap), font.glyph_size(s.last())) {
            (Some(w), Some(g)) => Some(w + g.0 + gap),
            _ => None,
        }
    }
}

/// The widest of `lines` drawn in `font`; none when a glyph is missing.
pub open spec fn widest<F: SpriteUxFont>(font: &F, lines: Seq<Seq<char>>, gap: int) -> Option<int>
    decreases lines.len(),
{
    if lines.len() == 0 {
        Some(0)
    } else {
        match (widest(font, lines.drop_last(), gap), text_width(font, lines.last(), gap)) {
            (Some(a), Some(b)) => Some(
                if b > a {
                    b
                } else {
                    a
                },
            ),
            _ => None,
        }
    }
}

/// How many box units hold `pixels`, plus one unit of frame on each side.
pub open spec fn units_with_frame(pixels: int, unit: int) -> int {
    pixels / unit + 2 + if pixels % unit > 0 {
        1int
    } else {
        0int
    }
}

/// The height in pixels of `n` lines of glyphs `fy` pixels high, a quarter
/// glyph apart.
pub open spec fn lines_height(fy: int, n: int) -> int {
    if n == 0 {
        0
    } else {
        fy * n + (fy / 4) * (n - 1)
    }
}

/// The size, in box units, of the box that frames `lines` drawn in `font`
/// with `gap` pixels between glyphs, a line's height being that of the
/// space glyph; none when a glyph is missing or the unit is zero.
pub open spec fn menu_box_size<F: SpriteUxFont, B: SpriteUxBox>(
    font: &F,
    bx: &B,
    lines: Seq<Seq<char>>,
    gap: int,
) -> Option<(int, int)> {
    let u = bx.spec_unit_size() as int;
    match (widest(font, lines, gap), font.glyph_size(' ')) {
        (Some(w), Some(g)) => if u > 0 {
            Some(
                (
                    units_with_frame(w, u),
                    units_with_frame(lines_height(g.1 as int, lines.len() as int), u),
                ),
            )
        } else {
            None
        },
        _ => None,
    }
}

/// The pixel and unit counts of a menu box fit in `usize`.
pub open spec fn menu_box_fits<F: SpriteUxFont, B: SpriteUxBox>(
    font: &F,
    bx: &B,
    lines: Seq<Seq<char>>,
    gap: int,
) -> bool {
    let b = menu_box_size(font, bx, lines, gap).unwrap();
    &&& widest(font, lines, gap).unwrap() <= usize::MAX
    &&& lines_height(font.glyph_size(' ').unwrap().1 as int, lines.len() as int) <= usize::MAX
    &&& b.0 <= usize::MAX
    &&& b.1 <= usize::MAX
}

proof fn lemma_usize_product(a: int, b: int)
    requires
        0 <= a <= usize::MAX,
        0 <= b <= usize::MAX,
    ensures
        0 <= a * b <= u128::MAX,
{
    assert(0 <= a * b <= (usize::MAX as int) * (usize::MAX as int)) by (nonlinear_arith)
        requires
            0 <= a <= usize::MAX,
            0 <= b <= usize::MAX,
    ;
}

/// `units_with_frame`, when it fits in `usize`.
fn frame_units(pixels: usize, unit: usize) -> (r: Option<usize>)
    requires
        unit > 0,
    ensures
        match r {
            Some(n) => n == units_with_frame(pixels as int, unit as int),
            None => units_with_frame(pixels as int, unit as int) > usize::MAX,
        },
{
    let q = pixels / unit;
    let extra: usize = if pixels % unit > 0 {
        1
    } else {
        0
    };
    if q > usize::MAX - 2 - extra {
        None
    } else {
        Some(q + 2 + extra)
    }
}

proof fn lemma_text_width_prefix<F: SpriteUxFont>(font: &F, s: Seq<char>, k: int, gap: int)
    requires
        0 <= k <= s.len(),
        0 <= gap,
        text_width(font, s, gap) is Some,
    ensures
        text_width(font, s.take(k), gap) is Some,
        0 <= text_width(font, s.take(k), gap).unwrap() <= text_width(font, s, gap).unwrap(),
    decreases s.len(),
{
    if s.len() == 0 {
        assert(s.take(k) =~= s);
    } else if k == s.len() {
        assert(s.take(k) =~= s);
        lemma_text_width_prefix(font, s.drop_last(), s.len() - 1, gap);
        assert(s.drop_last().take(s.len() - 1) =~= s.drop_last());
    } else {
        lemma_text_width_prefix(font, s.drop_last(), k, gap);
        assert(s.drop_last().take(k) =~= s.take(k));
    }
}

proof fn lemma_widest_bounds<F: SpriteUxFont>(font: &F, lines: Seq<Seq<char>>, k: int, gap: int)
    requires
        0 <= k <= lines.len(),
        0 <= gap,
        widest(font, lines, gap) is Some,
    ensures
        widest(font, lines.take(k), gap) is Some,
        0 <= widest(font, lines.take(k), gap).unwrap() <= widest(font, lines, gap).unwrap(),
        k < lines.len() ==> text_width(font, lines[k], gap) is Some && text_width(
            font,
            lines[k],
            gap,
        ).unwrap() <= widest(font, lines, gap).unwrap(),
    decreases lines.len(),
{
    if lines.len() == 0 {
        assert(lines.take(k) =~= lines);
    } else {
        let last = lines.len() - 1;
        lemma_widest_bounds(font, lines.drop_last(), if k == lines.len() {
            last
        } else {
            k
        }, gap);
        assert(lines.drop_last().take(last) =~= lines.drop_last());
        lemma_text_width_prefix(font, lines.last(), lines.last().len() as int, gap);
        if k == lines.len() {
            assert(lines.take(k) =~= lines);
        } else {
            assert(lines.drop_last().take(k) =~= lines.take(k));
            if k < last {
                assert(lines.drop_last()[k] == lines[k]);
            }
        }
    }
}

/// The width in pixels of `text` drawn in `font`, `gap` pixels after each
/// glyph. None when the font lacks a glyph of the text or the width does not
/// fit in `usize`.
pub fn compute_len<F: SpriteUxFont>(font: &F, text: &str, gap: usize) -> (r: Option<usize>)
    ensures
        match r {
            Some(n) => text_width(font, text@, gap as int) == Some(n as int),
            None => text_width(font, text@, gap as int) is None || text_width(
                font,
                text@,
                gap as int,
            ).unwrap() > usize::MAX,
        },
{
    let len = text.unicode_len();
    let mut total: usize = 0;
    let mut i: usize = 0;
    while i < len
        invariant
            len == text@.len(),
            i <= len,
            text_width(font, text@.take(i as int), gap as int) == Some(total as int),
        decreases len - i,
    {
        let c = text.get_char(i);
        let w = match font.sprite_for(&c) {
            Some(t) => t.size.0,
            None => {
                proof {
                    assert(text@.take(i + 1).drop_last() =~= text@.take(i as int));
                    assert(text_width(font, text@.take(i + 1), gap as int) is None);
                    if text_width(font, text@, gap as int) is Some {
                        lemma_text_width_prefix(font, text@, i + 1, gap as int);
                    }
                }
                return None;
            },
        };
        proof {
            assert(text@.take(i + 1).drop_last() =~= text@.take(i as int));
            assert(text@.take(i + 1).last() == c);
        }
        if total > usize::MAX - w || total + w > usize::MAX - gap {
            proof {
                if text_width(font, text@, gap as int) is Some {
                    lemma_text_width_prefix(font, text@, i + 1, gap as int);
                }
            }
            return None;
        }
        total = total + w + gap;
        i += 1;
    }
    proof {
        assert(text@.take(len as int) =~= text@);
    }
    Some(total)
}

/// How entry `entry` of a menu reads: its prefix, a space, then its text.
pub open spec fn formatted_spec(prefix: Seq<char>, entry: Seq<char>) -> Seq<char> {
    prefix + seq![' '] + entry
}

/// A menu as the contracts see it.
pub struct MenuView {
    pub entries: Seq<Seq<char>>,
    pub formatted: Seq<Seq<char>>,
    pub selected_prefix: Seq<char>,
    pub unselected_prefix: Seq<char>,
    pub curr_selected: nat,
    pub bg_color: (u8, u8, u8),
    pub coords: (i64, i64),
    pub box_size: (usize, usize),
    pub text_gap: usize,
}

impl MenuView {
    /// How entry `i` reads, given which entry is selected.
    pub open spec fn line(&self, i: int) -> Seq<char> {
        formatted_spec(
            if i == self.curr_selected {
                self.selected_prefix
            } else {
                self.unselected_prefix
            },
            self.entries[i],
        )
    }

    /// The selection points at an entry (or at 0 in an empty menu), and each
    /// formatted line reads as its entry does.
    pub open spec fn wf(&self) -> bool {
        &&& self.formatted.len() == self.entries.len()
        &&& (self.entries.len() == 0 ==> self.curr_selected == 0)
        &&& (self.entries.len() > 0 ==> self.curr_selected < self.entries.len())
        &&& forall|i: int| 0 <= i < self.entries.len() ==> #[trigger] self.formatted[i] == self.line(i)
    }
}

/// A vertical menu of text entries in a sprite-drawn box.
pub struct SpriteUxMenuBox {
    entries: Vec<String>,
    formatted_entries: Vec<String>,
    bg_color: (u8, u8, u8),
    selected_prefix: String,
    unselected_prefix: String,
    curr_selected: usize,
    coords: (i64, i64),
    box_size: (usize, usize),
    text_gap: usize,
}

impl View for SpriteUxMenuBox {
    type V = MenuView;

    closed spec fn view(&self) -> MenuView {
        MenuView {
            entries: self.entries@.map_values(|s: String| s@),
            formatted: self.formatted_entries@.map_values(|s: String| s@),
            selected_prefix: self.selected_prefix@,
            unselected_prefix: self.unselected_prefix@,
            curr_selected: self.curr_selected as nat,
            bg_color: self.bg_color,
            coords: self.coords,
            box_size: self.box_size,
            text_gap: self.text_gap,
        }
    }
}

impl SpriteUxMenuBox {
    /// An empty menu on black, two pixels between characters.
    pub fn new() -> (r: SpriteUxMenuBox)
        ensures
            r@.wf(),
            r@.entries.len() == 0,
            r@.selected_prefix.len() == 0,
            r@.unselected_prefix.len() == 0,
            r@.curr_selected == 0,
            r@.bg_color == (0u8, 0u8, 0u8),
            r@.coords == (0i64, 0i64),
            r@.box_size == (0usize, 0usize),
            r@.text_gap == 2,
    {
        let r = SpriteUxMenuBox {
            entries: Vec::new(),
            formatted_entries: Vec::new(),
            bg_color: (0, 0, 0),
            selected_prefix: String::new(),
            unselected_prefix: String::new(),
            curr_selected: 0,
            coords: (0, 0),
            box_size: (0, 0),
            text_gap: 2,
        };
        proof {
            assert(r@.entries =~= Seq::<Seq<char>>::empty());
            assert(r@.formatted =~= Seq::<Seq<char>>::empty());
        }
        r
    }

    /// A menu of `entries`, the first one selected, each line marked by
    /// `selected_prefix` or `unselected_prefix`.
    pub fn with_entries(
        entries: Vec<String>,
        selected_prefix: String,
        unselected_prefix: String,
        bg_color: (u8, u8, u8),
    ) -> (r: SpriteUxMenuBox)
        ensures
            r@.wf(),
            r@.entries == entries@.map_values(|s: String| s@),
            r@.selected_prefix == selected_prefix@,
            r@.unselected_prefix == unselected_prefix@,
            r@.curr_selected == 0,
            r@.bg_color == bg_color,
            r@.coords == (0i64, 0i64),
            r@.box_size == (0usize, 0usize),
            r@.text_gap == 2,
    {
        let mut m = SpriteUxMenuBox {
            entries,
            formatted_entries: Vec::new(),
            bg_color,
            selected_prefix,
            unselected_prefix,
            curr_selected: 0,
            coords: (0, 0),
            box_size: (0, 0),
            text_gap: 2,
        };
        let mut v: usize = 0;
        while v < m.entries.len()
            invariant
                v <= m.entries@.len(),
                m.formatted_entries@.len() == v,
                m.curr_selected == 0,
                m.entries@ == entries@,
                m.selected_prefix@ == selected_prefix@,
                m.unselected_prefix@ == unselected_prefix@,
                m.bg_color == bg_color,
                m.coords == (0i64, 0i64),
                m.box_size == (0usize, 0usize),
                m.text_gap == 2,
                forall|i: int| 0 <= i < v ==> #[trigger] m.formatted_entries@[i]@ == m@.line(i),
            decreases m.entries@.len() - v,
        {
            let f = m.get_formatted(v);
            m.formatted_entries.push(f);
            v += 1;
        }
        proof {
            let mv = m@;
            assert forall|i: int| 0 <= i < mv.entries.len() implies #[trigger] mv.formatted[i] == mv.line(i) by {
                assert(mv.formatted[i] == m.formatted_entries@[i]@);
            }
        }
        m
    }

    pub fn entries(&self) -> (r: &Vec<String>)
        ensures
            r@.map_values(|s: String| s@) == self@.entries,
    {
        &self.entries
    }

    pub fn formatted_entries(&self) -> (r: &Vec<String>)
        ensures
            r@.map_values(|s: String| s@) == self@.formatted,
    {
        &self.formatted_entries
    }

    pub fn curr_selected(&self) -> (r: usize)
        ensures
            r == self@.curr_selected,
    {
        self.curr_selected
    }

    pub fn bg_color(&self) -> (r: (u8, u8, u8))
        ensures
            r == self@.bg_color,
    {
        self.bg_color
    }

    pub fn text_gap(&self) -> (r: usize)
        ensures
            r == self@.text_gap,
    {
        self.text_gap
    }

    pub fn box_size(&self) -> (r: (usize, usize))
        ensures
            r == self@.box_size,
    {
        self.box_size
    }

    pub fn coords(&self) -> (r: (i64, i64))
        ensures
            r == self@.coords,
    {
        self.coords
    }

    /// Selects the next entry, if there is one.
    pub fn move_down(&mut self)
        requires
            old(self)@.wf(),
        ensures
            final(self)@.wf(),
            final(self)@.curr_selected == (if old(self)@.curr_selected + 1 < old(self)@.entries.len() {
                old(self)@.curr_selected + 1
            } else {
                old(self)@.curr_selected
            }),
            final(self)@ == (MenuView {
                curr_selected: final(self)@.curr_selected,
                formatted: final(self)@.formatted,
                ..old(self)@
            }),
            final(self)@.entries == old(self)@.entries,
            final(self)@.box_size == old(self)@.box_size,
            final(self)@.coords == old(self)@.coords,
    {
        let len = self.entries.len();
        if len > 0 && self.curr_selected < len - 1 {
            let new_idx = self.curr_selected + 1;
            self.update_selected(new_idx);
        }
    }

    /// Selects the previous entry, if there is one.
    pub fn move_up(&mut self)
        requires
            old(self)@.wf(),
        ensures
            final(self)@.wf(),
            final(self)@.curr_selected == (if old(self)@.curr_selected > 0 {
                old(self)@.curr_selected - 1
            } else {
                old(self)@.curr_selected as int
            }),
            final(self)@ == (MenuView {
                curr_selected: final(self)@.curr_selected,
                formatted: final(self)@.formatted,
                ..old(self)@
            }),
            final(self)@.entries == old(self)@.entries,
            final(self)@.box_size == old(self)@.box_size,
            final(self)@.coords == old(self)@.coords,
    {
        if self.curr_selected > 0 {
            let new_idx = self.curr_selected - 1;
            self.update_selected(new_idx);
        }
    }

    /// Moves the selection to `new_idx` and rewrites the two lines whose
    /// prefix changes.
    fn update_selected(&mut self, new_idx: usize)
        requires
            old(self)@.wf(),
            new_idx < old(self)@.entries.len(),
        ensures
            final(self)@.wf(),
            final(self)@.curr_selected == new_idx,
            final(self)@ == (MenuView {
                curr_selected: new_idx as nat,
                formatted: final(self)@.formatted,
                ..old(self)@
            }),
            final(self)@.entries == old(self)@.entries,
            final(self)@.box_size == old(self)@.box_size,
            final(self)@.coords == old(self)@.coords,
    {
        let old_selected = self.curr_selected;
        self.curr_selected = new_idx;
        let selected_formatted = self.get_formatted(self.curr_selected);
        self.formatted_entries.set(self.curr_selected, selected_formatted);
        let unselected_formatted = self.get_formatted(old_selected);
        self.formatted_entries.set(old_selected, unselected_formatted);
        proof {
            let mv = self@;
            assert forall|i: int| 0 <= i < mv.entries.len() implies #[trigger] mv.formatted[i] == mv.line(i) by {
                if i != new_idx && i != old_selected {
                    assert(mv.formatted[i] == old(self)@.formatted[i]);
                }
            }
        }
    }

    /// Entry `v` as it reads: its prefix, a space, then its text.
    fn get_formatted(&self, v: usize) -> (r: String)
        requires
            v < self@.entries.len(),
        ensures
            r@ == self@.line(v as int),
    {
        let prefix = if v == self.curr_selected {
            &self.selected_prefix
        } else {
            &self.unselected_prefix
        };
        let r = prefix.clone().concat(" ").concat(self.entries[v].as_str());
        proof {
            reveal_strlit(" ");
            assert(r@ =~= self@.line(v as int));
        }
        r
    }

    /// Sizes the menu's box, in box units, to fit its lines drawn in
    /// `ui_font` framed by `ui_box`, and places it at `coords`. Returns false,
    /// and changes nothing, when a glyph is missing, the unit is zero, or a
    /// size does not fit in `usize`.
    pub fn update_bounds<F: SpriteUxFont, B: SpriteUxBox>(
        &mut self,
        coords: (i64, i64),
        ui_font: &F,
        ui_box: &B,
    ) -> (r: bool)
        requires
            old(self)@.wf(),
        ensures
            final(self)@.wf(),
            r == (menu_box_size(ui_font, ui_box, old(self)@.formatted, old(self)@.text_gap as int) is Some
                && menu_box_fits(ui_font, ui_box, old(self)@.formatted, old(self)@.text_gap as int)),
            r ==> {
                let b = menu_box_size(
                    ui_font,
                    ui_box,
                    old(self)@.formatted,
                    old(self)@.text_gap as int,
                ).unwrap();
                &&& final(self)@.box_size == (b.0 as usize, b.1 as usize)
                &&& final(self)@.coords == coords
                &&& final(self)@ == (MenuView { box_size: final(self)@.box_size, coords, ..old(self)@ })
            },
            !r ==> final(self)@ == old(self)@,
    {
        let ghost lines = self@.formatted;
        let ghost gap = self.text_gap as int;
        let n = self.formatted_entries.len();
        let mut longest: usize = 0;
        let mut v: usize = 0;
        let mut measured = true;
        proof {
            assert(lines.take(0) =~= Seq::<Seq<char>>::empty());
        }
        while v < n && measured
            invariant
                v <= n,
                n == lines.len(),
                self@ == old(self)@,
                lines == self@.formatted,
                gap == self.text_gap,
                measured ==> widest(ui_font, lines.take(v as int), gap) == Some(longest as int),
                !measured ==> !(widest(ui_font, lines, gap) is Some && widest(ui_font, lines, gap).unwrap()
                    <= usize::MAX),
            decreases n - v + (if measured {
                1int
            } else {
                0int
            }),
        {
            match compute_len(ui_font, self.formatted_entries[v].as_str(), self.text_gap) {
                Some(flen) => {
                    proof {
                        assert(self.formatted_entries@[v as int]@ == lines[v as int]);
                        assert(lines.take(v + 1).drop_last() =~= lines.take(v as int));
                        assert(lines.take(v + 1).last() == lines[v as int]);
                    }
                    if flen > longest {
                        longest = flen;
                    }
                    v += 1;
                },
                None => {
                    proof {
                        assert(self.formatted_entries@[v as int]@ == lines[v as int]);
                        if widest(ui_font, lines, gap) is Some {
                            lemma_widest_bounds(ui_font, lines, v as int, gap);
                        }
                    }
                    measured = false;
                },
            }
        }
        if !measured {
            return false;
        }
        proof {
            assert(lines.take(n as int) =~= lines);
        }
        let fy = match ui_font.sprite_for(&' ') {
            Some(t) => t.size.1,
            None => return false,
        };
        let u = ui_box.unit_size();
        if u == 0 {
            return false;
        }
        let font_height: usize = if n == 0 {
            0
        } else {
            proof {
                lemma_usize_product(fy as int, n as int);
                lemma_usize_product((fy / 4) as int, (n - 1) as int);
            }
            let tall = (fy as u128) * (n as u128);
            let gaps = ((fy / 4) as u128) * ((n - 1) as u128);
            if tall > usize::MAX as u128 || gaps > usize::MAX as u128 || tall + gaps > usize::MAX as u128 {
                return false;
            }
            (tall + gaps) as usize
        };
        let box_h = match frame_units(font_height, u) {
            Some(h) => h,
            None => return false,
        };
        let box_w = match frame_units(longest, u) {
            Some(w) => w,
            None => return false,
        };
        self.box_size = (box_w, box_h);
        self.coords = coords;
        true
    }
}

} // verus!
