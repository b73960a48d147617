//! CHIP-8 video memory.
use vstd::prelude::*;
use crate::c8core::types::C8Byte;
use crate::memory::zeroed;
use crate::text::{dec_text, push_dec, string_push};

verus! {

/// Video memory width.
pub const VIDEO_MEMORY_WIDTH: usize = 64;

/// Video memory height.
pub const VIDEO_MEMORY_HEIGHT: usize = 32;

/// Renderer scale.
pub const RENDERER_SCALE: usize = 10;

/// Pixels of the standard screen.
pub const VIDEO_MEMORY_SIZE: usize = 2048;

/// Width of a sprite row, in pixels.
const FONT_CHAR_WIDTH: usize = 8;

/// Screen mode.
#[derive(Debug, Clone)]
pub enum ScreenMode {
    /// Standard mode (64x32).
    Standard,
    /// Extended mode (128x64).
    Extended,
}

/// Screen scroll direction.
#[derive(Debug, Clone)]
pub enum ScreenScrollDirection {
    /// Down.
    Down,
    /// Right.
    Right,
    /// Left.
    Left,
    /// Disabled.
    Disabled,
}

/// Screen scroll.
#[derive(Debug, Clone)]
pub struct ScreenScroll {
    /// Scrolling.
    pub scrolling: bool,
    /// Lines.
    pub lines: C8Byte,
    /// Direction.
    pub direction: ScreenScrollDirection,
}

/// Screen data.
#[derive(Debug, Clone)]
pub struct ScreenData {
    data: Vec<C8Byte>,
    alpha: Vec<C8Byte>,
    mode: ScreenMode,
    /// Scroll.
    pub scroll: ScreenScroll,
}

/// Screen.
pub struct Screen {
    /// Data.
    pub data: ScreenData,
}

/// Size factor of a screen mode: 1 for standard, 2 for extended.
pub open spec fn mode_coef(mode: ScreenMode) -> int {
    match mode {
        ScreenMode::Standard => 1,
        ScreenMode::Extended => 2,
    }
}

/// `n` zero bytes.
pub open spec fn zeros(n: int) -> Seq<u8> {
    Seq::new(n as nat, |i: int| 0u8)
}

/// Row `j` (0 to 7, left to right) of a sprite byte is lit: bit `7 - j` is set.
pub open spec fn sprite_bit(code: u8, j: int) -> bool {
    code & (1u8 << ((7 - j) as u8)) != 0
}

/// Pixel index of column `j` of sprite row `i` drawn at `(r1, r2)` on a screen of
/// size factor `c`: the coordinates wrap around the screen.
pub open spec fn pixel_index(r1: u8, r2: u8, i: int, j: int, c: int) -> int {
    (r1 + j) % (64 * c) + ((r2 + i) % (32 * c)) * (64 * c)
}

/// Every lit pixel of `sprite` drawn at `(r1, r2)` on a screen of size factor
/// `c` has an index below `n`.
pub open spec fn sprite_fits(sprite: Seq<u8>, r1: u8, r2: u8, c: int, n: int) -> bool {
    forall|i: int, j: int|
        0 <= i < sprite.len() && 0 <= j < 8 && #[trigger] sprite_bit(sprite[i], j) ==> pixel_index(r1, r2, i, j, c) < n
}

/// Pixels, alpha values and collision flag after the first `k` steps of drawing
/// `sprite` at `(r1, r2)`: step `k` visits column `k % 8` of row `k / 8`; a lit
/// column toggles its pixel (1 becomes 0, anything else 1) and sets its alpha to
/// 255, and the collision flag records a pixel turned off.
pub open spec fn draw_state(
    data: Seq<u8>,
    alpha: Seq<u8>,
    sprite: Seq<u8>,
    r1: u8,
    r2: u8,
    c: int,
    k: nat,
) -> (Seq<u8>, Seq<u8>, bool)
    decreases k,
{
    if k == 0 {
        (data, alpha, false)
    } else {
        let prev = draw_state(data, alpha, sprite, r1, r2, c, (k - 1) as nat);
        let i = (k - 1) / 8;
        let j = (k - 1) % 8;
        if sprite_bit(sprite[i], j) {
            let p = pixel_index(r1, r2, i, j, c);
            (
                prev.0.update(p, toggled(prev.0[p])),
                prev.1.update(p, 255u8),
                prev.2 || prev.0[p] == 1,
            )
        } else {
            prev
        }
    }
}

/// Value of a pixel after a toggle: 1 becomes 0, anything else 1.
pub open spec fn toggled(pixel: u8) -> u8 {
    if pixel == 1 { 0 } else { 1 }
}

/// Toggling a pixel that is 0 or 1 twice gives it back.
pub proof fn lemma_toggle_twice(pixel: u8)
    requires
        pixel == 0 || pixel == 1,
    ensures
        toggled(toggled(pixel)) == pixel,
{
}

/// Alpha value after one fade step: pixels that are off lose a fifth of their
/// alpha (rounded down), lit ones keep it.
pub open spec fn faded(pixel: u8, alpha: u8) -> u8 {
    if pixel == 0 && alpha > 0 { (alpha * 4 / 5) as u8 } else { alpha }
}

impl ScreenData {
    /// Pixel values.
    pub closed spec fn pixels(&self) -> Seq<u8> {
        self.data@
    }

    /// Alpha values.
    pub closed spec fn alphas(&self) -> Seq<u8> {
        self.alpha@
    }

    /// Screen mode.
    pub closed spec fn mode(&self) -> ScreenMode {
        self.mode
    }

    /// Scroll state.
    pub closed spec fn scroll_state(&self) -> ScreenScroll {
        self.scroll
    }

    /// The pixel and alpha buffers have the size of the screen mode.
    pub open spec fn well_formed(&self) -> bool {
        &&& self.pixels().len() == VIDEO_MEMORY_SIZE * mode_coef(self.mode()) * mode_coef(self.mode())
        &&& self.alphas().len() == self.pixels().len()
    }
}

impl Screen {
    /// Creates a blank standard screen.
    pub fn new() -> (res: Self)
        ensures
            res.data.pixels() == zeros(VIDEO_MEMORY_SIZE as int),
            res.data.alphas() == zeros(VIDEO_MEMORY_SIZE as int),
            res.data.mode() == ScreenMode::Standard,
            res.data.scroll_state() == (ScreenScroll {
                scrolling: false,
                lines: 0,
                direction: ScreenScrollDirection::Disabled,
            }),
            res.data.well_formed(),
    {
        Screen {
            data: ScreenData {
                data: zeroed(VIDEO_MEMORY_SIZE),
                alpha: zeroed(VIDEO_MEMORY_SIZE),
                mode: ScreenMode::Standard,
                scroll: ScreenScroll {
                    scrolling: false,
                    lines: 0,
                    direction: ScreenScrollDirection::Disabled,
                },
            },
        }
    }

    /// Switches to `mode` and blanks the screen at that mode's size.
    pub fn reload_screen_for_mode(&mut self, mode: ScreenMode)
        ensures
            final(self).data.mode() == mode,
            final(self).data.pixels() == zeros(VIDEO_MEMORY_SIZE * mode_coef(mode) * mode_coef(mode)),
            final(self).data.alphas() == zeros(VIDEO_MEMORY_SIZE * mode_coef(mode) * mode_coef(mode)),
            final(self).data.scroll_state() == old(self).data.scroll_state(),
            final(self).data.well_formed(),
    {
        self.data.mode = mode;
        let coef = self.get_screen_size_coef();
        self.data.data = zeroed(VIDEO_MEMORY_SIZE * coef * coef);
        self.data.alpha = zeroed(VIDEO_MEMORY_SIZE * coef * coef);
    }

    fn get_screen_size_coef(&self) -> (res: usize)
        ensures
            res == mode_coef(self.data.mode()),
    {
        match self.data.mode {
            ScreenMode::Standard => 1,
            ScreenMode::Extended => 2,
        }
    }

    /// Is the screen scrolling.
    pub fn is_scrolling(&self) -> (res: bool)
        ensures
            res == self.data.scroll_state().scrolling,
    {
        self.data.scroll.scrolling
    }

    /// Draws `sprite` at `(r1, r2)`, one byte per row, toggling the pixels of its
    /// lit bits; returns whether a lit pixel was turned off.
    pub fn draw_sprite(&mut self, r1: C8Byte, r2: C8Byte, sprite: &[C8Byte]) -> (res: bool)
        requires
            sprite_fits(sprite@, r1, r2, mode_coef(old(self).data.mode()), old(self).data.pixels().len() as int),
            sprite_fits(sprite@, r1, r2, mode_coef(old(self).data.mode()), old(self).data.alphas().len() as int),
        ensures
            (final(self).data.pixels(), final(self).data.alphas(), res) == draw_state(
                old(self).data.pixels(),
                old(self).data.alphas(),
                sprite@,
                r1,
                r2,
                mode_coef(old(self).data.mode()),
                8 * sprite@.len(),
            ),
            final(self).data.mode() == old(self).data.mode(),
            final(self).data.scroll_state() == old(self).data.scroll_state(),
            final(self).data.pixels().len() == old(self).data.pixels().len(),
            final(self).data.alphas().len() == old(self).data.alphas().len(),
    {
        let coef = self.get_screen_size_coef();
        let ghost c = coef as int;
        let byte = sprite.len();
        let mut collision = false;
        let mut i: usize = 0;
        while i < byte
            invariant
                i <= byte,
                byte == sprite@.len(),
                c == coef,
                c == mode_coef(old(self).data.mode()),
                self.data.mode() == old(self).data.mode(),
                self.data.scroll_state() == old(self).data.scroll_state(),
                self.data.pixels().len() == old(self).data.pixels().len(),
                self.data.alphas().len() == old(self).data.alphas().len(),
                sprite_fits(sprite@, r1, r2, c, old(self).data.pixels().len() as int),
                sprite_fits(sprite@, r1, r2, c, old(self).data.alphas().len() as int),
                (self.data.pixels(), self.data.alphas(), collision) == draw_state(
                    old(self).data.pixels(),
                    old(self).data.alphas(),
                    sprite@,
                    r1,
                    r2,
                    c,
                    (8 * i) as nat,
                ),
            decreases byte - i,
        {
            let code = sprite[i];
            let h = VIDEO_MEMORY_HEIGHT * coef;
            proof {
                vstd::arithmetic::div_mod::lemma_add_mod_noop_right(r2 as int, i as int, h as int);
            }
            let y = ((r2 as usize) + i % h) % h;
            let mut shift: usize = FONT_CHAR_WIDTH - 1;
            let mut j: usize = 0;
            while j < FONT_CHAR_WIDTH
                invariant
                    i < byte,
                    byte == sprite@.len(),
                    j <= 8,
                    code == sprite@[i as int],
                    shift == if j < 8 { 7 - j } else { 0 },
                    y == (r2 + i) % (32 * c),
                    c == coef,
                    c == mode_coef(old(self).data.mode()),
                    self.data.mode() == old(self).data.mode(),
                    self.data.scroll_state() == old(self).data.scroll_state(),
                    self.data.pixels().len() == old(self).data.pixels().len(),
                    self.data.alphas().len() == old(self).data.alphas().len(),
                    sprite_fits(sprite@, r1, r2, c, old(self).data.pixels().len() as int),
                    sprite_fits(sprite@, r1, r2, c, old(self).data.alphas().len() as int),
                    (self.data.pixels(), self.data.alphas(), collision) == draw_state(
                        old(self).data.pixels(),
                        old(self).data.alphas(),
                        sprite@,
                        r1,
                        r2,
                        c,
                        (8 * i + j) as nat,
                    ),
                decreases 8 - j,
            {
                let x = ((r1 as usize) + j) % (VIDEO_MEMORY_WIDTH * coef);
                let ghost k = (8 * i + j) as nat;
                assert((k + 1 - 1) / 8 == i && (k + 1 - 1) % 8 == j);
                assert(shift as u8 == (7 - j) as u8);
                proof {
                    lemma_pixel_in_screen(r1, r2, i as int, j as int, c);
                    if sprite_bit(sprite@[i as int], j as int) {
                        assert(pixel_index(r1, r2, i as int, j as int, c) < old(self).data.pixels().len());
                        assert(pixel_index(r1, r2, i as int, j as int, c) < old(self).data.alphas().len());
                    }
                }
                if code & (0x1u8 << (shift as u8)) != 0 && self.toggle_pixel_xy(x, y) {
                    collision = true;
                }
                if shift > 0 {
                    shift = shift - 1;
                }
                j = j + 1;
            }
            i = i + 1;
        }
        collision
    }

    /// Turns every pixel off; alpha values are kept.
    pub fn clear_screen(&mut self)
        ensures
            final(self).data.pixels() == zeros(old(self).data.pixels().len() as int),
            final(self).data.alphas() == old(self).data.alphas(),
            final(self).data.mode() == old(self).data.mode(),
            final(self).data.scroll_state() == old(self).data.scroll_state(),
    {
        let n = self.data.data.len();
        let mut x: usize = 0;
        while x < n
            invariant
                x <= n,
                n == old(self).data.pixels().len(),
                self.data.pixels() =~= zeros(x as int) + old(self).data.pixels().subrange(x as int, n as int),
                self.data.alphas() == old(self).data.alphas(),
                self.data.mode() == old(self).data.mode(),
                self.data.scroll_state() == old(self).data.scroll_state(),
            decreases n - x,
        {
            self.data.data.set(x, 0);
            x = x + 1;
        }
    }

    /// Fades the alpha value of every pixel that is off.
    pub fn fade_pixels(&mut self)
        requires
            old(self).data.alphas().len() >= old(self).data.pixels().len(),
        ensures
            final(self).data.pixels() == old(self).data.pixels(),
            final(self).data.alphas().len() == old(self).data.alphas().len(),
            forall|x: int| 0 <= x < old(self).data.pixels().len() ==> #[trigger] final(self).data.alphas()[x]
                == faded(old(self).data.pixels()[x], old(self).data.alphas()[x]),
            forall|x: int| old(self).data.pixels().len() <= x < old(self).data.alphas().len()
                ==> #[trigger] final(self).data.alphas()[x] == old(self).data.alphas()[x],
            final(self).data.mode() == old(self).data.mode(),
            final(self).data.scroll_state() == old(self).data.scroll_state(),
    {
        let n = self.data.data.len();
        let mut x: usize = 0;
        while x < n
            invariant
                x <= n,
                n == old(self).data.pixels().len(),
                n <= old(self).data.alphas().len(),
                self.data.pixels() == old(self).data.pixels(),
                self.data.alphas().len() == old(self).data.alphas().len(),
                forall|k: int| 0 <= k < x ==> #[trigger] self.data.alphas()[k]
                    == faded(old(self).data.pixels()[k], old(self).data.alphas()[k]),
                forall|k: int| x <= k < old(self).data.alphas().len() ==> #[trigger] self.data.alphas()[k]
                    == old(self).data.alphas()[k],
                self.data.mode() == old(self).data.mode(),
                self.data.scroll_state() == old(self).data.scroll_state(),
            decreases n - x,
        {
            if self.data.data[x] == 0 && self.data.alpha[x] > 0 {
                let a = self.data.alpha[x];
                let f = ((a as u16) * 4 / 5) as u8;
                self.data.alpha.set(x, f);
            }
            x = x + 1;
        }
    }

    /// Toggles the pixel at `pos` (1 becomes 0, anything else 1) and sets its
    /// alpha to 255; returns whether the pixel was 1.
    pub fn toggle_pixel(&mut self, pos: usize) -> (res: bool)
        requires
            pos < old(self).data.pixels().len(),
            pos < old(self).data.alphas().len(),
        ensures
            res == (old(self).data.pixels()[pos as int] == 1),
            final(self).data.pixels() == old(self).data.pixels().update(
                pos as int,
                toggled(old(self).data.pixels()[pos as int]),
            ),
            final(self).data.alphas() == old(self).data.alphas().update(pos as int, 255u8),
            final(self).data.mode() == old(self).data.mode(),
            final(self).data.scroll_state() == old(self).data.scroll_state(),
    {
        let mut flip = false;
        let pixel = self.data.data[pos];
        if pixel == 1 {
            self.data.data.set(pos, 0);
            self.data.alpha.set(pos, 255);
            flip = true;
        } else {
            self.data.data.set(pos, 1);
            self.data.alpha.set(pos, 255);
        }
        flip
    }

    /// Toggles the pixel at `(x, y)`.
    pub fn toggle_pixel_xy(&mut self, x: usize, y: usize) -> (res: bool)
        requires
            x + y * (VIDEO_MEMORY_WIDTH * mode_coef(old(self).data.mode())) < old(self).data.pixels().len(),
            x + y * (VIDEO_MEMORY_WIDTH * mode_coef(old(self).data.mode())) < old(self).data.alphas().len(),
        ensures
            ({
                let pos = x + y * (VIDEO_MEMORY_WIDTH * mode_coef(old(self).data.mode()));
                &&& res == (old(self).data.pixels()[pos] == 1)
                &&& final(self).data.pixels() == old(self).data.pixels().update(pos, toggled(old(self).data.pixels()[pos]))
                &&& final(self).data.alphas() == old(self).data.alphas().update(pos, 255u8)
            }),
            final(self).data.mode() == old(self).data.mode(),
            final(self).data.scroll_state() == old(self).data.scroll_state(),
    {
        let coef = self.get_screen_size_coef();
        let n = self.data.data.len();
        assert(y * (VIDEO_MEMORY_WIDTH * coef) <= x + y * (VIDEO_MEMORY_WIDTH * coef) < n);
        let pos = x + y * (VIDEO_MEMORY_WIDTH * coef);
        self.toggle_pixel(pos)
    }

    /// Screen dump: its size, then its pixels row by row.
    pub fn dump_screen(&self) -> (res: String)
        requires
            self.data.pixels().len() >= VIDEO_MEMORY_SIZE * mode_coef(self.data.mode()) * mode_coef(self.data.mode()),
        ensures
            res@ == screen_dump(self.data.pixels(), mode_coef(self.data.mode())),
    {
        let coef = self.get_screen_size_coef();
        let width = VIDEO_MEMORY_WIDTH * coef;
        let height = VIDEO_MEMORY_HEIGHT * coef;
        let mut res = String::new();
        res.append("    -> size: ");
        proof {
            reveal_strlit("    -> size: ");
        }
        push_dec(&mut res, width as u8);
        string_push(&mut res, ' ');
        string_push(&mut res, 'x');
        string_push(&mut res, ' ');
        push_dec(&mut res, height as u8);
        string_push(&mut res, '\n');
        let ghost head = res@;
        assert(head =~= seq![' ', ' ', ' ', ' ', '-', '>', ' ', 's', 'i', 'z', 'e', ':', ' '] + dec_text(width as u8)
            + seq![' ', 'x', ' '] + dec_text(height as u8) + seq!['\n']);
        let mut j: usize = 0;
        while j < height
            invariant
                j <= height,
                width == 64 * coef,
                height == 32 * coef,
                coef == mode_coef(self.data.mode()),
                self.data.pixels().len() >= VIDEO_MEMORY_SIZE * coef * coef,
                res@ =~= head + screen_rows(self.data.pixels(), width as int, j as nat),
            decreases height - j,
        {
            let ghost before = res@;
            string_push(&mut res, ' ');
            string_push(&mut res, ' ');
            string_push(&mut res, ' ');
            string_push(&mut res, ' ');
            let ghost mid = res@;
            let mut i: usize = 0;
            while i < width
                invariant
                    i <= width,
                    j < height,
                    width == 64 * coef,
                    height == 32 * coef,
                    coef == mode_coef(self.data.mode()),
                    self.data.pixels().len() >= VIDEO_MEMORY_SIZE * coef * coef,
                    res@ =~= mid + row_cells(self.data.pixels(), width as int, j as int, i as nat),
                decreases width - i,
            {
                proof {
                    assert(j * width <= (height - 1) * width) by (nonlinear_arith)
                        requires j < height, width > 0;
                    assert((height - 1) * width + width == VIDEO_MEMORY_SIZE * coef * coef) by (nonlinear_arith)
                        requires width == 64 * coef, height == 32 * coef;
                }
                let pixel = self.data.data[i + j * width];
                if pixel == 0 {
                    string_push(&mut res, ' ');
                } else {
                    string_push(&mut res, '\u{2588}');
                }
                i = i + 1;
            }
            string_push(&mut res, '\n');
            assert(res@ =~= before + seq![' ', ' ', ' ', ' '] + row_cells(self.data.pixels(), width as int, j as int, width as nat) + seq!['\n']);
            j = j + 1;
        }
        res
    }

    /// Blanks a standard screen, alpha values at 255.
    pub fn reset(&mut self)
        ensures
            final(self).data.pixels() == zeros(VIDEO_MEMORY_SIZE as int),
            final(self).data.alphas() == Seq::new(VIDEO_MEMORY_SIZE as nat, |i: int| 255u8),
            final(self).data.mode() == ScreenMode::Standard,
            final(self).data.scroll_state() == old(self).data.scroll_state(),
            final(self).data.well_formed(),
    {
        self.data.data = zeroed(VIDEO_MEMORY_SIZE);
        self.data.alpha = filled(VIDEO_MEMORY_SIZE, 255);
        self.data.mode = ScreenMode::Standard;
    }

    /// Takes the pixels, alpha values and mode of saved screen data.
    pub fn load_from_save(&mut self, screen_data: ScreenData)
        ensures
            final(self).data.pixels() == screen_data.pixels(),
            final(self).data.alphas() == screen_data.alphas(),
            final(self).data.mode() == screen_data.mode(),
            final(self).data.scroll_state() == old(self).data.scroll_state(),
    {
        self.data.data = screen_data.data;
        self.data.alpha = screen_data.alpha;
        self.data.mode = screen_data.mode;
    }
}

/// Cells of row `j` of a screen `w` pixels wide: a space for an unlit pixel,
/// a full block for a lit one, over the first `k` columns.
pub open spec fn row_cells(pixels: Seq<u8>, w: int, j: int, k: nat) -> Seq<char>
    decreases k,
{
    if k == 0 {
        Seq::empty()
    } else {
        row_cells(pixels, w, j, (k - 1) as nat) + if pixels[(k - 1) + j * w] == 0 {
            seq![' ']
        } else {
            seq!['\u{2588}']
        }
    }
}

/// The first `k` rows of a screen `w` pixels wide, each indented and ended by a newline.
pub open spec fn screen_rows(pixels: Seq<u8>, w: int, k: nat) -> Seq<char>
    decreases k,
{
    if k == 0 {
        Seq::empty()
    } else {
        screen_rows(pixels, w, (k - 1) as nat) + seq![' ', ' ', ' ', ' '] + row_cells(pixels, w, k - 1, w as nat)
            + seq!['\n']
    }
}

/// Screen dump: its size, then its pixels row by row.
pub open spec fn screen_dump(pixels: Seq<u8>, c: int) -> Seq<char> {
    seq![' ', ' ', ' ', ' ', '-', '>', ' ', 's', 'i', 'z', 'e', ':', ' '] + dec_text((64 * c) as u8) + seq![' ', 'x', ' ']
        + dec_text((32 * c) as u8) + seq!['\n'] + screen_rows(pixels, 64 * c, (32 * c) as nat)
}

/// Color of a pixel, as red, green and blue: an unlit pixel is grey at its
/// alpha value, a lit one white.
pub fn color_from_byte(byte: C8Byte, alpha: C8Byte) -> (res: (u8, u8, u8))
    ensures
        res == if byte == 0 { (alpha, alpha, alpha) } else { (255u8, 255u8, 255u8) },
{
    if byte == 0 {
        (alpha, alpha, alpha)
    } else {
        (255, 255, 255)
    }
}

/// `n` bytes of value `v`.
fn filled(n: usize, v: u8) -> (res: Vec<u8>)
    ensures
        res@ == Seq::new(n as nat, |i: int| v),
{
    let mut res: Vec<u8> = Vec::new();
    let mut i: usize = 0;
    while i < n
        invariant
            i <= n,
            res@ =~= Seq::new(i as nat, |k: int| v),
        decreases n - i,
    {
        res.push(v);
        i = i + 1;
    }
    res
}

/// On a well-formed screen every sprite fits: its pixels wrap around the screen.
pub proof fn lemma_well_formed_fits(data: ScreenData, sprite: Seq<u8>, r1: u8, r2: u8)
    requires
        data.well_formed(),
    ensures
        sprite_fits(sprite, r1, r2, mode_coef(data.mode()), data.pixels().len() as int),
        sprite_fits(sprite, r1, r2, mode_coef(data.mode()), data.alphas().len() as int),
{
    let c = mode_coef(data.mode());
    assert forall|i: int, j: int| 0 <= i < sprite.len() && 0 <= j < 8 && #[trigger] sprite_bit(sprite[i], j) implies pixel_index(r1, r2, i, j, c) < data.pixels().len() by {
        lemma_pixel_in_screen(r1, r2, i, j, c);
    }
}

/// Number of the first `k` steps of drawing `sprite` at `(r1, r2)` that toggle
/// the pixel `p`.
pub open spec fn toggle_count(sprite: Seq<u8>, r1: u8, r2: u8, c: int, k: nat, p: int) -> nat
    decreases k,
{
    if k == 0 {
        0
    } else {
        let i = (k - 1) / 8;
        let j = (k - 1) % 8;
        toggle_count(sprite, r1, r2, c, (k - 1) as nat, p) + if sprite_bit(sprite[i], j)
            && pixel_index(r1, r2, i, j, c) == p {
            1nat
        } else {
            0nat
        }
    }
}

/// Every pixel is 0 or 1.
pub open spec fn binary_pixels(s: Seq<u8>) -> bool {
    forall|p: int| 0 <= p < s.len() ==> #[trigger] s[p] == 0 || s[p] == 1
}

/// After `k` drawing steps on 0/1 pixels, each pixel is flipped exactly when it
/// was toggled an odd number of times.
proof fn lemma_draw_parity(
    data: Seq<u8>,
    alpha: Seq<u8>,
    sprite: Seq<u8>,
    r1: u8,
    r2: u8,
    c: int,
    k: nat,
)
    requires
        binary_pixels(data),
        c == 1 || c == 2,
        data.len() == 2048 * c * c,
    ensures
        draw_state(data, alpha, sprite, r1, r2, c, k).0.len() == data.len(),
        binary_pixels(draw_state(data, alpha, sprite, r1, r2, c, k).0),
        forall|p: int| 0 <= p < data.len() ==> #[trigger] draw_state(data, alpha, sprite, r1, r2, c, k).0[p] == if toggle_count(
            sprite,
            r1,
            r2,
            c,
            k,
            p,
        ) % 2 == 1 {
            (1 - data[p]) as u8
        } else {
            data[p]
        },
    decreases k,
{
    if k > 0 {
        lemma_draw_parity(data, alpha, sprite, r1, r2, c, (k - 1) as nat);
        let i = (k - 1) / 8;
        let j = (k - 1) % 8;
        lemma_pixel_in_screen(r1, r2, i, j, c);
        let prev = draw_state(data, alpha, sprite, r1, r2, c, (k - 1) as nat);
        let cur = draw_state(data, alpha, sprite, r1, r2, c, k);
        assert forall|p: int| 0 <= p < data.len() implies #[trigger] cur.0[p] == if toggle_count(
            sprite,
            r1,
            r2,
            c,
            k,
            p,
        ) % 2 == 1 {
            (1 - data[p]) as u8
        } else {
            data[p]
        } by {
            assert(prev.0[p] == 0 || prev.0[p] == 1);
        }
        assert forall|p: int| 0 <= p < cur.0.len() implies #[trigger] cur.0[p] == 0 || cur.0[p] == 1 by {
            assert(prev.0[p] == 0 || prev.0[p] == 1);
        }
    }
}

/// Drawing a sprite twice at the same place gives back the pixels the screen had
/// before, when each of them was 0 or 1 (drawing is an exclusive or).
pub proof fn lemma_draw_twice_restores_pixels(
    data: Seq<u8>,
    alpha: Seq<u8>,
    sprite: Seq<u8>,
    r1: u8,
    r2: u8,
    mode: ScreenMode,
)
    requires
        binary_pixels(data),
        data.len() == VIDEO_MEMORY_SIZE * mode_coef(mode) * mode_coef(mode),
        alpha.len() == data.len(),
    ensures
        ({
            let c = mode_coef(mode);
            let first = draw_state(data, alpha, sprite, r1, r2, c, 8 * sprite.len());
            draw_state(first.0, first.1, sprite, r1, r2, c, 8 * sprite.len()).0 == data
        }),
{
    let c = mode_coef(mode);
    let k = 8 * sprite.len();
    let first = draw_state(data, alpha, sprite, r1, r2, c, k);
    lemma_draw_parity(data, alpha, sprite, r1, r2, c, k);
    lemma_draw_parity(first.0, first.1, sprite, r1, r2, c, k);
    let second = draw_state(first.0, first.1, sprite, r1, r2, c, k);
    assert forall|p: int| 0 <= p < data.len() implies #[trigger] second.0[p] == data[p] by {
        assert(data[p] == 0 || data[p] == 1);
        assert(first.0[p] == if toggle_count(sprite, r1, r2, c, k, p) % 2 == 1 {
            (1 - data[p]) as u8
        } else {
            data[p]
        });
    }
    assert(second.0 =~= data);
}

/// The pixel of a sprite column lies on the screen.
proof fn lemma_pixel_in_screen(r1: u8, r2: u8, i: int, j: int, c: int)
    requires
        c == 1 || c == 2,
        0 <= i,
        0 <= j < 8,
    ensures
        0 <= pixel_index(r1, r2, i, j, c) < 2048 * c * c,
        pixel_index(r1, r2, i, j, c) == (r1 + j) % (64 * c) + ((r2 + i) % (32 * c)) * (64 * c),
{
    let x = (r1 + j) % (64 * c);
    let y = (r2 + i) % (32 * c);
    assert(0 <= x < 64 * c);
    assert(0 <= y < 32 * c);
    assert(y * (64 * c) <= (32 * c - 1) * (64 * c)) by (nonlinear_arith)
        requires
            0 <= y < 32 * c,
            c > 0,
    ;
    assert((32 * c - 1) * (64 * c) + 64 * c == 2048 * c * c) by (nonlinear_arith);
}


/// Some lit column of `sprite` drawn at `(r1, r2)` lands on pixel `p`.
pub open spec fn sprite_covers(sprite: Seq<u8>, r1: u8, r2: u8, c: int, p: int) -> bool {
    exists|i: int, j: int|
        0 <= i < sprite.len() && 0 <= j < 8 && #[trigger] sprite_bit(sprite[i], j) && pixel_index(r1, r2, i, j, c) == p
}

/// No two lit columns of `sprite` drawn at `(r1, r2)` land on the same pixel.
pub open spec fn sprite_no_overlap(sprite: Seq<u8>, r1: u8, r2: u8, c: int) -> bool {
    forall|i1: int, j1: int, i2: int, j2: int|
        0 <= i1 < sprite.len() && 0 <= j1 < 8 && 0 <= i2 < sprite.len() && 0 <= j2 < 8 && (i1 != i2 || j1 != j2)
            && #[trigger] sprite_bit(sprite[i1], j1) && #[trigger] sprite_bit(sprite[i2], j2)
            ==> pixel_index(r1, r2, i1, j1, c) != pixel_index(r1, r2, i2, j2, c)
}

/// Drawing step `t` is a lit column.
spec fn step_lit(sprite: Seq<u8>, t: int) -> bool {
    sprite_bit(sprite[t / 8], t % 8)
}

/// Pixel of drawing step `t`.
spec fn step_pixel(r1: u8, r2: u8, c: int, t: int) -> int {
    pixel_index(r1, r2, t / 8, t % 8, c)
}

/// One of the first `k` drawing steps is lit and lands on `p`.
spec fn steps_cover(sprite: Seq<u8>, r1: u8, r2: u8, c: int, k: int, p: int) -> bool {
    exists|t: int| 0 <= t < k && #[trigger] step_lit(sprite, t) && step_pixel(r1, r2, c, t) == p
}

/// One of the first `k` drawing steps is lit and lands on a pixel that is 1 in `data`.
spec fn steps_collide(data: Seq<u8>, sprite: Seq<u8>, r1: u8, r2: u8, c: int, k: int) -> bool {
    exists|t: int| 0 <= t < k && #[trigger] step_lit(sprite, t) && data[step_pixel(r1, r2, c, t)] == 1
}

/// The first `k` drawing steps, when no two lit ones land on the same pixel,
/// toggle each pixel they land on once, set its alpha to 255, and collide on
/// the pixels that were 1.
proof fn lemma_draw_prefix_closed_form(
    data: Seq<u8>,
    alpha: Seq<u8>,
    sprite: Seq<u8>,
    r1: u8,
    r2: u8,
    c: int,
    k: nat,
)
    requires
        k <= 8 * sprite.len(),
        c > 0,
        sprite_fits(sprite, r1, r2, c, data.len() as int),
        alpha.len() == data.len(),
        sprite_no_overlap(sprite, r1, r2, c),
    ensures
        ({
            let st = draw_state(data, alpha, sprite, r1, r2, c, k);
            &&& st.0.len() == data.len()
            &&& st.1.len() == alpha.len()
            &&& forall|p: int| 0 <= p < data.len() ==> #[trigger] st.0[p] == if steps_cover(sprite, r1, r2, c, k as int, p) {
                toggled(data[p])
            } else {
                data[p]
            }
            &&& forall|p: int| 0 <= p < alpha.len() ==> #[trigger] st.1[p] == if steps_cover(sprite, r1, r2, c, k as int, p) {
                255u8
            } else {
                alpha[p]
            }
            &&& st.2 == steps_collide(data, sprite, r1, r2, c, k as int)
        }),
    decreases k,
{
    if k > 0 {
        lemma_draw_prefix_closed_form(data, alpha, sprite, r1, r2, c, (k - 1) as nat);
        let t0 = k - 1;
        let i0 = t0 / 8;
        let j0 = t0 % 8;
        let prev = draw_state(data, alpha, sprite, r1, r2, c, (k - 1) as nat);
        let cur = draw_state(data, alpha, sprite, r1, r2, c, k);
        if step_lit(sprite, t0) {
            let p0 = step_pixel(r1, r2, c, t0);
            assert(sprite_bit(sprite[i0], j0));
            assert(p0 < data.len());
            assert(0 <= p0) by {
                let x = (r1 + j0) % (64 * c);
                let y = (r2 + i0) % (32 * c);
                assert(0 <= x && 0 <= y);
                assert(0 <= y * (64 * c)) by (nonlinear_arith)
                    requires 0 <= y, c > 0;
            }
            assert(!steps_cover(sprite, r1, r2, c, t0, p0)) by {
                if steps_cover(sprite, r1, r2, c, t0, p0) {
                    let t = choose|t: int| 0 <= t < t0 && #[trigger] step_lit(sprite, t) && step_pixel(r1, r2, c, t) == p0;
                    assert(sprite_bit(sprite[t / 8], t % 8));
                    assert(t / 8 != i0 || t % 8 != j0);
                }
            }
            assert forall|p: int| 0 <= p < data.len() implies #[trigger] cur.0[p] == if steps_cover(sprite, r1, r2, c, k as int, p) {
                toggled(data[p])
            } else {
                data[p]
            } by {
                if p == p0 {
                    assert(steps_cover(sprite, r1, r2, c, k as int, p));
                } else {
                    if steps_cover(sprite, r1, r2, c, k as int, p) {
                        let t = choose|t: int| 0 <= t < k && #[trigger] step_lit(sprite, t) && step_pixel(r1, r2, c, t) == p;
                        assert(steps_cover(sprite, r1, r2, c, t0, p));
                    }
                }
            }
            assert forall|p: int| 0 <= p < alpha.len() implies #[trigger] cur.1[p] == if steps_cover(sprite, r1, r2, c, k as int, p) {
                255u8
            } else {
                alpha[p]
            } by {
                if p == p0 {
                    assert(steps_cover(sprite, r1, r2, c, k as int, p));
                } else {
                    if steps_cover(sprite, r1, r2, c, k as int, p) {
                        let t = choose|t: int| 0 <= t < k && #[trigger] step_lit(sprite, t) && step_pixel(r1, r2, c, t) == p;
                        assert(steps_cover(sprite, r1, r2, c, t0, p));
                    }
                }
            }
            if steps_collide(data, sprite, r1, r2, c, k as int) {
                let t = choose|t: int| 0 <= t < k && #[trigger] step_lit(sprite, t) && data[step_pixel(r1, r2, c, t)] == 1;
                if t < t0 {
                    assert(steps_collide(data, sprite, r1, r2, c, t0));
                }
            }
            if steps_collide(data, sprite, r1, r2, c, t0) {
                let t = choose|t: int| 0 <= t < t0 && #[trigger] step_lit(sprite, t) && data[step_pixel(r1, r2, c, t)] == 1;
                assert(steps_collide(data, sprite, r1, r2, c, k as int));
            }
            if data[p0] == 1 {
                assert(steps_collide(data, sprite, r1, r2, c, k as int));
            }
        } else {
            assert forall|p: int| #![trigger steps_cover(sprite, r1, r2, c, k as int, p)]
                steps_cover(sprite, r1, r2, c, k as int, p) == steps_cover(sprite, r1, r2, c, t0, p) by {
                if steps_cover(sprite, r1, r2, c, k as int, p) {
                    let t = choose|t: int| 0 <= t < k && #[trigger] step_lit(sprite, t) && step_pixel(r1, r2, c, t) == p;
                    assert(steps_cover(sprite, r1, r2, c, t0, p));
                }
            }
            if steps_collide(data, sprite, r1, r2, c, k as int) {
                let t = choose|t: int| 0 <= t < k && #[trigger] step_lit(sprite, t) && data[step_pixel(r1, r2, c, t)] == 1;
                assert(steps_collide(data, sprite, r1, r2, c, t0));
            }
            if steps_collide(data, sprite, r1, r2, c, t0) {
                let t = choose|t: int| 0 <= t < t0 && #[trigger] step_lit(sprite, t) && data[step_pixel(r1, r2, c, t)] == 1;
                assert(steps_collide(data, sprite, r1, r2, c, k as int));
            }
        }
    }
}

/// Drawing a sprite whose lit columns land on distinct pixels toggles exactly
/// the pixels it covers, sets their alpha to 255 and keeps the others, and
/// reports a collision exactly when it covers a pixel that was 1.
pub proof fn lemma_draw_closed_form(
    data: Seq<u8>,
    alpha: Seq<u8>,
    sprite: Seq<u8>,
    r1: u8,
    r2: u8,
    c: int,
)
    requires
        c > 0,
        sprite_fits(sprite, r1, r2, c, data.len() as int),
        alpha.len() == data.len(),
        sprite_no_overlap(sprite, r1, r2, c),
    ensures
        ({
            let st = draw_state(data, alpha, sprite, r1, r2, c, 8 * sprite.len());
            &&& st.0.len() == data.len()
            &&& st.1.len() == alpha.len()
            &&& forall|p: int| 0 <= p < data.len() ==> #[trigger] st.0[p] == if sprite_covers(sprite, r1, r2, c, p) {
                toggled(data[p])
            } else {
                data[p]
            }
            &&& forall|p: int| 0 <= p < alpha.len() ==> #[trigger] st.1[p] == if sprite_covers(sprite, r1, r2, c, p) {
                255u8
            } else {
                alpha[p]
            }
            &&& st.2 == exists|i: int, j: int|
                0 <= i < sprite.len() && 0 <= j < 8 && #[trigger] sprite_bit(sprite[i], j)
                    && data[pixel_index(r1, r2, i, j, c)] == 1
        }),
{
    let n = 8 * sprite.len();
    lemma_draw_prefix_closed_form(data, alpha, sprite, r1, r2, c, n);
    assert forall|p: int| #![trigger sprite_covers(sprite, r1, r2, c, p)]
        steps_cover(sprite, r1, r2, c, n as int, p) == sprite_covers(sprite, r1, r2, c, p) by {
        if steps_cover(sprite, r1, r2, c, n as int, p) {
            let t = choose|t: int| 0 <= t < n && #[trigger] step_lit(sprite, t) && step_pixel(r1, r2, c, t) == p;
            assert(sprite_bit(sprite[t / 8], t % 8));
        }
        if sprite_covers(sprite, r1, r2, c, p) {
            let (i, j) = choose|i: int, j: int|
                0 <= i < sprite.len() && 0 <= j < 8 && #[trigger] sprite_bit(sprite[i], j) && pixel_index(r1, r2, i, j, c) == p;
            let t = 8 * i + j;
            assert(t / 8 == i && t % 8 == j);
            assert(step_lit(sprite, t));
        }
    }
    let hit = exists|i: int, j: int|
        0 <= i < sprite.len() && 0 <= j < 8 && #[trigger] sprite_bit(sprite[i], j) && data[pixel_index(r1, r2, i, j, c)] == 1;
    if steps_collide(data, sprite, r1, r2, c, n as int) {
        let t = choose|t: int| 0 <= t < n && #[trigger] step_lit(sprite, t) && data[step_pixel(r1, r2, c, t)] == 1;
        assert(sprite_bit(sprite[t / 8], t % 8));
        assert(hit);
    }
    if hit {
        let (i, j) = choose|i: int, j: int|
            0 <= i < sprite.len() && 0 <= j < 8 && #[trigger] sprite_bit(sprite[i], j) && data[pixel_index(r1, r2, i, j, c)] == 1;
        let t = 8 * i + j;
        assert(t / 8 == i && t % 8 == j);
        assert(step_lit(sprite, t));
        assert(steps_collide(data, sprite, r1, r2, c, n as int));
    }
}

} // verus!
