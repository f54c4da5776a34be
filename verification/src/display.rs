//! The 64x32 monochrome display surface and its XOR sprite compositing.
//!
//! Every pixel mutation is an XOR of an incoming sprite bit against the
//! current pixel state; drawing reports whether any previously lit pixel was
//! turned off (a collision).

use vstd::prelude::*;

verus! {

/// Number of pixel columns on the display.
pub const WIDTH: usize = 64;

/// Number of pixel rows on the display.
pub const HEIGHT: usize = 32;

/// Total number of pixels, row-major with origin at the top left.
pub const PIXEL_COUNT: usize = 2048;

/// The monochrome pixel grid. `memory[y * 64 + x]` is the pixel in
/// column `x` of row `y`; `true` means lit.
pub struct Display {
    pub memory: Vec<bool>,
}

impl Display {
    /// The grid holds exactly one boolean per pixel.
    pub open spec fn wf(&self) -> bool {
        self.memory@.len() == PIXEL_COUNT
    }

    /// A blank display: every pixel off.
    pub fn new() -> (d: Display)
        ensures
            d.wf(),
            d.memory@ == blank_screen(),
    {
        let mut memory: Vec<bool> = Vec::new();
        let mut n: usize = 0;
        while n < PIXEL_COUNT
            invariant
                n <= PIXEL_COUNT,
                memory@.len() == n,
                forall|i: int| 0 <= i < n ==> !memory@[i],
            decreases PIXEL_COUNT - n,
        {
            memory.push(false);
            n = n + 1;
        }
        proof {
            assert(memory@ =~= blank_screen());
        }
        Display { memory }
    }

    /// XOR `pixel` into the grid at `(x, y)` and report whether a lit pixel
    /// was turned off.
    pub fn set(&mut self, x: usize, y: usize, pixel: bool) -> (erased: bool)
        requires
            old(self).wf(),
            x < WIDTH,
            y < HEIGHT,
        ensures
            final(self).wf(),
            final(self).memory@ == old(self).memory@.update(
                y * 64 + x,
                old(self).memory@[y * 64 + x] ^ pixel,
            ),
            erased == (old(self).memory@[y * 64 + x] && pixel),
    {
        let idx = self.to_index(x, y);
        let current = self.memory[idx];
        self.memory[idx] = current ^ pixel;
        current && pixel
    }

    /// Read the pixel at `(x, y)`.
    pub fn get(&self, x: usize, y: usize) -> (pixel: bool)
        requires
            self.wf(),
            x < WIDTH,
            y < HEIGHT,
        ensures
            pixel == self.memory@[y * 64 + x],
    {
        self.memory[self.to_index(x, y)]
    }

    /// Turn every pixel off.
    pub fn clear(&mut self)
        requires
            old(self).wf(),
        ensures
            final(self).wf(),
            final(self).memory@ == blank_screen(),
    {
        let mut n: usize = 0;
        while n < PIXEL_COUNT
            invariant
                n <= PIXEL_COUNT,
                self.memory@.len() == PIXEL_COUNT,
                forall|i: int| 0 <= i < n ==> !self.memory@[i],
            decreases PIXEL_COUNT - n,
        {
            self.memory[n] = false;
            n = n + 1;
        }
        proof {
            assert(self.memory@ =~= blank_screen());
        }
    }

    /// Row-major pixel index.
    fn to_index(&self, x: usize, y: usize) -> (idx: usize)
        requires
            x < WIDTH,
            y < HEIGHT,
        ensures
            idx == y * 64 + x,
            idx < PIXEL_COUNT,
    {
        y * 64 + x
    }
}

/// The all-off pixel grid.
pub open spec fn blank_screen() -> Seq<bool> {
    Seq::new(PIXEL_COUNT as nat, |i: int| false)
}

/// Bit `c` (0 = leftmost) of a sprite row byte.
pub open spec fn sprite_bit(b: u8, c: int) -> bool {
    (b >> ((7 - c) as u8)) & 1 == 1
}

/// Horizontal distance from column `x0` to column `px`, wrapping at 64.
pub open spec fn col_off(x0: int, px: int) -> int {
    if px >= x0 {
        px - x0
    } else {
        px - x0 + 64
    }
}

/// Vertical distance from row `y0` to row `py`, wrapping at 32.
pub open spec fn row_off(y0: int, py: int) -> int {
    if py >= y0 {
        py - y0
    } else {
        py - y0 + 32
    }
}

/// Whether a sprite of `rows` rows drawn at `(x0, y0)` covers pixel
/// `(px, py)`. A sprite row is 8 pixels wide; rows wrap modulo 32 and
/// columns modulo 64, so a sprite of at most 15 rows covers each pixel at
/// most once.
pub open spec fn sprite_hits(x0: int, y0: int, rows: int, px: int, py: int) -> bool {
    col_off(x0, px) < 8 && row_off(y0, py) < rows
}

/// The sprite bit that lands on pixel `(px, py)`.
pub open spec fn sprite_bit_at(sprite: Seq<u8>, x0: int, y0: int, px: int, py: int) -> bool {
    sprite_bit(sprite[row_off(y0, py)], col_off(x0, px))
}

/// The screen after XOR-compositing `sprite` at `(x0, y0)`:
/// every covered pixel is XORed with its sprite bit, every other pixel is
/// untouched. `x0` and `y0` are the already-wrapped coordinates.
pub open spec fn draw_result(screen: Seq<bool>, sprite: Seq<u8>, x0: int, y0: int) -> Seq<bool> {
    Seq::new(PIXEL_COUNT as nat, |idx: int| pixel_after(screen, sprite, x0, y0, idx))
}

/// The value of pixel index `idx` after compositing `sprite` at `(x0, y0)`.
pub open spec fn pixel_after(screen: Seq<bool>, sprite: Seq<u8>, x0: int, y0: int, idx: int) -> bool {
    if sprite_hits(x0, y0, sprite.len() as int, idx % 64, idx / 64) {
        screen[idx] ^ sprite_bit_at(sprite, x0, y0, idx % 64, idx / 64)
    } else {
        screen[idx]
    }
}

/// Whether compositing `sprite` at `(x0, y0)` erases some lit pixel.
pub open spec fn draw_collides(screen: Seq<bool>, sprite: Seq<u8>, x0: int, y0: int) -> bool {
    exists|px: int, py: int|
        0 <= px < 64 && 0 <= py < 32 && sprite_hits(x0, y0, sprite.len() as int, px, py)
            && screen[py * 64 + px] && sprite_bit_at(sprite, x0, y0, px, py)
}

/// Drawing the same sprite at the same location twice in succession
/// restores every pixel to its state before the first draw, and the
/// second draw erases some pixel if and only if the first draw turned
/// some pixel on.
pub proof fn lemma_draw_twice_restores(screen: Seq<bool>, sprite: Seq<u8>, x0: int, y0: int)
    requires
        screen.len() == PIXEL_COUNT,
        sprite.len() <= 15,
        0 <= x0 < 64,
        0 <= y0 < 32,
    ensures
        draw_result(draw_result(screen, sprite, x0, y0), sprite, x0, y0) == screen,
        draw_collides(draw_result(screen, sprite, x0, y0), sprite, x0, y0) == (exists|
            px: int,
            py: int,
        |
            0 <= px < 64 && 0 <= py < 32 && sprite_hits(x0, y0, sprite.len() as int, px, py)
                && !screen[py * 64 + px] && sprite_bit_at(sprite, x0, y0, px, py)),
{
    let mid = draw_result(screen, sprite, x0, y0);
    assert(draw_result(mid, sprite, x0, y0) =~= screen);
    assert forall|px: int, py: int| 0 <= px < 64 && 0 <= py < 32 implies #[trigger] mid[py * 64
        + px] == pixel_after(screen, sprite, x0, y0, py * 64 + px) by {
        assert((py * 64 + px) % 64 == px && (py * 64 + px) / 64 == py) by (nonlinear_arith)
            requires
                0 <= px < 64,
                0 <= py < 32,
        ;
        assert(0 <= py * 64 + px < PIXEL_COUNT) by (nonlinear_arith)
            requires
                0 <= px < 64,
                0 <= py < 32,
        ;
    }
}

/// Whether pixel `idx` has already been composited once rows `0..r` are
/// done in full and columns `0..c` of row `r` are done.
spec fn done_at(x0: int, y0: int, r: int, c: int, idx: int) -> bool {
    let px = idx % 64;
    let py = idx / 64;
    col_off(x0, px) < 8 && (row_off(y0, py) < r || (row_off(y0, py) == r && col_off(x0, px) < c))
}

/// Whether some already-composited pixel was erased.
spec fn collides_so_far(
    screen: Seq<bool>,
    sprite: Seq<u8>,
    x0: int,
    y0: int,
    r: int,
    c: int,
) -> bool {
    exists|px: int, py: int|
        0 <= px < 64 && 0 <= py < 32 && done_at(x0, y0, r, c, py * 64 + px)
            && screen[py * 64 + px] && sprite_bit_at(sprite, x0, y0, px, py)
}

/// A sprite: up to 15 rows of 8 pixels, one byte per row, leftmost pixel in
/// the most significant bit.
pub struct Sprite<'a> {
    bytes: &'a [u8],
}

/// Whether a draw turned some previously lit pixel off.
#[derive(PartialEq, Eq, Structural)]
pub enum Collision {
    True,
    False,
}

impl<'a> Sprite<'a> {
    /// A sprite never exceeds 15 rows.
    pub closed spec fn wf(&self) -> bool {
        self.bytes@.len() <= 15
    }

    /// The sprite's row bytes.
    pub closed spec fn rows(&self) -> Seq<u8> {
        self.bytes@
    }

    pub fn new(bytes: &'a [u8]) -> (s: Sprite<'a>)
        requires
            bytes@.len() <= 15,
        ensures
            s.wf(),
            s.rows() == bytes@,
    {
        Sprite { bytes }
    }

    /// Composite the sprite at `(x mod 64, y mod 32)` and report whether any
    /// lit pixel was erased.
    pub fn draw(&self, x: usize, y: usize, display: &mut Display) -> (collision: Collision)
        requires
            self.wf(),
            old(display).wf(),
        ensures
            final(display).wf(),
            final(display).memory@ == draw_result(
                old(display).memory@,
                self.rows(),
                (x % 64) as int,
                (y % 32) as int,
            ),
            (collision == Collision::True) == draw_collides(
                old(display).memory@,
                self.rows(),
                (x % 64) as int,
                (y % 32) as int,
            ),
    {
        broadcast use vstd::arithmetic::div_mod::lemma_fundamental_div_mod;
        broadcast use vstd::arithmetic::div_mod::lemma_mod_bound;

        let x0 = x % 64;
        let y0 = y % 32;
        let ghost screen0 = display.memory@;
        let ghost sp = self.bytes@;
        let rows = self.bytes.len();

        let mut collision = Collision::False;
        let mut r: usize = 0;
        while r < rows
            invariant
                display.wf(),
                x0 < 64,
                y0 < 32,
                r <= rows,
                rows == sp.len(),
                rows <= 15,
                sp == self.bytes@,
                screen0.len() == PIXEL_COUNT,
                forall|idx: int|
                    0 <= idx < PIXEL_COUNT ==> #[trigger] display.memory@[idx] == (if done_at(
                        x0 as int,
                        y0 as int,
                        r as int,
                        0,
                        idx,
                    ) {
                        screen0[idx] ^ sprite_bit_at(sp, x0 as int, y0 as int, idx % 64, idx / 64)
                    } else {
                        screen0[idx]
                    }),
                (collision == Collision::True) == collides_so_far(
                    screen0,
                    sp,
                    x0 as int,
                    y0 as int,
                    r as int,
                    0,
                ),
            decreases rows - r,
        {
            let byte = self.bytes[r];
            let mut dy = y0 + r;
            if dy >= 32 {
                dy = dy - 32;
            }
            assert(row_off(y0 as int, dy as int) == r);

            let pixels = self.to_pixels(byte);
            let mut c: usize = 0;
            while c < 8
                invariant
                    display.wf(),
                    x0 < 64,
                    y0 < 32,
                    r < rows,
                    rows == sp.len(),
                    rows <= 15,
                    sp == self.bytes@,
                    screen0.len() == PIXEL_COUNT,
                    c <= 8,
                    dy < 32,
                    row_off(y0 as int, dy as int) == r,
                    pixels@.len() == 8,
                    forall|k: int| 0 <= k < 8 ==> pixels@[k] == sprite_bit(sp[r as int], k),
                    forall|idx: int|
                        0 <= idx < PIXEL_COUNT ==> #[trigger] display.memory@[idx] == (if done_at(
                            x0 as int,
                            y0 as int,
                            r as int,
                            c as int,
                            idx,
                        ) {
                            screen0[idx] ^ sprite_bit_at(
                                sp,
                                x0 as int,
                                y0 as int,
                                idx % 64,
                                idx / 64,
                            )
                        } else {
                            screen0[idx]
                        }),
                    (collision == Collision::True) == collides_so_far(
                        screen0,
                        sp,
                        x0 as int,
                        y0 as int,
                        r as int,
                        c as int,
                    ),
                decreases 8 - c,
            {
                let mut dx = x0 + c;
                if dx >= 64 {
                    dx = dx - 64;
                }
                assert(col_off(x0 as int, dx as int) == c);
                let ghost u = dy * 64 + dx;
                assert(u % 64 == dx && u / 64 == dy) by (nonlinear_arith)
                    requires
                        u == dy * 64 + dx,
                        dx < 64,
                        dy < 32,
                ;

                let erased = display.set(dx, dy, pixels[c]);
                if erased {
                    collision = Collision::True;
                    assert(collides_so_far(
                        screen0,
                        sp,
                        x0 as int,
                        y0 as int,
                        r as int,
                        c + 1,
                    )) by {
                        assert(done_at(x0 as int, y0 as int, r as int, c + 1, u));
                        assert(screen0[u] && sprite_bit_at(
                            sp,
                            x0 as int,
                            y0 as int,
                            dx as int,
                            dy as int,
                        ));
                    }
                } else {
                    assert(collides_so_far(screen0, sp, x0 as int, y0 as int, r as int, c + 1)
                        == collides_so_far(screen0, sp, x0 as int, y0 as int, r as int, c as int))
                        by {
                        if collides_so_far(screen0, sp, x0 as int, y0 as int, r as int, c + 1) {
                            let (px, py) = choose|px: int, py: int|
                                0 <= px < 64 && 0 <= py < 32 && done_at(
                                    x0 as int,
                                    y0 as int,
                                    r as int,
                                    c + 1,
                                    py * 64 + px,
                                ) && screen0[py * 64 + px] && sprite_bit_at(
                                    sp,
                                    x0 as int,
                                    y0 as int,
                                    px,
                                    py,
                                );
                            assert((py * 64 + px) % 64 == px && (py * 64 + px) / 64 == py)
                                by (nonlinear_arith)
                                requires
                                    0 <= px < 64,
                                    0 <= py < 32,
                            ;
                            if px == dx && py == dy {
                            } else {
                                assert(done_at(x0 as int, y0 as int, r as int, c as int, py * 64
                                    + px));
                            }
                        }
                    }
                }
                c = c + 1;
            }
            r = r + 1;
            assert forall|idx: int| 0 <= idx < PIXEL_COUNT implies done_at(
                x0 as int,
                y0 as int,
                r as int,
                0,
                idx,
            ) == done_at(x0 as int, y0 as int, (r - 1) as int, 8, idx) by {}
            assert(collides_so_far(screen0, sp, x0 as int, y0 as int, r as int, 0)
                == collides_so_far(screen0, sp, x0 as int, y0 as int, (r - 1) as int, 8)) by {
                if collides_so_far(screen0, sp, x0 as int, y0 as int, r as int, 0) {
                    let (px, py) = choose|px: int, py: int|
                        0 <= px < 64 && 0 <= py < 32 && done_at(
                            x0 as int,
                            y0 as int,
                            r as int,
                            0,
                            py * 64 + px,
                        ) && screen0[py * 64 + px] && sprite_bit_at(sp, x0 as int, y0 as int, px, py);
                    assert(done_at(x0 as int, y0 as int, (r - 1) as int, 8, py * 64 + px));
                }
                if collides_so_far(screen0, sp, x0 as int, y0 as int, (r - 1) as int, 8) {
                    let (px, py) = choose|px: int, py: int|
                        0 <= px < 64 && 0 <= py < 32 && done_at(
                            x0 as int,
                            y0 as int,
                            (r - 1) as int,
                            8,
                            py * 64 + px,
                        ) && screen0[py * 64 + px] && sprite_bit_at(sp, x0 as int, y0 as int, px, py);
                    assert(done_at(x0 as int, y0 as int, r as int, 0, py * 64 + px));
                }
            }
        }

        proof {
            assert(display.memory@ =~= draw_result(screen0, sp, x0 as int, y0 as int));
            assert((collision == Collision::True) == draw_collides(
                screen0,
                sp,
                x0 as int,
                y0 as int,
            )) by {
                if collides_so_far(screen0, sp, x0 as int, y0 as int, rows as int, 0) {
                    let (px, py) = choose|px: int, py: int|
                        0 <= px < 64 && 0 <= py < 32 && done_at(
                            x0 as int,
                            y0 as int,
                            rows as int,
                            0,
                            py * 64 + px,
                        ) && screen0[py * 64 + px] && sprite_bit_at(sp, x0 as int, y0 as int, px, py);
                    assert((py * 64 + px) % 64 == px && (py * 64 + px) / 64 == py)
                        by (nonlinear_arith)
                        requires
                            0 <= px < 64,
                            0 <= py < 32,
                    ;
                    assert(sprite_hits(x0 as int, y0 as int, sp.len() as int, px, py));
                }
                if draw_collides(screen0, sp, x0 as int, y0 as int) {
                    let (px, py) = choose|px: int, py: int|
                        0 <= px < 64 && 0 <= py < 32 && sprite_hits(
                            x0 as int,
                            y0 as int,
                            sp.len() as int,
                            px,
                            py,
                        ) && screen0[py * 64 + px] && sprite_bit_at(sp, x0 as int, y0 as int, px, py);
                    assert((py * 64 + px) % 64 == px && (py * 64 + px) / 64 == py)
                        by (nonlinear_arith)
                        requires
                            0 <= px < 64,
                            0 <= py < 32,
                    ;
                    assert(done_at(x0 as int, y0 as int, rows as int, 0, py * 64 + px));
                }
            }
        }
        collision
    }

    /// Expand a sprite row byte into its 8 pixels, leftmost first.
    fn to_pixels(&self, byte: u8) -> (pixels: Vec<bool>)
        ensures
            pixels@.len() == 8,
            forall|c: int| 0 <= c < 8 ==> pixels@[c] == sprite_bit(byte, c),
    {
        let mut pixels: Vec<bool> = Vec::new();
        let mut c: usize = 0;
        while c < 8
            invariant
                c <= 8,
                pixels@.len() == c,
                forall|k: int| 0 <= k < c ==> pixels@[k] == sprite_bit(byte, k),
            decreases 8 - c,
        {
            let shift: u8 = (7 - c) as u8;
            pixels.push((byte >> shift) & 1 == 1);
            c = c + 1;
        }
        pixels
    }
}

} // verus!
