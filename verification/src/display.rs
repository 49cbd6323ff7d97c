//! The monochrome framebuffer: 64 x 32 pixels, row-major, with XOR sprite
//! compositing, coordinate wraparound and collision detection.

use vstd::prelude::*;
use vstd::arithmetic::div_mod::{
    lemma_add_mod_noop, lemma_mod_add_multiples_vanish, lemma_mod_equivalence, lemma_small_mod,
};

verus! {

/// Width of the display in pixels.
pub const WIDTH: usize = 64;

/// Height of the display in pixels.
pub const HEIGHT: usize = 32;

/// Number of pixels in the framebuffer (`WIDTH * HEIGHT`).
pub const PIXEL_COUNT: usize = 2048;

/// Index into the row-major pixel buffer of the pixel that row `r`, column
/// `c` of a sprite drawn at `(x, y)` lands on, with both coordinates wrapping.
pub open spec fn pix_index(x: int, y: int, r: int, c: int) -> int {
    ((y + r) % 32) * 64 + ((x + c) % 64)
}

/// Whether column `c` (0 = leftmost, most-significant bit) of sprite row `r`
/// is set.
pub open spec fn sprite_bit(sprite: Seq<u8>, r: int, c: int) -> bool {
    sprite[r] >> ((7 - c) as u8) & 1u8 == 1u8
}

/// Whether drawing `sprite` at `(x, y)` toggles the pixel at buffer index `p`.
pub open spec fn flips(x: int, y: int, sprite: Seq<u8>, p: int) -> bool {
    exists|r: int, c: int|
        0 <= r < sprite.len() && 0 <= c < 8 && p == pix_index(x, y, r, c) && sprite_bit(
            sprite,
            r,
            c,
        )
}

/// The pixel buffer after drawing `sprite` at `(x, y)`: every targeted pixel
/// with a set sprite bit is XOR-flipped, every other pixel is unchanged.
pub open spec fn draw_result(pixels: Seq<bool>, x: int, y: int, sprite: Seq<u8>) -> Seq<bool> {
    Seq::new(pixels.len(), |p: int| pixels[p] != flips(x, y, sprite, p))
}

/// Whether drawing `sprite` at `(x, y)` turns at least one lit pixel off.
pub open spec fn draw_collision(pixels: Seq<bool>, x: int, y: int, sprite: Seq<u8>) -> bool {
    exists|p: int| 0 <= p < pixels.len() && pixels[p] && flips(x, y, sprite, p)
}

/// Whether drawing `sprite` at `(x, y)` toggles the pixel at buffer index
/// `p` using only the sprite cells that come strictly before row `r_lim`,
/// column `c_lim` in drawing order. Tracks partial progress through a draw.
spec fn flips_before(x: int, y: int, sprite: Seq<u8>, p: int, r_lim: int, c_lim: int) -> bool {
    exists|r: int, c: int|
        0 <= r < sprite.len() && 0 <= c < 8 && (r < r_lim || (r == r_lim && c < c_lim)) && p
            == pix_index(x, y, r, c) && sprite_bit(sprite, r, c)
}

/// If `base + a` and `base + b` agree modulo `m` and both offsets lie in
/// `[0, m)`, the offsets are equal: one sprite cell never lands on the same
/// wrapped coordinate as another in the same row (or column).
proof fn lemma_wrap_mod_inj(base: int, a: int, b: int, m: int)
    requires
        0 < m,
        0 <= a < m,
        0 <= b < m,
        (base + a) % m == (base + b) % m,
    ensures
        a == b,
{
    lemma_mod_equivalence(base + a, base + b, m);
    assert((a - b) % m == 0);
    if a > b {
        lemma_small_mod((a - b) as nat, m as nat);
    } else if a < b {
        lemma_mod_add_multiples_vanish(a - b, m);
        lemma_small_mod((a - b + m) as nat, m as nat);
    }
}

/// Distinct cells of a sprite of at most 32 rows land on distinct pixels,
/// even with wraparound.
proof fn lemma_pix_index_injective(x: int, y: int, r1: int, c1: int, r2: int, c2: int)
    requires
        x >= 0,
        y >= 0,
        0 <= r1 < 32,
        0 <= r2 < 32,
        0 <= c1 < 8,
        0 <= c2 < 8,
        pix_index(x, y, r1, c1) == pix_index(x, y, r2, c2),
    ensures
        r1 == r2,
        c1 == c2,
{
    let py1 = (y + r1) % 32;
    let px1 = (x + c1) % 64;
    let py2 = (y + r2) % 32;
    let px2 = (x + c2) % 64;
    assert(0 <= py1 < 32 && 0 <= py2 < 32 && 0 <= px1 < 64 && 0 <= px2 < 64);
    assert(py1 * 64 + px1 == py2 * 64 + px2);
    assert(py1 == py2 && px1 == px2);
    lemma_wrap_mod_inj(y, r1, r2, 32);
    lemma_wrap_mod_inj(x, c1, c2, 64);
}

/// Law: XOR sprite drawing is self-inverse. Drawing the same sprite twice
/// at the same coordinates restores the original pixel state, and the
/// second draw reports a collision exactly when the first draw turned some
/// pixel on.
pub proof fn lemma_draw_twice(pixels: Seq<bool>, x: int, y: int, sprite: Seq<u8>)
    ensures
        draw_result(draw_result(pixels, x, y, sprite), x, y, sprite) == pixels,
        draw_collision(draw_result(pixels, x, y, sprite), x, y, sprite) == (exists|p: int|
            0 <= p < pixels.len() && !pixels[p] && flips(x, y, sprite, p)),
{
    let once = draw_result(pixels, x, y, sprite);
    assert(draw_result(once, x, y, sprite) =~= pixels);
    if draw_collision(once, x, y, sprite) {
        let p = choose|p: int| 0 <= p < once.len() && once[p] && flips(x, y, sprite, p);
        assert(0 <= p < pixels.len() && !pixels[p] && flips(x, y, sprite, p));
    }
    if exists|p: int| 0 <= p < pixels.len() && !pixels[p] && flips(x, y, sprite, p) {
        let p = choose|p: int| 0 <= p < pixels.len() && !pixels[p] && flips(x, y, sprite, p);
        assert(0 <= p < once.len() && once[p] && flips(x, y, sprite, p));
    }
}

/// The framebuffer. `pixels[x + WIDTH * y]` is true iff the pixel at
/// `(x, y)` is lit.
pub struct Display {
    pub pixels: Vec<bool>,
}

impl View for Display {
    type V = Seq<bool>;

    open spec fn view(&self) -> Seq<bool> {
        self.pixels@
    }
}

impl Display {
    /// The buffer always holds exactly `WIDTH * HEIGHT` pixels.
    pub open spec fn wf(&self) -> bool {
        self@.len() == 2048
    }

    /// A fresh display with every pixel off.
    pub fn new() -> (d: Display)
        ensures
            d.wf(),
            forall|p: int| 0 <= p < 2048 ==> !d@[p],
    {
        let mut pixels: Vec<bool> = Vec::new();
        let mut i: usize = 0;
        while i < PIXEL_COUNT
            invariant
                i <= 2048,
                pixels@.len() == i,
                forall|p: int| 0 <= p < i ==> !pixels@[p],
            decreases 2048 - i,
        {
            pixels.push(false);
            i = i + 1;
        }
        Display { pixels }
    }

    /// Turn every pixel off.
    pub fn cls(&mut self)
        requires
            old(self).wf(),
        ensures
            final(self).wf(),
            forall|p: int| 0 <= p < 2048 ==> !final(self)@[p],
    {
        let mut i: usize = 0;
        while i < PIXEL_COUNT
            invariant
                i <= 2048,
                self.pixels@.len() == 2048,
                forall|p: int| 0 <= p < i ==> !self.pixels@[p],
            decreases 2048 - i,
        {
            self.pixels.set(i, false);
            i = i + 1;
        }
    }

    /// Toggle the pixel at `(x, y)`. The coordinates must already be in
    /// range; sprite drawing wraps them before calling this.
    pub fn swap_pixel(&mut self, x: usize, y: usize)
        requires
            old(self).wf(),
            x < 64,
            y < 32,
        ensures
            final(self).wf(),
            final(self)@ == old(self)@.update(y * 64 + x, !old(self)@[y * 64 + x]),
    {
        let idx: usize = x + WIDTH * y;
        let cur: bool = self.pixels[idx];
        self.pixels.set(idx, !cur);
    }

    /// XOR-draw `sprite` (one byte per row, most-significant bit leftmost)
    /// at `(x, y)`, wrapping both coordinates, and report whether any lit
    /// pixel was turned off.
    #[verifier::rlimit(80)]
    pub fn draw(&mut self, x: usize, y: usize, sprite: &[u8]) -> (collision: bool)
        requires
            old(self).wf(),
            sprite@.len() <= 15,
        ensures
            final(self).wf(),
            final(self)@ == draw_result(old(self)@, x as int, y as int, sprite@),
            collision == draw_collision(old(self)@, x as int, y as int, sprite@),
    {
        let ghost gx = x as int;
        let ghost gy = y as int;
        let ghost gs = sprite@;
        let ghost p0 = self@;
        let x0: usize = x % WIDTH;
        let y0: usize = y % HEIGHT;
        let n: usize = sprite.len();
        let mut collision: bool = false;
        let mut r: usize = 0;
        while r < n
            invariant
                gs == sprite@,
                n == gs.len(),
                n <= 15,
                x0 == gx % 64,
                y0 == gy % 32,
                r <= n,
                self@.len() == 2048,
                p0.len() == 2048,
                forall|q: int|
                    0 <= q < 2048 ==> self@[q] == (p0[q] != flips_before(
                        gx,
                        gy,
                        gs,
                        q,
                        r as int,
                        0,
                    )),
                collision == exists|q: int|
                    0 <= q < 2048 && p0[q] && flips_before(gx, gy, gs, q, r as int, 0),
            decreases n - r,
        {
            let row: u8 = sprite[r];
            let mut c: usize = 0;
            while c < 8
                invariant
                    gs == sprite@,
                    n == gs.len(),
                    n <= 15,
                    x0 == gx % 64,
                    y0 == gy % 32,
                    r < n,
                    row == gs[r as int],
                    c <= 8,
                    self@.len() == 2048,
                    p0.len() == 2048,
                    forall|q: int|
                        0 <= q < 2048 ==> self@[q] == (p0[q] != flips_before(
                            gx,
                            gy,
                            gs,
                            q,
                            r as int,
                            c as int,
                        )),
                    collision == exists|q: int|
                        0 <= q < 2048 && p0[q] && flips_before(gx, gy, gs, q, r as int, c as int),
                decreases 8 - c,
            {
                if (row >> ((7 - c) as u8)) & 1u8 == 1u8 {
                    let px: usize = (x0 + c) % WIDTH;
                    let py: usize = (y0 + r) % HEIGHT;
                    let ghost p = pix_index(gx, gy, r as int, c as int);
                    proof {
                        lemma_small_mod(c as nat, 64);
                        lemma_add_mod_noop(gx, c as int, 64);
                        lemma_small_mod(r as nat, 32);
                        lemma_add_mod_noop(gy, r as int, 32);
                        assert(px == (gx + c) % 64);
                        assert(py == (gy + r) % 32);
                        assert(p == py * 64 + px);
                        assert(sprite_bit(gs, r as int, c as int));
                        // This cell's pixel has not been toggled by any
                        // earlier cell, so its current state is its original
                        // state.
                        if flips_before(gx, gy, gs, p, r as int, c as int) {
                            let (r2, c2) = choose|r2: int, c2: int|
                                0 <= r2 < gs.len() && 0 <= c2 < 8 && (r2 < r as int || (r2
                                    == r as int && c2 < c as int)) && p == pix_index(
                                    gx,
                                    gy,
                                    r2,
                                    c2,
                                ) && sprite_bit(gs, r2, c2);
                            lemma_pix_index_injective(gx, gy, r2, c2, r as int, c as int);
                            assert(false);
                        }
                    }
                    let cur: bool = self.pixel_at(px, py);
                    self.swap_pixel(px, py);
                    if cur {
                        collision = true;
                    }
                    proof {
                        assert(cur == p0[p]);
                        assert(flips_before(gx, gy, gs, p, r as int, c as int + 1)) by {
                            assert(0 <= r < gs.len() && 0 <= c < 8 && p == pix_index(
                                gx,
                                gy,
                                r as int,
                                c as int,
                            ) && sprite_bit(gs, r as int, c as int));
                        }
                        assert forall|q: int| 0 <= q < 2048 && q != p implies flips_before(
                            gx,
                            gy,
                            gs,
                            q,
                            r as int,
                            c as int + 1,
                        ) == flips_before(gx, gy, gs, q, r as int, c as int) by {
                            if flips_before(gx, gy, gs, q, r as int, c as int + 1) {
                                let (r2, c2) = choose|r2: int, c2: int|
                                    0 <= r2 < gs.len() && 0 <= c2 < 8 && (r2 < r as int || (r2
                                        == r as int && c2 < c as int + 1)) && q == pix_index(
                                        gx,
                                        gy,
                                        r2,
                                        c2,
                                    ) && sprite_bit(gs, r2, c2);
                                if r2 == r as int && c2 == c as int {
                                    assert(q == p);
                                } else {
                                    assert(flips_before(gx, gy, gs, q, r as int, c as int));
                                }
                            }
                        }
                        if collision {
                            if cur {
                                assert(0 <= p < 2048 && p0[p] && flips_before(
                                    gx,
                                    gy,
                                    gs,
                                    p,
                                    r as int,
                                    c as int + 1,
                                ));
                            } else {
                                let q = choose|q: int|
                                    0 <= q < 2048 && p0[q] && flips_before(
                                        gx,
                                        gy,
                                        gs,
                                        q,
                                        r as int,
                                        c as int,
                                    );
                                assert(flips_before(gx, gy, gs, q, r as int, c as int + 1));
                            }
                        } else {
                            assert forall|q: int|
                                0 <= q < 2048 && p0[q] implies !flips_before(
                                gx,
                                gy,
                                gs,
                                q,
                                r as int,
                                c as int + 1,
                            ) by {
                                if flips_before(gx, gy, gs, q, r as int, c as int + 1) {
                                    assert(q != p);
                                    assert(flips_before(gx, gy, gs, q, r as int, c as int));
                                }
                            }
                        }
                    }
                } else {
                    proof {
                        assert forall|q: int| 0 <= q < 2048 implies flips_before(
                            gx,
                            gy,
                            gs,
                            q,
                            r as int,
                            c as int + 1,
                        ) == flips_before(gx, gy, gs, q, r as int, c as int) by {
                            if flips_before(gx, gy, gs, q, r as int, c as int + 1) {
                                let (r2, c2) = choose|r2: int, c2: int|
                                    0 <= r2 < gs.len() && 0 <= c2 < 8 && (r2 < r as int || (r2
                                        == r as int && c2 < c as int + 1)) && q == pix_index(
                                        gx,
                                        gy,
                                        r2,
                                        c2,
                                    ) && sprite_bit(gs, r2, c2);
                                if r2 == r as int && c2 == c as int {
                                    assert(!sprite_bit(gs, r as int, c as int));
                                    assert(false);
                                } else {
                                    assert(flips_before(gx, gy, gs, q, r as int, c as int));
                                }
                            }
                        }
                    }
                }
                c = c + 1;
            }
            proof {
                assert forall|q: int| 0 <= q < 2048 implies flips_before(
                    gx,
                    gy,
                    gs,
                    q,
                    r as int + 1,
                    0,
                ) == flips_before(gx, gy, gs, q, r as int, 8) by {
                    if flips_before(gx, gy, gs, q, r as int + 1, 0) {
                        let (r2, c2) = choose|r2: int, c2: int|
                            0 <= r2 < gs.len() && 0 <= c2 < 8 && (r2 < r as int + 1 || (r2
                                == r as int + 1 && c2 < 0)) && q == pix_index(gx, gy, r2, c2)
                                && sprite_bit(gs, r2, c2);
                        assert(r2 < r as int || (r2 == r as int && c2 < 8));
                        assert(flips_before(gx, gy, gs, q, r as int, 8));
                    }
                    if flips_before(gx, gy, gs, q, r as int, 8) {
                        let (r2, c2) = choose|r2: int, c2: int|
                            0 <= r2 < gs.len() && 0 <= c2 < 8 && (r2 < r as int || (r2 == r as int
                                && c2 < 8)) && q == pix_index(gx, gy, r2, c2) && sprite_bit(
                                gs,
                                r2,
                                c2,
                            );
                        assert(r2 < r as int + 1);
                        assert(flips_before(gx, gy, gs, q, r as int + 1, 0));
                    }
                }
            }
            r = r + 1;
        }
        proof {
            assert forall|q: int| 0 <= q < 2048 implies flips_before(gx, gy, gs, q, n as int, 0)
                == flips(gx, gy, gs, q) by {
                if flips_before(gx, gy, gs, q, n as int, 0) {
                    let (r2, c2) = choose|r2: int, c2: int|
                        0 <= r2 < gs.len() && 0 <= c2 < 8 && (r2 < n as int || (r2 == n as int
                            && c2 < 0)) && q == pix_index(gx, gy, r2, c2) && sprite_bit(
                            gs,
                            r2,
                            c2,
                        );
                    assert(flips(gx, gy, gs, q));
                }
                if flips(gx, gy, gs, q) {
                    let (r2, c2) = choose|r2: int, c2: int|
                        0 <= r2 < gs.len() && 0 <= c2 < 8 && q == pix_index(gx, gy, r2, c2)
                            && sprite_bit(gs, r2, c2);
                    assert(flips_before(gx, gy, gs, q, n as int, 0));
                }
            }
            assert(self@ =~= draw_result(p0, gx, gy, gs));
            if collision {
                let q = choose|q: int|
                    0 <= q < 2048 && p0[q] && flips_before(gx, gy, gs, q, n as int, 0);
                assert(p0[q] && flips(gx, gy, gs, q));
            } else {
                assert forall|q: int| 0 <= q < p0.len() && p0[q] implies !flips(
                    gx,
                    gy,
                    gs,
                    q,
                ) by {
                    if flips(gx, gy, gs, q) {
                        assert(flips_before(gx, gy, gs, q, n as int, 0));
                    }
                }
            }
        }
        collision
    }

    /// Read the pixel at `(x, y)`, for the rendering backend and for tests.
    pub fn pixel_at(&self, x: usize, y: usize) -> (r: bool)
        requires
            self.wf(),
            x < 64,
            y < 32,
        ensures
            r == self@[y * 64 + x],
    {
        self.pixels[x + WIDTH * y]
    }
}

} // verus!
