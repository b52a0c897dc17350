use vstd::prelude::*;
use vstd::arithmetic::div_mod::{
    lemma_add_mod_noop_right, lemma_fundamental_div_mod, lemma_fundamental_div_mod_converse,
};

verus! {

/// Rows of the display.
pub const SCREEN_HEIGHT: usize = 32;

/// Columns of the display.
pub const SCREEN_WIDTH: usize = 64;

/// Pixels of the display.
pub const NUM_PIXELS: usize = SCREEN_HEIGHT * SCREEN_WIDTH;

/// Pixels per sprite row.
pub const SPRITE_WIDTH: usize = 8;

/// Index in the row-major pixel array of the point at column `x`, row `y`,
/// after wrapping both around the display's edges.
pub open spec fn pixel_index(x: int, y: int) -> int {
    (y % SCREEN_HEIGHT as int) * SCREEN_WIDTH as int + x % SCREEN_WIDTH as int
}

/// The pixel that the `k`-th entry of a sprite drawn at `(x, y)` lands on.
pub open spec fn sprite_target(x: int, y: int, k: int) -> int {
    pixel_index(x + k % SPRITE_WIDTH as int, y + k / SPRITE_WIDTH as int)
}

/// How many entries of `sprite` are drawn: its whole rows.
pub open spec fn drawn_len(sprite: Seq<u8>) -> int {
    (sprite.len() / SPRITE_WIDTH as nat) as int * SPRITE_WIDTH as int
}

/// The XOR of the first `k` sprite entries that land on pixel `pos`.
pub open spec fn xor_onto(sprite: Seq<u8>, x: int, y: int, pos: int, k: int) -> u8
    decreases k,
{
    if k <= 0 {
        0
    } else if sprite_target(x, y, k - 1) == pos {
        xor_onto(sprite, x, y, pos, k - 1) ^ sprite[k - 1]
    } else {
        xor_onto(sprite, x, y, pos, k - 1)
    }
}

/// The pixels after the first `k` entries of `sprite` are XORed in at `(x, y)`.
pub open spec fn drawn_upto(pixels: Seq<u8>, sprite: Seq<u8>, x: int, y: int, k: int) -> Seq<u8> {
    Seq::new(pixels.len(), |pos: int| pixels[pos] ^ xor_onto(sprite, x, y, pos, k))
}

/// The pixels after the whole of `sprite` is XORed in at `(x, y)`.
pub open spec fn drawn(pixels: Seq<u8>, sprite: Seq<u8>, x: int, y: int) -> Seq<u8> {
    drawn_upto(pixels, sprite, x, y, drawn_len(sprite))
}

/// The OR, over the first `k` sprite entries, of each entry AND the pixel
/// it lands on as that pixel is just before the entry is drawn.
pub open spec fn collision_upto(pixels: Seq<u8>, sprite: Seq<u8>, x: int, y: int, k: int) -> u8
    decreases k,
{
    if k <= 0 {
        0
    } else {
        collision_upto(pixels, sprite, x, y, k - 1) | (sprite[k - 1] & drawn_upto(
            pixels,
            sprite,
            x,
            y,
            k - 1,
        )[sprite_target(x, y, k - 1)])
    }
}

/// What drawing the whole of `sprite` at `(x, y)` reports.
pub open spec fn collision(pixels: Seq<u8>, sprite: Seq<u8>, x: int, y: int) -> u8 {
    collision_upto(pixels, sprite, x, y, drawn_len(sprite))
}

/// `NUM_PIXELS` unset pixels.
pub open spec fn blank() -> Seq<u8> {
    Seq::new(NUM_PIXELS as nat, |i: int| 0u8)
}

/// The display surface that the interpreter draws on.
pub trait Screen {
    /// The pixels, row by row.
    spec fn frame(&self) -> Seq<u8>;

    /// Every display holds exactly `NUM_PIXELS` pixels.
    proof fn lemma_frame_len(&self)
        ensures
            self.frame().len() == NUM_PIXELS,
    ;

    /// Unsets every pixel.
    fn clear(&mut self)
        ensures
            final(self).frame() == blank(),
    ;

    /// XORs `sprite`, 8 entries per row, onto the display with its top left
    /// corner at `(x, y)`, wrapping around the edges; reports whether a set
    /// pixel was hit.
    fn draw_sprite(&mut self, x: usize, y: usize, sprite: &[u8]) -> (r: u8)
        ensures
            final(self).frame() == drawn(old(self).frame(), sprite@, x as int, y as int),
            r == collision(old(self).frame(), sprite@, x as int, y as int),
    ;
}

/// A display held as one byte per pixel.
pub struct PixelScreen {
    pixels: [u8; NUM_PIXELS],
}

impl PixelScreen {
    pub closed spec fn view(&self) -> Seq<u8> {
        self.pixels@
    }

    /// A display with every pixel unset.
    pub fn new() -> (r: Self)
        ensures
            r@ == blank(),
    {
        let r = PixelScreen { pixels: [0u8; NUM_PIXELS] };
        assert(r@ =~= blank());
        r
    }

    /// XORs `p` into the pixel at `(x, y)`, wrapped around the edges, and
    /// returns `p` AND that pixel's former value.
    pub fn draw_pixel(&mut self, p: u8, x: usize, y: usize) -> (r: u8)
        ensures
            r == p & old(self)@[pixel_index(x as int, y as int)],
            final(self)@ == old(self)@.update(
                pixel_index(x as int, y as int),
                old(self)@[pixel_index(x as int, y as int)] ^ p,
            ),
    {
        let x = x % SCREEN_WIDTH;
        let y = y % SCREEN_HEIGHT;
        let pos = y * SCREEN_WIDTH + x;
        let old_p = self.pixels[pos];
        self.pixels[pos] = old_p ^ p;
        p & old_p
    }

    /// The pixels, row by row.
    pub fn pixels(&self) -> (r: &[u8])
        ensures
            r@ == self@,
    {
        self.pixels.as_slice()
    }
}

/// Every point lands on a pixel of the display.
pub proof fn lemma_pixel_index_bounds(x: int, y: int)
    ensures
        0 <= pixel_index(x, y) < NUM_PIXELS,
{
    let r = y % SCREEN_HEIGHT as int;
    let c = x % SCREEN_WIDTH as int;
    assert(0 <= r < 32 && 0 <= c < 64);
    assert(0 <= r * 64 + c < 2048) by (nonlinear_arith)
        requires
            0 <= r < 32,
            0 <= c < 64,
    ;
}

/// Drawing no entry leaves the pixels as they are.
proof fn lemma_drawn_none(pixels: Seq<u8>, sprite: Seq<u8>, x: int, y: int)
    ensures
        drawn_upto(pixels, sprite, x, y, 0) == pixels,
{
    assert forall|pos: int| 0 <= pos < pixels.len() implies drawn_upto(pixels, sprite, x, y, 0)[pos]
        == pixels[pos] by {
        let a = pixels[pos];
        assert(a ^ 0 == a) by (bit_vector);
    }
    assert(drawn_upto(pixels, sprite, x, y, 0) =~= pixels);
}

/// Drawing one more sprite entry changes only the pixel that it lands on.
proof fn lemma_drawn_step(pixels: Seq<u8>, sprite: Seq<u8>, x: int, y: int, k: int)
    requires
        0 <= k < sprite.len(),
        pixels.len() == NUM_PIXELS,
    ensures
        drawn_upto(pixels, sprite, x, y, k + 1) == drawn_upto(pixels, sprite, x, y, k).update(
            sprite_target(x, y, k),
            drawn_upto(pixels, sprite, x, y, k)[sprite_target(x, y, k)] ^ sprite[k],
        ),
{
    let t = sprite_target(x, y, k);
    lemma_pixel_index_bounds(x + k % SPRITE_WIDTH as int, y + k / SPRITE_WIDTH as int);
    let before = drawn_upto(pixels, sprite, x, y, k);
    let after = drawn_upto(pixels, sprite, x, y, k + 1);
    assert forall|pos: int| 0 <= pos < pixels.len() implies after[pos] == before.update(
        t,
        before[t] ^ sprite[k],
    )[pos] by {
        if pos == t {
            let a = pixels[pos];
            let b = xor_onto(sprite, x, y, pos, k);
            let c = sprite[k];
            assert(a ^ (b ^ c) == (a ^ b) ^ c) by (bit_vector);
        }
    }
    assert(after =~= before.update(t, before[t] ^ sprite[k]));
}

impl Screen for PixelScreen {
    open spec fn frame(&self) -> Seq<u8> {
        self@
    }

    proof fn lemma_frame_len(&self) {
    }

    fn clear(&mut self) {
        let mut i: usize = 0;
        while i < NUM_PIXELS
            invariant
                i <= NUM_PIXELS,
                self@.len() == NUM_PIXELS,
                forall|j: int| 0 <= j < i ==> self@[j] == 0,
            decreases NUM_PIXELS - i,
        {
            self.pixels[i] = 0;
            i = i + 1;
        }
        assert(self@ =~= blank());
    }

    fn draw_sprite(&mut self, x: usize, y: usize, sprite: &[u8]) -> (r: u8) {
        let ghost start = self@;
        let n = (sprite.len() / SPRITE_WIDTH) * SPRITE_WIDTH;
        let x0 = x % SCREEN_WIDTH;
        let y0 = y % SCREEN_HEIGHT;
        let mut hit: u8 = 0;
        let mut k: usize = 0;
        proof {
            lemma_drawn_none(start, sprite@, x as int, y as int);
        }
        while k < n
            invariant
                n == drawn_len(sprite@),
                n <= sprite@.len(),
                k <= n,
                x0 == x % SCREEN_WIDTH,
                y0 == y % SCREEN_HEIGHT,
                start.len() == NUM_PIXELS,
                self@ == drawn_upto(start, sprite@, x as int, y as int, k as int),
                hit == collision_upto(start, sprite@, x as int, y as int, k as int),
            decreases n - k,
        {
            let xx = k % SPRITE_WIDTH;
            let yy = k / SPRITE_WIDTH;
            proof {
                lemma_add_mod_noop_right(xx as int, x as int, SCREEN_WIDTH as int);
                lemma_add_mod_noop_right(yy as int, y as int, SCREEN_HEIGHT as int);
                assert(pixel_index((x0 + xx) as int, (y0 + yy) as int) == sprite_target(
                    x as int,
                    y as int,
                    k as int,
                ));
                lemma_drawn_step(start, sprite@, x as int, y as int, k as int);
            }
            let c = self.draw_pixel(sprite[k], x0 + xx, y0 + yy);
            hit = hit | c;
            k = k + 1;
        }
        hit
    }
}


/// Drawing a sprite twice at the same place gives back the display as it
/// was before the first draw.
pub proof fn lemma_sprite_twice_restores(pixels: Seq<u8>, sprite: Seq<u8>, x: int, y: int)
    ensures
        drawn(drawn(pixels, sprite, x, y), sprite, x, y) == pixels,
{
    let once = drawn(pixels, sprite, x, y);
    let twice = drawn(once, sprite, x, y);
    assert forall|pos: int| 0 <= pos < pixels.len() implies twice[pos] == pixels[pos] by {
        let a = pixels[pos];
        let b = xor_onto(sprite, x, y, pos, drawn_len(sprite));
        assert((a ^ b) ^ b == a) by (bit_vector);
    }
    assert(twice =~= pixels);
}

/// Two entries of a sprite of at most `SCREEN_HEIGHT` rows never land on
/// the same pixel.
proof fn lemma_targets_distinct(x: int, y: int, j: int, k: int)
    requires
        0 <= j < k < SCREEN_HEIGHT * SPRITE_WIDTH,
    ensures
        sprite_target(x, y, j) != sprite_target(x, y, k),
{
    let rj = (y + j / 8) % 32;
    let rk = (y + k / 8) % 32;
    let cj = (x + j % 8) % 64;
    let ck = (x + k % 8) % 64;
    if sprite_target(x, y, j) == sprite_target(x, y, k) {
        assert(0 <= cj < 64 && 0 <= ck < 64 && 0 <= rj < 32 && 0 <= rk < 32);
        lemma_fundamental_div_mod_converse(rj * 64 + cj, 64, rj, cj);
        lemma_fundamental_div_mod_converse(rk * 64 + ck, 64, rk, ck);
        lemma_same_residue(x, j % 8, k % 8, 64);
        lemma_same_residue(y, j / 8, k / 8, 32);
        assert(j == k) by (nonlinear_arith)
            requires
                j % 8 == k % 8,
                j / 8 == k / 8,
                j == 8 * (j / 8) + j % 8,
                k == 8 * (k / 8) + k % 8,
        ;
    }
}

/// Two offsets below `m` that give the same residue from the same base are
/// equal.
proof fn lemma_same_residue(base: int, a: int, b: int, m: int)
    requires
        0 <= a < m,
        0 <= b < m,
        (base + a) % m == (base + b) % m,
    ensures
        a == b,
{
    lemma_fundamental_div_mod(base + a, m);
    lemma_fundamental_div_mod(base + b, m);
    let qa = (base + a) / m;
    let qb = (base + b) / m;
    assert(a - b == (qa - qb) * m) by (nonlinear_arith)
        requires
            base + a == m * qa + (base + a) % m,
            base + b == m * qb + (base + b) % m,
            (base + a) % m == (base + b) % m,
    ;
    assert(a == b) by (nonlinear_arith)
        requires
            a - b == (qa - qb) * m,
            0 <= a < m,
            0 <= b < m,
    ;
}

/// In a sprite of at most `SCREEN_HEIGHT` rows no entry meets an earlier one.
proof fn lemma_no_earlier_overlap(sprite: Seq<u8>, x: int, y: int, k: int)
    requires
        0 <= k < SCREEN_HEIGHT * SPRITE_WIDTH,
    ensures
        forall|j: int| 0 <= j <= k ==> xor_onto(sprite, x, y, sprite_target(x, y, k), j) == 0,
{
    assert forall|j: int| 0 <= j <= k implies xor_onto(sprite, x, y, sprite_target(x, y, k), j)
        == 0 by {
        lemma_no_earlier_overlap_upto(sprite, x, y, k, j);
    }
}

/// No entry before the `j`-th lands where the `k`-th does.
proof fn lemma_no_earlier_overlap_upto(sprite: Seq<u8>, x: int, y: int, k: int, j: int)
    requires
        0 <= j <= k < SCREEN_HEIGHT * SPRITE_WIDTH,
    ensures
        xor_onto(sprite, x, y, sprite_target(x, y, k), j) == 0,
    decreases j,
{
    if j > 0 {
        lemma_no_earlier_overlap_upto(sprite, x, y, k, j - 1);
        lemma_targets_distinct(x, y, j - 1, k);
    }
}

/// For a sprite of at most `SCREEN_HEIGHT` rows, the collision report is
/// nonzero exactly when some entry of the sprite has a bit in common with
/// the pixel it lands on, as that pixel was before the draw.
pub proof fn lemma_collision_iff_set_pixel_hit(pixels: Seq<u8>, sprite: Seq<u8>, x: int, y: int)
    requires
        pixels.len() == NUM_PIXELS,
        sprite.len() <= SCREEN_HEIGHT * SPRITE_WIDTH,
    ensures
        collision(pixels, sprite, x, y) != 0 <==> exists|k: int|
            0 <= k < drawn_len(sprite) && #[trigger] (sprite[k] & pixels[sprite_target(x, y, k)]) != 0,
{
    let n = drawn_len(sprite);
    assert(n <= sprite.len()) by (nonlinear_arith)
        requires
            n == (sprite.len() / 8) as int * 8,
    ;
    lemma_collision_upto(pixels, sprite, x, y, n);
}

/// The collision report over the first `k` entries, for a sprite whose
/// entries land on distinct pixels.
proof fn lemma_collision_upto(pixels: Seq<u8>, sprite: Seq<u8>, x: int, y: int, k: int)
    requires
        pixels.len() == NUM_PIXELS,
        0 <= k <= sprite.len(),
        sprite.len() <= SCREEN_HEIGHT * SPRITE_WIDTH,
    ensures
        collision_upto(pixels, sprite, x, y, k) != 0 <==> exists|j: int|
            0 <= j < k && #[trigger] (sprite[j] & pixels[sprite_target(x, y, j)]) != 0,
    decreases k,
{
    if k > 0 {
        lemma_collision_upto(pixels, sprite, x, y, k - 1);
        let t = sprite_target(x, y, k - 1);
        lemma_pixel_index_bounds(x + (k - 1) % SPRITE_WIDTH as int, y + (k - 1) / SPRITE_WIDTH as int);
        lemma_no_earlier_overlap(sprite, x, y, k - 1);
        let a = pixels[t];
        assert(a ^ 0 == a) by (bit_vector);
        assert(drawn_upto(pixels, sprite, x, y, k - 1)[t] == a);
        let prev = collision_upto(pixels, sprite, x, y, k - 1);
        let cur = sprite[k - 1] & a;
        assert((prev | cur) != 0 <==> (prev != 0 || cur != 0)) by (bit_vector);
        if cur != 0 {
            assert(sprite[k - 1] & pixels[sprite_target(x, y, k - 1)] != 0);
        }
        assert forall|j: int| 0 <= j < k && #[trigger] (sprite[j] & pixels[sprite_target(x, y, j)]) != 0
            implies j < k - 1 || cur != 0 by {}
    }
}

} // verus!
