use vstd::prelude::*;
use vstd::arithmetic::div_mod::{
    lemma_add_mod_noop, lemma_fundamental_div_mod, lemma_fundamental_div_mod_converse,
    lemma_mod_bound, lemma_mod_multiples_vanish, lemma_small_mod,
};

verus! {

/// Width of the display in pixels.
pub const WIDTH: usize = 64;

/// Height of the display in pixels.
pub const HEIGHT: usize = 32;

/// Total number of pixels in the display.
pub const NUM_PIXELS: usize = 2048;

/// A well-formed screen holds one byte per pixel, each 0 or 1.
pub open spec fn screen_wf(s: Seq<u8>) -> bool {
    &&& s.len() == NUM_PIXELS
    &&& forall|p: int| 0 <= p < s.len() ==> s[p] <= 1
}

/// An all-dark screen.
pub open spec fn zero_screen() -> Seq<u8> {
    Seq::new(NUM_PIXELS as nat, |p: int| 0u8)
}

/// Bit `j` of a sprite row, counted from the most significant bit.
pub open spec fn sprite_bit(byte: u8, j: int) -> u8 {
    (byte >> ((7 - j) as u8)) & 1
}

/// Row-major index of the pixel that coordinates `(x, y)` land on after
/// wrapping around both screen edges.
pub open spec fn pix(x: int, y: int) -> int {
    (y % (HEIGHT as int)) * (WIDTH as int) + (x % (WIDTH as int))
}

/// How far column `col` lies to the right of column `x0`, counting wrap
/// around the right screen edge.
pub open spec fn col_offset(col: int, x0: int) -> int {
    if col >= x0 {
        col - x0
    } else {
        col + (WIDTH as int) - x0
    }
}

/// The screen after the first `k` bits (most significant first) of one sprite
/// row have been XOR-blitted at `(x, y)`, coordinates wrapping.
pub open spec fn blit_row_upto(s: Seq<u8>, byte: u8, x: int, y: int, k: int) -> Seq<u8> {
    Seq::new(
        s.len(),
        |p: int|
            {
                let row = p / (WIDTH as int);
                let col = p % (WIDTH as int);
                let j = col_offset(col, x % (WIDTH as int));
                if row == y % (HEIGHT as int) && j < k {
                    s[p] ^ sprite_bit(byte, j)
                } else {
                    s[p]
                }
            },
    )
}

/// The screen after one whole 8-bit sprite row has been XOR-blitted at
/// `(x, y)`, coordinates wrapping.
pub open spec fn blit_row(s: Seq<u8>, byte: u8, x: int, y: int) -> Seq<u8> {
    blit_row_upto(s, byte, x, y, 8)
}

/// Whether blitting row `byte` at `(x, y)` erases some lit pixel of `s`.
pub open spec fn row_collision(s: Seq<u8>, byte: u8, x: int, y: int) -> bool {
    exists|j: int| 0 <= j < 8 && sprite_bit(byte, j) == 1 && s[pix(x + j, y)] == 1
}

/// The pixel hit by bit `k` of a row blitted at `(x, y)`: where it lies,
/// and that its column offset from `x` recovers `k`.
pub proof fn lemma_pix_window(x: int, y: int, k: int)
    requires
        0 <= x,
        0 <= y,
        0 <= k < WIDTH,
    ensures
        ({
            let p = pix(x + k, y);
            &&& 0 <= p < NUM_PIXELS
            &&& p / (WIDTH as int) == y % (HEIGHT as int)
            &&& p % (WIDTH as int) == (x + k) % (WIDTH as int)
            &&& col_offset(p % (WIDTH as int), x % (WIDTH as int)) == k
        }),
{
    let w = WIDTH as int;
    let x0 = x % w;
    let y0 = y % (HEIGHT as int);
    lemma_mod_bound(x, w);
    lemma_mod_bound(y, HEIGHT as int);
    lemma_mod_bound(x + k, w);
    lemma_add_mod_noop(x, k, w);
    lemma_small_mod(k as nat, w as nat);
    assert((x + k) % w == (x0 + k) % w);
    if x0 + k < w {
        lemma_small_mod((x0 + k) as nat, w as nat);
    } else {
        lemma_mod_multiples_vanish(1, x0 + k - w, w);
        lemma_small_mod((x0 + k - w) as nat, w as nat);
    }
    let c = (x + k) % w;
    let p = y0 * w + c;
    lemma_fundamental_div_mod_converse(p, w, y0, c);
}

/// A pixel of the blit row and window is hit by at most one sprite bit.
pub proof fn lemma_pix_unique(x: int, y: int, k: int, p: int)
    requires
        0 <= x,
        0 <= y,
        0 <= k < 8,
        0 <= p < NUM_PIXELS,
        p / (WIDTH as int) == y % (HEIGHT as int),
        col_offset(p % (WIDTH as int), x % (WIDTH as int)) == k,
    ensures
        p == pix(x + k, y),
{
    let w = WIDTH as int;
    lemma_fundamental_div_mod(p, w);
    lemma_mod_bound(p, w);
    lemma_mod_bound(x, w);
    lemma_pix_window(x, y, k);
}

/// Blitting a row preserves screen well-formedness.
pub proof fn lemma_blit_row_wf(s: Seq<u8>, byte: u8, x: int, y: int)
    requires
        screen_wf(s),
    ensures
        screen_wf(blit_row(s, byte, x, y)),
{
    let t = blit_row(s, byte, x, y);
    assert forall|p: int| 0 <= p < t.len() implies t[p] <= 1 by {
        let w = WIDTH as int;
        let j = col_offset(p % w, x % w);
        let a = s[p];
        let sh = (7 - j) as u8;
        let b = sprite_bit(byte, j);
        assert(((byte >> sh) & 1) <= 1) by (bit_vector);
        assert(a <= 1 && b <= 1 ==> (a ^ b) <= 1) by (bit_vector);
    }
}

/// The screen after the first `n` rows of an `n`-row sprite, stored at
/// memory addresses `[i, i+n)`, have been XOR-blitted at `(x, y)`.
pub open spec fn draw_rows(s: Seq<u8>, ram: Seq<u8>, i: int, x: int, y: int, n: int) -> Seq<u8>
    decreases n,
{
    if n <= 0 {
        s
    } else {
        blit_row(draw_rows(s, ram, i, x, y, n - 1), ram[i + n - 1], x, y + n - 1)
    }
}

/// Whether blitting the `n`-row sprite stored at `[i, i+n)` at `(x, y)`
/// erases some pixel that was lit when its row was blitted.
pub open spec fn draw_collides(s: Seq<u8>, ram: Seq<u8>, i: int, x: int, y: int, n: int) -> bool
    decreases n,
{
    if n <= 0 {
        false
    } else {
        draw_collides(s, ram, i, x, y, n - 1) || row_collision(
            draw_rows(s, ram, i, x, y, n - 1),
            ram[i + n - 1],
            x,
            y + n - 1,
        )
    }
}

/// A row blit depends on its `y` coordinate only through `y` modulo the
/// screen height.
pub proof fn lemma_blit_y_wraps(s: Seq<u8>, byte: u8, x: int, y: int)
    requires
        0 <= y,
    ensures
        blit_row(s, byte, x, y % (HEIGHT as int)) == blit_row(s, byte, x, y),
        row_collision(s, byte, x, y % (HEIGHT as int)) == row_collision(s, byte, x, y),
{
    let h = HEIGHT as int;
    lemma_mod_bound(y, h);
    lemma_small_mod((y % h) as nat, h as nat);
    assert(blit_row(s, byte, x, y % h) =~= blit_row(s, byte, x, y));
    if row_collision(s, byte, x, y % h) {
        let j = choose|j: int|
            0 <= j < 8 && sprite_bit(byte, j) == 1 && s[pix(x + j, y % h)] == 1;
        assert(pix(x + j, y % h) == pix(x + j, y));
        assert(sprite_bit(byte, j) == 1 && s[pix(x + j, y)] == 1);
    }
    if row_collision(s, byte, x, y) {
        let j = choose|j: int| 0 <= j < 8 && sprite_bit(byte, j) == 1 && s[pix(x + j, y)] == 1;
        assert(pix(x + j, y % h) == pix(x + j, y));
        assert(sprite_bit(byte, j) == 1 && s[pix(x + j, y % h)] == 1);
    }
}

/// Blitting the same row twice at the same spot undoes itself.
pub proof fn lemma_blit_row_self_inverse(s: Seq<u8>, byte: u8, x: int, y: int)
    ensures
        blit_row(blit_row(s, byte, x, y), byte, x, y) == s,
{
    let t = blit_row(blit_row(s, byte, x, y), byte, x, y);
    assert forall|p: int| 0 <= p < s.len() implies t[p] == s[p] by {
        let w = WIDTH as int;
        let j = col_offset(p % w, x % w);
        let a = s[p];
        let bb = sprite_bit(byte, j);
        assert(((a ^ bb) ^ bb) == a) by (bit_vector);
    }
    assert(t =~= s);
}

/// Row blits commute: the order of two XOR blits does not matter.
pub proof fn lemma_blit_row_commutes(
    s: Seq<u8>,
    b1: u8,
    x1: int,
    y1: int,
    b2: u8,
    x2: int,
    y2: int,
)
    ensures
        blit_row(blit_row(s, b1, x1, y1), b2, x2, y2) == blit_row(
            blit_row(s, b2, x2, y2),
            b1,
            x1,
            y1,
        ),
{
    let lhs = blit_row(blit_row(s, b1, x1, y1), b2, x2, y2);
    let rhs = blit_row(blit_row(s, b2, x2, y2), b1, x1, y1);
    assert forall|p: int| 0 <= p < s.len() implies lhs[p] == rhs[p] by {
        let w = WIDTH as int;
        let a = s[p];
        let u = sprite_bit(b1, col_offset(p % w, x1 % w));
        let v = sprite_bit(b2, col_offset(p % w, x2 % w));
        assert(((a ^ u) ^ v) == ((a ^ v) ^ u)) by (bit_vector);
    }
    assert(lhs =~= rhs);
}

/// A whole-sprite draw commutes with a single row blit.
pub proof fn lemma_draw_rows_blit_commutes(
    s: Seq<u8>,
    ram: Seq<u8>,
    i: int,
    x: int,
    y: int,
    n: int,
    byte: u8,
    bx: int,
    by: int,
)
    ensures
        draw_rows(blit_row(s, byte, bx, by), ram, i, x, y, n) == blit_row(
            draw_rows(s, ram, i, x, y, n),
            byte,
            bx,
            by,
        ),
    decreases n,
{
    if n > 0 {
        lemma_draw_rows_blit_commutes(s, ram, i, x, y, n - 1, byte, bx, by);
        lemma_blit_row_commutes(
            draw_rows(s, ram, i, x, y, n - 1),
            ram[i + n - 1],
            x,
            y + n - 1,
            byte,
            bx,
            by,
        );
    }
}

/// Drawing the same sprite twice at the same location undoes itself: after
/// the second draw every pixel is back to its value before the first.
pub proof fn lemma_draw_involution(s: Seq<u8>, ram: Seq<u8>, i: int, x: int, y: int, n: int)
    ensures
        draw_rows(draw_rows(s, ram, i, x, y, n), ram, i, x, y, n) == s,
    decreases n,
{
    if n > 0 {
        let m = n - 1;
        let dm = draw_rows(s, ram, i, x, y, m);
        let byte = ram[i + m];
        lemma_draw_rows_blit_commutes(dm, ram, i, x, y, m, byte, x, y + m);
        lemma_draw_involution(s, ram, i, x, y, m);
        lemma_blit_row_self_inverse(s, byte, x, y + m);
    }
}

/// Drawing preserves the screen's size.
pub proof fn lemma_draw_rows_len(s: Seq<u8>, ram: Seq<u8>, i: int, x: int, y: int, n: int)
    ensures
        draw_rows(s, ram, i, x, y, n).len() == s.len(),
    decreases n,
{
    if n > 0 {
        lemma_draw_rows_len(s, ram, i, x, y, n - 1);
    }
}

/// A pixel on none of the sprite's screen rows is left untouched by a draw.
pub proof fn lemma_draw_rows_untouched(
    s: Seq<u8>,
    ram: Seq<u8>,
    i: int,
    x: int,
    y: int,
    n: int,
    p: int,
)
    requires
        0 <= p < s.len(),
        forall|r: int| 0 <= r < n ==> p / (WIDTH as int) != #[trigger] ((y + r) % (HEIGHT as int)),
    ensures
        draw_rows(s, ram, i, x, y, n)[p] == s[p],
    decreases n,
{
    lemma_draw_rows_len(s, ram, i, x, y, n);
    if n > 0 {
        lemma_draw_rows_untouched(s, ram, i, x, y, n - 1, p);
        assert(p / (WIDTH as int) != (y + (n - 1)) % (HEIGHT as int));
    }
}

/// Two sprite rows fewer than a screen height apart land on distinct screen
/// rows.
pub proof fn lemma_rows_distinct(y: int, r1: int, r2: int)
    requires
        0 <= y,
        0 <= r1 < r2,
        r2 - r1 < HEIGHT,
    ensures
        (y + r1) % (HEIGHT as int) != (y + r2) % (HEIGHT as int),
{
    let h = HEIGHT as int;
    lemma_fundamental_div_mod(y + r1, h);
    lemma_fundamental_div_mod(y + r2, h);
    lemma_mod_bound(y + r1, h);
    lemma_mod_bound(y + r2, h);
}

/// On a clear screen, a draw of at most a screen-height of rows lights
/// exactly the sprite's set bits: every sprite bit can be read back from the
/// pixel it landed on.
pub proof fn lemma_first_draw_pixels(ram: Seq<u8>, i: int, x: int, y: int, n: int)
    requires
        0 <= x,
        0 <= y,
        0 <= n <= HEIGHT,
    ensures
        forall|r: int, j: int|
            0 <= r < n && 0 <= j < 8 ==> draw_rows(zero_screen(), ram, i, x, y, n)[pix(
                x + j,
                y + r,
            )] == #[trigger] sprite_bit(ram[i + r], j),
    decreases n,
{
    if n > 0 {
        let m = n - 1;
        let dm = draw_rows(zero_screen(), ram, i, x, y, m);
        let dn = draw_rows(zero_screen(), ram, i, x, y, n);
        lemma_first_draw_pixels(ram, i, x, y, m);
        lemma_draw_rows_len(zero_screen(), ram, i, x, y, m);
        assert forall|r: int, j: int| 0 <= r < n && 0 <= j < 8 implies dn[pix(x + j, y + r)]
            == #[trigger] sprite_bit(ram[i + r], j) by {
            let p = pix(x + j, y + r);
            lemma_pix_window(x, y + r, j);
            if r < m {
                lemma_rows_distinct(y, r, m);
                assert(dn[p] == dm[p]);
            } else {
                assert forall|rp: int| 0 <= rp < m implies p / (WIDTH as int) != #[trigger] ((y
                + rp) % (HEIGHT as int)) by {
                    lemma_rows_distinct(y, rp, m);
                }
                lemma_draw_rows_untouched(zero_screen(), ram, i, x, y, m, p);
                assert(dm[p] == 0u8);
                let bb = sprite_bit(ram[i + m], j);
                assert((0u8 ^ bb) == bb) by (bit_vector);
                assert(dn[p] == dm[p] ^ bb);
            }
        }
    }
}

/// The first `m` rows of a repeated draw collide exactly when one of those
/// sprite rows has a set bit: on a clear screen the first draw lit exactly
/// the sprite's bits, and the second pass erases them.
pub proof fn lemma_second_draw_collides_upto(
    ram: Seq<u8>,
    i: int,
    x: int,
    y: int,
    n: int,
    m: int,
)
    requires
        0 <= x,
        0 <= y,
        0 <= m <= n <= HEIGHT,
    ensures
        draw_collides(draw_rows(zero_screen(), ram, i, x, y, n), ram, i, x, y, m) == (
        exists|r: int, j: int| 0 <= r < m && 0 <= j < 8 && #[trigger] sprite_bit(ram[i + r], j) == 1),
    decreases m,
{
    let s1 = draw_rows(zero_screen(), ram, i, x, y, n);
    lemma_draw_rows_len(zero_screen(), ram, i, x, y, n);
    if m > 0 {
        let mm = m - 1;
        lemma_second_draw_collides_upto(ram, i, x, y, n, mm);
        let t = draw_rows(s1, ram, i, x, y, mm);
        let b = ram[i + mm];
        lemma_first_draw_pixels(ram, i, x, y, n);
        assert forall|j: int| 0 <= j < 8 implies t[pix(x + j, y + mm)] == sprite_bit(b, j) by {
            let p = pix(x + j, y + mm);
            lemma_pix_window(x, y + mm, j);
            assert forall|rp: int| 0 <= rp < mm implies p / (WIDTH as int) != #[trigger] ((y
                + rp) % (HEIGHT as int)) by {
                lemma_rows_distinct(y, rp, mm);
            }
            lemma_draw_rows_untouched(s1, ram, i, x, y, mm, p);
            assert(s1[p] == sprite_bit(ram[i + mm], j));
        }
        if row_collision(t, b, x, y + mm) {
            let j = choose|j: int|
                0 <= j < 8 && sprite_bit(b, j) == 1 && t[pix(x + j, y + mm)] == 1;
            assert(0 <= mm < m && 0 <= j < 8 && sprite_bit(ram[i + mm], j) == 1);
        }
        if exists|j: int| 0 <= j < 8 && sprite_bit(b, j) == 1 {
            let j = choose|j: int| 0 <= j < 8 && sprite_bit(b, j) == 1;
            assert(t[pix(x + j, y + mm)] == 1);
            assert(row_collision(t, b, x, y + mm));
        }
        if draw_collides(s1, ram, i, x, y, m) {
            if draw_collides(s1, ram, i, x, y, mm) {
                let (r, j) = choose|r: int, j: int|
                    0 <= r < mm && 0 <= j < 8 && #[trigger] sprite_bit(ram[i + r], j) == 1;
                assert(0 <= r < m && 0 <= j < 8 && sprite_bit(ram[i + r], j) == 1);
            } else {
                let j = choose|j: int|
                    0 <= j < 8 && sprite_bit(b, j) == 1 && t[pix(x + j, y + mm)] == 1;
                assert(0 <= mm < m && 0 <= j < 8 && sprite_bit(ram[i + mm], j) == 1);
            }
        }
        if exists|r: int, j: int| 0 <= r < m && 0 <= j < 8 && #[trigger] sprite_bit(ram[i + r], j)
            == 1 {
            let (r, j) = choose|r: int, j: int|
                0 <= r < m && 0 <= j < 8 && #[trigger] sprite_bit(ram[i + r], j) == 1;
            if r < mm {
                assert(draw_collides(s1, ram, i, x, y, mm));
            } else {
                assert(sprite_bit(b, j) == 1);
                assert(row_collision(t, b, x, y + mm));
            }
        }
    }
}

/// Drawing the same sprite twice on a clear screen: the second draw reports
/// a collision exactly when the sprite has any set bit, that is, for every
/// pixel the first draw lit.
pub proof fn lemma_second_draw_collides(ram: Seq<u8>, i: int, x: int, y: int, n: int)
    requires
        0 <= x,
        0 <= y,
        0 <= n <= HEIGHT,
    ensures
        draw_collides(draw_rows(zero_screen(), ram, i, x, y, n), ram, i, x, y, n) == (
        exists|r: int, j: int| 0 <= r < n && 0 <= j < 8 && #[trigger] sprite_bit(ram[i + r], j) == 1),
{
    lemma_second_draw_collides_upto(ram, i, x, y, n, n);
}

/// The monochrome pixel grid: a fixed 64 by 32 one-bit-per-pixel buffer,
/// stored one byte per pixel, mutated in place by XOR sprite blits.
#[derive(Debug)]
pub struct Display {
    screen: Vec<u8>,
}

impl View for Display {
    type V = Seq<u8>;

    closed spec fn view(&self) -> Seq<u8> {
        self.screen@
    }
}

impl Display {
    /// A fresh, all-dark display.
    pub fn new() -> (r: Display)
        ensures
            r@ == zero_screen(),
            screen_wf(r@),
    {
        let screen: Vec<u8> = vec![0u8; NUM_PIXELS];
        proof {
            assert(screen@ =~= zero_screen());
        }
        Display { screen }
    }

    /// Row-major buffer index of the pixel at `(x, y)`.
    pub fn get_idx_from_coords(x: usize, y: usize) -> (r: usize)
        requires
            x < WIDTH,
            y < HEIGHT,
        ensures
            r == y * WIDTH + x,
    {
        y * WIDTH + x
    }

    /// XOR-blit one 8-bit sprite row at `(x, y)`, wrapping around both screen
    /// edges; reports whether some lit pixel was erased.
    pub fn draw_byte(&mut self, byte: u8, x: u8, y: u8) -> (erased: bool)
        requires
            screen_wf(old(self)@),
        ensures
            screen_wf(final(self)@),
            final(self)@ == blit_row(old(self)@, byte, x as int, y as int),
            erased == row_collision(old(self)@, byte, x as int, y as int),
    {
        let ghost s0 = self.screen@;
        let xi = x as usize;
        let yi = y as usize;
        let cy: usize = yi % HEIGHT;
        let mut erased = false;
        let mut j: usize = 0;
        while j < 8
            invariant
                screen_wf(s0),
                j <= 8,
                xi == x as int,
                yi == y as int,
                cy == yi % HEIGHT,
                self.screen@.len() == NUM_PIXELS,
                self.screen@ == blit_row_upto(s0, byte, x as int, y as int, j as int),
                erased == exists|jj: int|
                    0 <= jj < j && sprite_bit(byte, jj) == 1 && s0[pix(x as int + jj, y as int)]
                        == 1,
            decreases 8 - j,
        {
            let cx: usize = (xi + j) % WIDTH;
            let idx: usize = cy * WIDTH + cx;
            proof {
                lemma_pix_window(x as int, y as int, j as int);
                assert(idx == pix(x as int + j, y as int));
            }
            let sh: u8 = 7 - (j as u8);
            let bit: u8 = (byte >> sh) & 1;
            proof {
                assert(bit == sprite_bit(byte, j as int));
            }
            let prev = self.screen[idx];
            proof {
                // bits already blitted hit other pixels, so `prev` is the
                // pixel's value from before the whole blit
                assert(col_offset(idx as int % (WIDTH as int), x as int % (WIDTH as int))
                    == j as int);
                assert(prev == s0[idx as int]);
            }
            if bit == 1 && prev == 1 {
                erased = true;
            }
            self.screen[idx] = prev ^ bit;
            proof {
                let w = WIDTH as int;
                let next = blit_row_upto(s0, byte, x as int, y as int, j as int + 1);
                assert forall|p: int| 0 <= p < NUM_PIXELS implies self.screen@[p] == next[p] by {
                    if p != idx as int {
                        if p / w == y as int % (HEIGHT as int) && col_offset(p % w, x as int % w)
                            == j as int {
                            lemma_pix_unique(x as int, y as int, j as int, p);
                        }
                    }
                }
                assert(self.screen@ =~= next);
            }
            j = j + 1;
        }
        proof {
            assert(self.screen@ =~= blit_row(s0, byte, x as int, y as int));
            lemma_blit_row_wf(s0, byte, x as int, y as int);
        }
        erased
    }

    /// Reset every pixel to dark.
    pub fn clear(&mut self)
        ensures
            final(self)@ == zero_screen(),
            screen_wf(final(self)@),
    {
        let screen: Vec<u8> = vec![0u8; NUM_PIXELS];
        proof {
            assert(screen@ =~= zero_screen());
        }
        self.screen = screen;
    }

    /// Read-only view of the pixel grid, row-major, for presentation.
    pub fn get_display_buffer(&self) -> (r: &[u8])
        ensures
            r@ == self@,
    {
        self.screen.as_slice()
    }
}

} // verus!
