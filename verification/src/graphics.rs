//! The monochrome display: a 64 x 32 grid of pixels, stored row by row.

use vstd::prelude::*;

verus! {

/// Number of pixel columns.
pub const WIDTH: usize = 64;

/// Number of pixel rows.
pub const HEIGHT: usize = 32;

/// Number of pixels on the screen (`WIDTH * HEIGHT`).
pub const PIXEL_COUNT: usize = 2048;

/// A position on the screen, in pixel units.
#[derive(Clone, Copy, Debug, PartialEq, Eq, Structural)]
pub struct Point {
    pub x: i32,
    pub y: i32,
}

/// The point at which the pixel stored at index `i` is shown.
pub open spec fn point_of_index(i: int) -> Point {
    Point { x: (i % 64) as i32, y: (i / 64) as i32 }
}

/// A screen whose pixels are all dark.
pub open spec fn blank_pixels() -> Seq<bool> {
    Seq::new(2048, |i: int| false)
}

/// Bit `k` of `n`, counting from the most significant bit (`k == 0`) down to the
/// least significant one (`k == 7`).
pub open spec fn bit_msb_first(n: u8, k: int) -> bool {
    (n as int / bit_weight(k)) % 2 == 1
}

/// The value of bit `k`, counting from the most significant bit (`k == 0`, worth 128)
/// down to the least significant one (`k == 7`, worth 1).
pub open spec fn bit_weight(k: int) -> int {
    if k <= 0 {
        128
    } else if k == 1 {
        64
    } else if k == 2 {
        32
    } else if k == 3 {
        16
    } else if k == 4 {
        8
    } else if k == 5 {
        4
    } else if k == 6 {
        2
    } else {
        1
    }
}

/// The eight bits of `n`, most significant first.
pub open spec fn byte_bits(n: u8) -> Seq<bool> {
    Seq::new(8, |k: int| bit_msb_first(n, k))
}

/// The points of the pixels among the first `n` whose state is `lit`, in storage order.
pub open spec fn points_where(px: Seq<bool>, lit: bool, n: int) -> Seq<Point>
    decreases n,
{
    if n <= 0 {
        Seq::empty()
    } else if px[n - 1] == lit {
        points_where(px, lit, n - 1).push(point_of_index(n - 1))
    } else {
        points_where(px, lit, n - 1)
    }
}

/// Index of the first pixel of sprite row `row` drawn at (`x`, `y`).
pub open spec fn row_offset(x: int, y: int, row: int) -> int {
    x + (y + row) * 64
}

/// Every row of a sprite of `rows` rows drawn at (`x`, `y`) lies inside the pixel store.
pub open spec fn sprite_fits(x: int, y: int, rows: int) -> bool {
    rows == 0 || row_offset(x, y, rows - 1) + 8 <= 2048
}

/// Whether pixel `k` is one of the pixels written by the first `rows` rows of a sprite
/// drawn at (`x`, `y`).
pub open spec fn covered(x: int, y: int, rows: int, k: int) -> bool {
    let d = k - row_offset(x, y, 0);
    0 <= d && d % 64 < 8 && d / 64 < rows
}

/// The pixels after the first `rows` rows of `sprite` are written at (`x`, `y`):
/// each written pixel takes the sprite's bit, every other pixel keeps its state.
pub open spec fn drawn_rows(px: Seq<bool>, x: int, y: int, sprite: Seq<u8>, rows: int) -> Seq<bool> {
    Seq::new(
        px.len(),
        |k: int|
            if covered(x, y, rows, k) {
                let d = k - row_offset(x, y, 0);
                bit_msb_first(sprite[d / 64], d % 64)
            } else {
                px[k]
            },
    )
}

/// The pixels after the whole of `sprite` is drawn at (`x`, `y`).
pub open spec fn drawn_pixels(px: Seq<bool>, x: int, y: int, sprite: Seq<u8>) -> Seq<bool> {
    drawn_rows(px, x, y, sprite, sprite.len() as int)
}

/// Some pixel written by the first `rows` rows was lit and is turned dark.
pub open spec fn collides_rows(px: Seq<bool>, x: int, y: int, sprite: Seq<u8>, rows: int) -> bool {
    exists|i: int, j: int|
        0 <= i < rows && 0 <= j < 8 && #[trigger] px[row_offset(x, y, i) + j]
            && !bit_msb_first(sprite[i], j)
}

/// Drawing `sprite` at (`x`, `y`) turns some lit pixel dark.
pub open spec fn sprite_collides(px: Seq<bool>, x: int, y: int, sprite: Seq<u8>) -> bool {
    collides_rows(px, x, y, sprite, sprite.len() as int)
}

/// Entry `k` of the list of pixel updates of a sprite drawn at (`x`, `y`): row `k / 8`,
/// column `k % 8`, and the state that pixel is given.
pub open spec fn update_entry(x: int, y: int, sprite: Seq<u8>, k: int) -> (Point, bool) {
    (Point { x: (x + k % 8) as i32, y: (y + k / 8) as i32 }, bit_msb_first(sprite[k / 8], k % 8))
}

/// The pixel updates of a sprite drawn at (`x`, `y`): eight per row, row by row,
/// left to right.
pub open spec fn sprite_updates(x: int, y: int, sprite: Seq<u8>) -> Seq<(Point, bool)> {
    Seq::new((sprite.len() * 8) as nat, |k: int| update_entry(x, y, sprite, k))
}

/// The eight bits of `n`, most significant first.
pub fn u8_to_binary(n: u8) -> (arr: [bool; 8])
    ensures
        arr@ == byte_bits(n),
{
    let mut arr = [false; 8];
    arr[0] = (n & 0b10000000) == 0b10000000;
    arr[1] = (n & 0b01000000) == 0b01000000;
    arr[2] = (n & 0b00100000) == 0b00100000;
    arr[3] = (n & 0b00010000) == 0b00010000;
    arr[4] = (n & 0b00001000) == 0b00001000;
    arr[5] = (n & 0b00000100) == 0b00000100;
    arr[6] = (n & 0b00000010) == 0b00000010;
    arr[7] = (n & 0b00000001) == 0b00000001;
    assert(((n & 0x80u8) == 0x80u8) == ((n / 128u8) % 2 == 1)) by (bit_vector);
    assert(((n & 0x40u8) == 0x40u8) == ((n / 64u8) % 2 == 1)) by (bit_vector);
    assert(((n & 0x20u8) == 0x20u8) == ((n / 32u8) % 2 == 1)) by (bit_vector);
    assert(((n & 0x10u8) == 0x10u8) == ((n / 16u8) % 2 == 1)) by (bit_vector);
    assert(((n & 0x08u8) == 0x08u8) == ((n / 8u8) % 2 == 1)) by (bit_vector);
    assert(((n & 0x04u8) == 0x04u8) == ((n / 4u8) % 2 == 1)) by (bit_vector);
    assert(((n & 0x02u8) == 0x02u8) == ((n / 2u8) % 2 == 1)) by (bit_vector);
    assert(((n & 0x01u8) == 0x01u8) == ((n / 1u8) % 2 == 1)) by (bit_vector);
    assert(arr@ =~= byte_bits(n));
    arr
}

/// No two bytes have the same eight bits: a sprite row loses nothing when split into
/// pixels.
pub proof fn lemma_byte_bits_injective(a: u8, b: u8)
    requires
        byte_bits(a) == byte_bits(b),
    ensures
        a == b,
{
    lemma_byte_bits_value(a);
    lemma_byte_bits_value(b);
}

/// The number that the first `k` bits of `bits` spell, most significant first.
pub open spec fn bits_value(bits: Seq<bool>, k: int) -> int
    decreases k,
{
    if k <= 0 {
        0
    } else {
        2 * bits_value(bits, k - 1) + if bits[k - 1] { 1int } else { 0int }
    }
}

/// The eight bits of a byte, read as a binary number most significant first, give the
/// byte back.
pub proof fn lemma_byte_bits_value(n: u8)
    ensures
        bits_value(byte_bits(n), 8) == n,
{
    reveal_with_fuel(bits_value, 9);
    assert(byte_bits(n).len() == 8);
    assert(n == ((n / 128u8) % 2) * 128 + ((n / 64u8) % 2) * 64 + ((n / 32u8) % 2) * 32 + ((n
        / 16u8) % 2) * 16 + ((n / 8u8) % 2) * 8 + ((n / 4u8) % 2) * 4 + ((n / 2u8) % 2) * 2 + ((n
        / 1u8) % 2)) by (bit_vector);
}

/// The lit and the dark pixels together are all the pixels: among the first `n`
/// pixels, the points of the lit ones and of the dark ones number `n` in all.
pub proof fn lemma_pixel_sets_partition(px: Seq<bool>, n: int)
    requires
        0 <= n <= px.len(),
    ensures
        points_where(px, true, n).len() + points_where(px, false, n).len() == n,
    decreases n,
{
    if n > 0 {
        lemma_pixel_sets_partition(px, n - 1);
    }
}

/// A dark screen has no lit pixel: all of its pixels are listed as dark, in order.
pub proof fn lemma_blank_has_no_lit_pixel(n: int)
    requires
        0 <= n <= 2048,
    ensures
        points_where(blank_pixels(), true, n) == Seq::<Point>::empty(),
        points_where(blank_pixels(), false, n) == Seq::new(n as nat, |k: int| point_of_index(k)),
    decreases n,
{
    if n > 0 {
        lemma_blank_has_no_lit_pixel(n - 1);
        assert(points_where(blank_pixels(), false, n) =~= Seq::new(
            n as nat,
            |k: int| point_of_index(k),
        ));
    }
}

/// Drawing a sprite twice at the same place: the second drawing changes no pixel and
/// turns no lit pixel dark.
pub proof fn lemma_redraw_changes_nothing(px: Seq<bool>, x: int, y: int, sprite: Seq<u8>)
    requires
        px.len() == 2048,
        0 <= x,
        0 <= y,
        sprite_fits(x, y, sprite.len() as int),
    ensures
        drawn_pixels(drawn_pixels(px, x, y, sprite), x, y, sprite) == drawn_pixels(
            px,
            x,
            y,
            sprite,
        ),
        !sprite_collides(drawn_pixels(px, x, y, sprite), x, y, sprite),
{
    let q = drawn_pixels(px, x, y, sprite);
    assert(drawn_pixels(q, x, y, sprite) =~= q);
    if sprite_collides(q, x, y, sprite) {
        let (i, j) = choose|i: int, j: int|
            0 <= i < sprite.len() && 0 <= j < 8 && #[trigger] q[row_offset(x, y, i) + j]
                && !bit_msb_first(sprite[i], j);
        let k = row_offset(x, y, i) + j;
        let d = k - row_offset(x, y, 0);
        assert(d == 64 * i + j);
        assert(d / 64 == i && d % 64 == j);
        assert(covered(x, y, sprite.len() as int, k));
        assert(k < 2048);
    }
}

/// The point of a pixel gives its index back: `y * 64 + x` is the index, and `x` is a
/// column of the screen.
pub proof fn lemma_point_of_index(i: int)
    requires
        0 <= i < 2048,
    ensures
        point_of_index(i).y * 64 + point_of_index(i).x == i,
        0 <= point_of_index(i).x < 64,
        0 <= point_of_index(i).y < 32,
{
}

/// The pixel lists name exactly the pixels of their state: every point listed is a
/// point of the screen whose pixel (at index `y * 64 + x`) has that state, and the
/// point of every pixel in that state is listed.
pub proof fn lemma_pixel_sets_complete(px: Seq<bool>, lit: bool, n: int)
    requires
        0 <= n <= px.len(),
        n <= 2048,
    ensures
        forall|k: int|
            0 <= k < points_where(px, lit, n).len() ==> {
                let p = #[trigger] points_where(px, lit, n)[k];
                &&& 0 <= p.x < 64
                &&& 0 <= p.y * 64 + p.x < n
                &&& px[p.y * 64 + p.x] == lit
            },
        forall|i: int|
            0 <= i < n && px[i] == lit ==> points_where(px, lit, n).contains(
                #[trigger] point_of_index(i),
            ),
    decreases n,
{
    if n > 0 {
        lemma_pixel_sets_complete(px, lit, n - 1);
        let prev = points_where(px, lit, n - 1);
        let cur = points_where(px, lit, n);
        assert forall|k: int| 0 <= k < cur.len() implies {
            let p = #[trigger] cur[k];
            &&& 0 <= p.x < 64
            &&& 0 <= p.y * 64 + p.x < n
            &&& px[p.y * 64 + p.x] == lit
        } by {
            if k < prev.len() {
                assert(cur[k] == prev[k]);
            } else {
                assert(cur[k] == point_of_index(n - 1));
            }
        }
        assert forall|i: int| 0 <= i < n && px[i] == lit implies cur.contains(
            #[trigger] point_of_index(i),
        ) by {
            if i < n - 1 {
                let k = choose|k: int| 0 <= k < prev.len() && prev[k] == point_of_index(i);
                assert(cur[k] == point_of_index(i));
            } else {
                assert(cur[prev.len() as int] == point_of_index(i));
            }
        }
    }
}

/// Drawing writes each sprite row at its place: pixel `x + (y + i) * 64 + j` takes bit
/// `j` (most significant first) of row `i`, and every pixel outside the sprite keeps
/// its state.
pub proof fn lemma_drawn_pixels(px: Seq<bool>, x: int, y: int, sprite: Seq<u8>)
    requires
        px.len() == 2048,
        0 <= x,
        0 <= y,
        sprite_fits(x, y, sprite.len() as int),
    ensures
        drawn_pixels(px, x, y, sprite).len() == 2048,
        forall|i: int, j: int|
            0 <= i < sprite.len() && 0 <= j < 8 ==> #[trigger] drawn_pixels(px, x, y, sprite)[x + (
            y + i) * 64 + j] == ((sprite[i] as int / bit_weight(j)) % 2 == 1),
        forall|k: int|
            0 <= k < 2048 && (k - x - y * 64 < 0 || (k - x - y * 64) % 64 >= 8 || (k - x - y * 64)
                / 64 >= sprite.len()) ==> #[trigger] drawn_pixels(px, x, y, sprite)[k] == px[k],
{
    assert forall|i: int, j: int| 0 <= i < sprite.len() && 0 <= j < 8 implies #[trigger] drawn_pixels(
        px,
        x,
        y,
        sprite,
    )[x + (y + i) * 64 + j] == ((sprite[i] as int / bit_weight(j)) % 2 == 1) by {
        let k = x + (y + i) * 64 + j;
        let d = k - row_offset(x, y, 0);
        assert(d == 64 * i + j);
        assert(d / 64 == i && d % 64 == j);
    }
    assert(row_offset(x, y, 0) == x + y * 64);
}

/// The collision result covers every row: drawing collides exactly where some row `i`
/// and column `j` of the sprite have the pixel `x + (y + i) * 64 + j` lit and the
/// sprite's bit clear, which is where some lit pixel of the screen goes dark. So a
/// sprite that collides still collides with more rows below it.
pub proof fn lemma_collision_covers_every_row(
    px: Seq<bool>,
    x: int,
    y: int,
    sprite: Seq<u8>,
    more: Seq<u8>,
)
    requires
        px.len() == 2048,
        0 <= x,
        0 <= y,
        sprite_fits(x, y, sprite.len() as int),
    ensures
        sprite_collides(px, x, y, sprite) <==> exists|i: int, j: int|
            0 <= i < sprite.len() && 0 <= j < 8 && #[trigger] px[x + (y + i) * 64 + j] && !((
            sprite[i] as int / bit_weight(j)) % 2 == 1),
        sprite_collides(px, x, y, sprite) <==> exists|k: int|
            0 <= k < 2048 && #[trigger] px[k] && !drawn_pixels(px, x, y, sprite)[k],
        sprite_collides(px, x, y, sprite) ==> sprite_collides(px, x, y, sprite + more),
{
    lemma_drawn_pixels(px, x, y, sprite);
    let q = drawn_pixels(px, x, y, sprite);
    if sprite_collides(px, x, y, sprite) {
        let (i, j) = choose|i: int, j: int|
            0 <= i < sprite.len() && 0 <= j < 8 && #[trigger] px[row_offset(x, y, i) + j]
                && !bit_msb_first(sprite[i], j);
        let k = x + (y + i) * 64 + j;
        assert(px[k] && !q[k]);
        assert((sprite + more)[i] == sprite[i]);
        assert(px[row_offset(x, y, i) + j] && !bit_msb_first((sprite + more)[i], j));
    }
    if exists|i: int, j: int|
        0 <= i < sprite.len() && 0 <= j < 8 && #[trigger] px[x + (y + i) * 64 + j] && !((
        sprite[i] as int / bit_weight(j)) % 2 == 1) {
        let (i, j) = choose|i: int, j: int|
            0 <= i < sprite.len() && 0 <= j < 8 && #[trigger] px[x + (y + i) * 64 + j] && !((
            sprite[i] as int / bit_weight(j)) % 2 == 1);
        assert(px[row_offset(x, y, i) + j]);
    }
    if exists|k: int| 0 <= k < 2048 && #[trigger] px[k] && !q[k] {
        let k = choose|k: int| 0 <= k < 2048 && #[trigger] px[k] && !q[k];
        let d = k - row_offset(x, y, 0);
        assert(covered(x, y, sprite.len() as int, k));
        let i = d / 64;
        let j = d % 64;
        assert(k == row_offset(x, y, i) + j);
        assert(px[row_offset(x, y, i) + j]);
    }
}

/// The pixel updates list each sprite pixel once, row by row: entry `i * 8 + j` is the
/// point (`x + j`, `y + i`) with bit `j` of row `i`.
pub proof fn lemma_sprite_updates(x: int, y: int, sprite: Seq<u8>)
    requires
        0 <= x < 256,
        0 <= y < 256,
    ensures
        sprite_updates(x, y, sprite).len() == 8 * sprite.len(),
        forall|i: int, j: int|
            0 <= i < sprite.len() && 0 <= j < 8 ==> #[trigger] sprite_updates(x, y, sprite)[i * 8
                + j] == (Point { x: (x + j) as i32, y: (y + i) as i32 }, (sprite[i] as int
                / bit_weight(j)) % 2 == 1),
{
    assert forall|i: int, j: int| 0 <= i < sprite.len() && 0 <= j < 8 implies #[trigger] sprite_updates(
        x,
        y,
        sprite,
    )[i * 8 + j] == (Point { x: (x + j) as i32, y: (y + i) as i32 }, (sprite[i] as int
        / bit_weight(j)) % 2 == 1) by {
        let k = i * 8 + j;
        assert(k / 8 == i && k % 8 == j);
    }
}

/// The display of the machine.
pub struct Screen {
    pixels: [bool; 2048],
}

impl View for Screen {
    type V = Seq<bool>;

    closed spec fn view(&self) -> Seq<bool> {
        self.pixels@
    }
}

impl Screen {
    /// The view always holds exactly one entry per pixel.
    pub proof fn lemma_view_len(&self)
        ensures
            self@.len() == PIXEL_COUNT,
    {
    }

    /// A screen with every pixel dark.
    pub fn new() -> (s: Screen)
        ensures
            s@ == blank_pixels(),
    {
        let s = Screen { pixels: [false; 2048] };
        assert(s@ =~= blank_pixels());
        s
    }

    /// Turns every pixel dark.
    pub fn clear(&mut self)
        ensures
            final(self)@ == blank_pixels(),
    {
        self.pixels = [false; 2048];
        assert(self@ =~= blank_pixels());
    }

    /// The points of the lit pixels and of the dark pixels, each in storage order
    /// (row by row, left to right).
    pub fn pixel_sets(&self) -> (res: (Vec<Point>, Vec<Point>))
        ensures
            res.0@ == points_where(self@, true, 2048),
            res.1@ == points_where(self@, false, 2048),
    {
        let mut lit: Vec<Point> = Vec::new();
        let mut unlit: Vec<Point> = Vec::new();
        for i in 0..PIXEL_COUNT
            invariant
                self@.len() == 2048,
                lit@ == points_where(self@, true, i as int),
                unlit@ == points_where(self@, false, i as int),
        {
            let p = Point { x: (i % WIDTH) as i32, y: (i / WIDTH) as i32 };
            assert(p == point_of_index(i as int));
            if self.pixels[i] {
                lit.push(p);
            } else {
                unlit.push(p);
            }
        }
        (lit, unlit)
    }

    /// Writes eight pixels from `offset` on; reports whether one of them was lit and
    /// is now dark.
    fn draw_row(&mut self, offset: usize, bin: &[bool; 8]) -> (turned_off: bool)
        requires
            offset + 8 <= 2048,
        ensures
            final(self)@ == Seq::new(
                2048,
                |k: int| if offset <= k < offset + 8 { bin@[k - offset] } else { old(self)@[k] },
            ),
            turned_off == exists|j: int| 0 <= j < 8 && #[trigger] old(self)@[offset + j] && !bin@[j],
    {
        let ghost before = self@;
        let mut turned_off = false;
        for j in 0..8
            invariant
                offset + 8 <= 2048,
                before.len() == 2048,
                self@ == Seq::new(
                    2048,
                    |k: int| if offset <= k < offset + j { bin@[k - offset] } else { before[k] },
                ),
                turned_off == exists|jj: int| 0 <= jj < j && #[trigger] before[offset + jj] && !bin@[jj],
        {
            let was = self.pixels[offset + j];
            assert(was == before[offset + j]);
            turned_off = turned_off || (was && !bin[j]);
            self.pixels[offset + j] = bin[j];
            assert(self@ =~= Seq::new(
                2048,
                |k: int| if offset <= k < offset + j + 1 { bin@[k - offset] } else { before[k] },
            ));
        }
        assert(self@ =~= Seq::new(
            2048,
            |k: int| if offset <= k < offset + 8 { bin@[k - offset] } else { before[k] },
        ));
        turned_off
    }

    /// Draws `sprite` with its top-left corner at (`x`, `y`): row `i` of the sprite sets
    /// the eight pixels from index `x + (y + i) * 64` on to the bits of `sprite[i]`,
    /// most significant bit leftmost. Returns whether a lit pixel was turned dark, and
    /// the list of pixel updates (eight per row, row by row).
    pub fn draw_sprite(&mut self, x: u8, y: u8, sprite: &[u8]) -> (res: (bool, Vec<(Point, bool)>))
        requires
            sprite_fits(x as int, y as int, sprite@.len() as int),
        ensures
            final(self)@ == drawn_pixels(old(self)@, x as int, y as int, sprite@),
            res.0 == sprite_collides(old(self)@, x as int, y as int, sprite@),
            res.1@ == sprite_updates(x as int, y as int, sprite@),
    {
        let ghost px = self@;
        let ghost xi = x as int;
        let ghost yi = y as int;
        let mut collision = false;
        let xu = x as usize;
        let yu = y as usize;
        let mut update_vec: Vec<(Point, bool)> = Vec::new();
        let n = sprite.len();
        assert(self@ =~= drawn_rows(px, xi, yi, sprite@, 0));
        for i in 0..n
            invariant
                n == sprite@.len(),
                xu == xi,
                yu == yi,
                xu < 256,
                yu < 256,
                px.len() == 2048,
                sprite_fits(xi, yi, n as int),
                self@ == drawn_rows(px, xi, yi, sprite@, i as int),
                collision == collides_rows(px, xi, yi, sprite@, i as int),
                update_vec@ =~= Seq::new((i * 8) as nat, |k: int| update_entry(xi, yi, sprite@, k)),
        {
            let row = yu + i;
            let bin = u8_to_binary(sprite[i]);
            let offset = xu + row * WIDTH;
            assert(offset == row_offset(xi, yi, i as int));
            let ghost cur = self@;
            proof {
                assert forall|j: int| 0 <= j < 8 implies #[trigger] cur[offset + j] == px[offset + j] by {
                    assert(!covered(xi, yi, i as int, offset + j));
                }
            }
            let turned_off = self.draw_row(offset, &bin);
            proof {
                if turned_off {
                    let j = choose|j: int| 0 <= j < 8 && #[trigger] cur[offset + j] && !bin@[j];
                    assert(cur[offset + j] == px[offset + j]);
                    assert(bin@[j] == bit_msb_first(sprite@[i as int], j));
                    assert(px[row_offset(xi, yi, i as int) + j]);
                } else {
                    assert forall|j: int|
                        0 <= j < 8 && #[trigger] px[row_offset(xi, yi, i as int) + j] implies bit_msb_first(
                        sprite@[i as int],
                        j,
                    ) by {
                        assert(cur[offset + j] == px[offset + j]);
                        assert(bin@[j] == bit_msb_first(sprite@[i as int], j));
                    }
                }
                assert(turned_off == exists|j: int|
                    0 <= j < 8 && #[trigger] px[row_offset(xi, yi, i as int) + j]
                        && !bit_msb_first(sprite@[i as int], j));
                if turned_off {
                    let j = choose|j: int|
                        0 <= j < 8 && #[trigger] px[row_offset(xi, yi, i as int) + j]
                            && !bit_msb_first(sprite@[i as int], j);
                    assert(px[row_offset(xi, yi, i as int) + j]);
                }
                if collides_rows(px, xi, yi, sprite@, i as int + 1) {
                    let (a, b) = choose|a: int, b: int|
                        0 <= a < i + 1 && 0 <= b < 8 && #[trigger] px[row_offset(xi, yi, a) + b]
                            && !bit_msb_first(sprite@[a], b);
                    if a < i {
                        assert(collides_rows(px, xi, yi, sprite@, i as int));
                    } else {
                        assert(turned_off);
                    }
                }
                if collision {
                    let (a, b) = choose|a: int, b: int|
                        0 <= a < i && 0 <= b < 8 && #[trigger] px[row_offset(xi, yi, a) + b]
                            && !bit_msb_first(sprite@[a], b);
                    assert(px[row_offset(xi, yi, a) + b]);
                }
                assert forall|k: int| 0 <= k < 2048 implies #[trigger] self@[k] == drawn_rows(
                    px,
                    xi,
                    yi,
                    sprite@,
                    i as int + 1,
                )[k] by {
                    let d = k - row_offset(xi, yi, 0);
                    if offset <= k < offset + 8 {
                        assert(d == 64 * i + (k - offset));
                        assert(d / 64 == i);
                        assert(d % 64 == k - offset);
                    }
                }
                assert(self@ =~= drawn_rows(px, xi, yi, sprite@, i as int + 1));
            }
            collision = collision || turned_off;
            assert(xu < 256);
            for j in 0..8
                invariant
                    n == sprite@.len(),
                    i < n,
                    xu == xi,
                    yu == yi,
                    row == yi + i,
                    row < 32,
                    xu < 256,
                    bin@ == byte_bits(sprite@[i as int]),
                    update_vec@ =~= Seq::new((i * 8 + j) as nat, |k: int| update_entry(xi, yi, sprite@, k)),
            {
                let entry = (Point { x: (xu + j) as i32, y: row as i32 }, bin[j]);
                proof {
                    let k = i * 8 + j;
                    assert(k / 8 == i);
                    assert(k % 8 == j);
                    assert(entry == update_entry(xi, yi, sprite@, k as int));
                }
                update_vec.push(entry);
            }
        }
        (collision, update_vec)
    }
}

} // verus!
