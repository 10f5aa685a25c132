use vstd::prelude::*;
use vstd::arithmetic::div_mod::{
    lemma_add_mod_noop, lemma_fundamental_div_mod_converse, lemma_mod_bound, lemma_small_mod,
};
use crate::model::{SCREEN_HEIGHT, SCREEN_SIZE, SCREEN_WIDTH};

verus! {

/// The sprite bit for column `c` of a sprite row byte, most significant
/// bit first: column 0 is the top bit.
pub open spec fn sprite_bit(row_byte: u8, c: int) -> u8 {
    (row_byte >> ((7 - c) as u8)) & 1
}

/// The framebuffer position a sprite row `r` and column `c` land on when
/// the sprite is drawn at `(vx, vy)`, both axes wrapped toroidally.
pub open spec fn cell_index(vx: u8, vy: u8, r: int, c: int) -> int {
    ((vy + r) % (SCREEN_HEIGHT as int)) * (SCREEN_WIDTH as int) + ((vx + c) % (SCREEN_WIDTH as int))
}

/// The sprite row that lands on framebuffer position `p` when a sprite
/// is drawn at vertical coordinate `vy`; only values below the sprite
/// height name a row the draw actually touches.
pub open spec fn hit_row(vy: u8, p: int) -> int {
    ((p / (SCREEN_WIDTH as int)) - ((vy as int) % (SCREEN_HEIGHT as int)) + (SCREEN_HEIGHT as int)) % (
    SCREEN_HEIGHT as int)
}

/// The sprite column that lands on framebuffer position `p` for a sprite
/// drawn at horizontal coordinate `vx`; a value of 8 or more means no
/// sprite column reaches `p`.
pub open spec fn hit_col(vx: u8, p: int) -> int {
    ((p % (SCREEN_WIDTH as int)) - ((vx as int) % (SCREEN_WIDTH as int)) + (SCREEN_WIDTH as int)) % (
    SCREEN_WIDTH as int)
}

/// The pixel at position `p` after an `n`-row sprite read from memory at
/// `i` is drawn at `(vx, vy)` onto a framebuffer whose pixel at `p` was
/// `old_px`: touched pixels are flipped by their sprite bit, the rest stay.
pub open spec fn blit_pixel(mem: Seq<u8>, i: u16, vx: u8, vy: u8, n: u8, old_px: u8, p: int) -> u8 {
    let r = hit_row(vy, p);
    let c = hit_col(vx, p);
    if r < n && c < 8 {
        old_px ^ sprite_bit(mem[i + r], c)
    } else {
        old_px
    }
}

/// The whole framebuffer after the draw.
pub open spec fn blit_screen(screen: Seq<u8>, mem: Seq<u8>, i: u16, vx: u8, vy: u8, n: u8) -> Seq<
    u8,
> {
    Seq::new(screen.len(), |p: int| blit_pixel(mem, i, vx, vy, n, screen[p], p))
}

/// Whether the draw turns any previously set pixel off: some sprite bit
/// is 1 over a pixel that is 1.
pub open spec fn blit_collision(screen: Seq<u8>, mem: Seq<u8>, i: u16, vx: u8, vy: u8, n: u8) -> bool {
    exists|r: int, c: int|
        0 <= r < n && 0 <= c < 8 && #[trigger] sprite_bit(mem[i + r], c) == 1
            && screen[#[trigger] cell_index(vx, vy, r, c)] == 1
}

/// Lexicographic order on (row, column) pairs: the pairs a row-major
/// sweep of the sprite has finished before reaching `(row, col)`.
pub open spec fn before_lex(r: int, c: int, row: int, col: int) -> bool {
    r < row || (r == row && c < col)
}

/// `blit_pixel` restricted to the sprite rows and columns a sweep has
/// already processed when it stands at `(row, col)`.
pub open spec fn partial_pixel(
    mem: Seq<u8>,
    i: u16,
    vx: u8,
    vy: u8,
    n: u8,
    old_px: u8,
    p: int,
    row: int,
    col: int,
) -> u8 {
    let r = hit_row(vy, p);
    let c = hit_col(vx, p);
    if r < n && c < 8 && before_lex(r, c, row, col) {
        old_px ^ sprite_bit(mem[i + r], c)
    } else {
        old_px
    }
}

/// `blit_collision` restricted to the part of the sweep before `(row, col)`.
pub open spec fn partial_collision(
    screen: Seq<u8>,
    mem: Seq<u8>,
    i: u16,
    vx: u8,
    vy: u8,
    n: u8,
    row: int,
    col: int,
) -> bool {
    exists|r: int, c: int|
        0 <= r < n && 0 <= c < 8 && before_lex(r, c, row, col) && #[trigger] sprite_bit(
            mem[i + r],
            c,
        ) == 1 && screen[#[trigger] cell_index(vx, vy, r, c)] == 1
}

/// A sprite bit is a single bit.
pub proof fn lemma_sprite_bit_le_one(b: u8, c: int)
    requires
        0 <= c < 8,
    ensures
        sprite_bit(b, c) <= 1,
{
    let k = ((7 - c) as u8);
    assert((b >> k) & 1 <= 1) by (bit_vector);
}

/// Flipping a pixel by a bit keeps it a pixel, and flipping twice
/// restores it.
pub proof fn lemma_xor_bit(a: u8, b: u8)
    requires
        a <= 1,
        b <= 1,
    ensures
        (a ^ b) <= 1,
        (a ^ b) ^ b == a,
        b == 1 ==> (((a ^ b) == 1) <==> a == 0),
        b == 0 ==> (a ^ b) == a,
{
    assert(((a ^ b) ^ b) == a && (a <= 1 && b <= 1 ==> (a ^ b) <= 1) && ((a <= 1 && b == 1) ==> ((
    (a ^ b) == 1) == (a == 0))) && (b == 0 ==> (a ^ b) == a)) by (bit_vector);
}

/// Folding one more sprite pixel into the collision accumulator keeps it
/// a bit and records exactly whether anything so far collided.
pub proof fn lemma_collision_accumulate(acc: u8, s: u8, p: u8)
    requires
        acc <= 1,
        s <= 1,
        p <= 1,
    ensures
        (acc | (s & p)) <= 1,
        ((acc | (s & p)) == 1) == (acc == 1 || (s == 1 && p == 1)),
{
    assert((acc <= 1 && s <= 1 && p <= 1) ==> ((acc | (s & p)) <= 1 && (((acc | (s & p)) == 1) == (
    acc == 1 || (s == 1 && p == 1))))) by (bit_vector);
}

/// One column step of the sweep: after the cell of `(row, col)` is
/// flipped by its sprite bit, the screen matches the partial blit one
/// column further on; and before the flip, that cell still held its
/// original pixel.
pub proof fn lemma_partial_step_col(
    mem: Seq<u8>,
    i: u16,
    vx: u8,
    vy: u8,
    n: u8,
    old_screen: Seq<u8>,
    cur: Seq<u8>,
    row: int,
    col: int,
)
    requires
        old_screen.len() == SCREEN_SIZE,
        cur.len() == SCREEN_SIZE,
        0 <= row < n,
        n < 32,
        0 <= col < 8,
        forall|p: int|
            0 <= p < SCREEN_SIZE ==> #[trigger] cur[p] == partial_pixel(
                mem,
                i,
                vx,
                vy,
                n,
                old_screen[p],
                p,
                row,
                col,
            ),
    ensures
        cur[cell_index(vx, vy, row, col)] == old_screen[cell_index(vx, vy, row, col)],
        forall|p: int|
            0 <= p < SCREEN_SIZE ==> #[trigger] cur.update(
                cell_index(vx, vy, row, col),
                cur[cell_index(vx, vy, row, col)] ^ sprite_bit(mem[i + row], col),
            )[p] == partial_pixel(mem, i, vx, vy, n, old_screen[p], p, row, col + 1),
{
    lemma_cell_round_trip(vx, vy, row, col);
    let p0 = cell_index(vx, vy, row, col);
    assert(cur[p0] == partial_pixel(mem, i, vx, vy, n, old_screen[p0], p0, row, col));
    assert(cur[p0] == old_screen[p0]);
    let next = cur.update(p0, cur[p0] ^ sprite_bit(mem[i + row], col));
    assert forall|p: int| 0 <= p < SCREEN_SIZE implies #[trigger] next[p] == partial_pixel(
        mem,
        i,
        vx,
        vy,
        n,
        old_screen[p],
        p,
        row,
        col + 1,
    ) by {
        if p != p0 {
            lemma_cell_of_hit(vx, vy, p);
            assert(!(hit_row(vy, p) == row && hit_col(vx, p) == col));
        }
    }
}

/// One column step for the collision accumulator.
pub proof fn lemma_partial_collision_step(
    screen: Seq<u8>,
    mem: Seq<u8>,
    i: u16,
    vx: u8,
    vy: u8,
    n: u8,
    row: int,
    col: int,
)
    requires
        0 <= row < n,
        0 <= col < 8,
    ensures
        partial_collision(screen, mem, i, vx, vy, n, row, col + 1) == (partial_collision(
            screen,
            mem,
            i,
            vx,
            vy,
            n,
            row,
            col,
        ) || (sprite_bit(mem[i + row], col) == 1 && screen[cell_index(vx, vy, row, col)] == 1)),
{
    if partial_collision(screen, mem, i, vx, vy, n, row, col + 1) {
        let (r, c) = choose|r: int, c: int|
            0 <= r < n && 0 <= c < 8 && before_lex(r, c, row, col + 1) && #[trigger] sprite_bit(
                mem[i + r],
                c,
            ) == 1 && screen[#[trigger] cell_index(vx, vy, r, c)] == 1;
        if r == row && c == col {
            assert(sprite_bit(mem[i + row], col) == 1 && screen[cell_index(vx, vy, row, col)]
                == 1);
        } else {
            assert(before_lex(r, c, row, col));
            assert(partial_collision(screen, mem, i, vx, vy, n, row, col));
        }
    }
    if partial_collision(screen, mem, i, vx, vy, n, row, col) {
        let (r, c) = choose|r: int, c: int|
            0 <= r < n && 0 <= c < 8 && before_lex(r, c, row, col) && #[trigger] sprite_bit(
                mem[i + r],
                c,
            ) == 1 && screen[#[trigger] cell_index(vx, vy, r, c)] == 1;
        assert(before_lex(r, c, row, col + 1));
        assert(partial_collision(screen, mem, i, vx, vy, n, row, col + 1));
    }
    if sprite_bit(mem[i + row], col) == 1 && screen[cell_index(vx, vy, row, col)] == 1 {
        assert(before_lex(row, col, row, col + 1));
        assert(partial_collision(screen, mem, i, vx, vy, n, row, col + 1));
    }
}

/// Finishing a row of the sweep is the same as standing at the start of
/// the next row.
pub proof fn lemma_partial_row_shift(
    screen: Seq<u8>,
    mem: Seq<u8>,
    i: u16,
    vx: u8,
    vy: u8,
    n: u8,
    row: int,
)
    requires
        0 <= row < n,
    ensures
        forall|p: int, old_px: u8|
            #![trigger partial_pixel(mem, i, vx, vy, n, old_px, p, row, 8)]
            partial_pixel(mem, i, vx, vy, n, old_px, p, row, 8) == partial_pixel(
                mem,
                i,
                vx,
                vy,
                n,
                old_px,
                p,
                row + 1,
                0,
            ),
        partial_collision(screen, mem, i, vx, vy, n, row, 8) == partial_collision(
            screen,
            mem,
            i,
            vx,
            vy,
            n,
            row + 1,
            0,
        ),
{
    if partial_collision(screen, mem, i, vx, vy, n, row, 8) {
        let (r, c) = choose|r: int, c: int|
            0 <= r < n && 0 <= c < 8 && before_lex(r, c, row, 8) && #[trigger] sprite_bit(
                mem[i + r],
                c,
            ) == 1 && screen[#[trigger] cell_index(vx, vy, r, c)] == 1;
        assert(before_lex(r, c, row + 1, 0));
        assert(partial_collision(screen, mem, i, vx, vy, n, row + 1, 0));
    }
    if partial_collision(screen, mem, i, vx, vy, n, row + 1, 0) {
        let (r, c) = choose|r: int, c: int|
            0 <= r < n && 0 <= c < 8 && before_lex(r, c, row + 1, 0) && #[trigger] sprite_bit(
                mem[i + r],
                c,
            ) == 1 && screen[#[trigger] cell_index(vx, vy, r, c)] == 1;
        assert(before_lex(r, c, row, 8));
        assert(partial_collision(screen, mem, i, vx, vy, n, row, 8));
    }
}

/// A finished sweep is the full blit.
pub proof fn lemma_partial_full(screen: Seq<u8>, mem: Seq<u8>, i: u16, vx: u8, vy: u8, n: u8)
    ensures
        forall|p: int, old_px: u8|
            #![trigger partial_pixel(mem, i, vx, vy, n, old_px, p, n as int, 0)]
            partial_pixel(mem, i, vx, vy, n, old_px, p, n as int, 0) == blit_pixel(
                mem,
                i,
                vx,
                vy,
                n,
                old_px,
                p,
            ),
        partial_collision(screen, mem, i, vx, vy, n, n as int, 0) == blit_collision(
            screen,
            mem,
            i,
            vx,
            vy,
            n,
        ),
{
    if partial_collision(screen, mem, i, vx, vy, n, n as int, 0) {
        let (r, c) = choose|r: int, c: int|
            0 <= r < n && 0 <= c < 8 && before_lex(r, c, n as int, 0) && #[trigger] sprite_bit(
                mem[i + r],
                c,
            ) == 1 && screen[#[trigger] cell_index(vx, vy, r, c)] == 1;
        assert(blit_collision(screen, mem, i, vx, vy, n));
    }
    if blit_collision(screen, mem, i, vx, vy, n) {
        let (r, c) = choose|r: int, c: int|
            0 <= r < n && 0 <= c < 8 && #[trigger] sprite_bit(mem[i + r], c) == 1
                && screen[#[trigger] cell_index(vx, vy, r, c)] == 1;
        assert(before_lex(r, c, n as int, 0));
        assert(partial_collision(screen, mem, i, vx, vy, n, n as int, 0));
    }
}

/// Blitting the same sprite twice restores the framebuffer, and the
/// second blit collides exactly where a sprite bit of 1 lies over a
/// pixel that was clear before the first blit (the first blit turned
/// every such pixel on).
pub proof fn lemma_blit_round_trip(screen: Seq<u8>, mem: Seq<u8>, i: u16, vx: u8, vy: u8, n: u8)
    requires
        screen.len() == SCREEN_SIZE,
        forall|p: int| 0 <= p < SCREEN_SIZE ==> #[trigger] screen[p] <= 1,
        n < 32,
    ensures
        blit_screen(blit_screen(screen, mem, i, vx, vy, n), mem, i, vx, vy, n) == screen,
        blit_collision(blit_screen(screen, mem, i, vx, vy, n), mem, i, vx, vy, n) == (exists|
            r: int,
            c: int,
        |
            0 <= r < n && 0 <= c < 8 && #[trigger] sprite_bit(mem[i + r], c) == 1
                && screen[#[trigger] cell_index(vx, vy, r, c)] == 0),
{
    let s1 = blit_screen(screen, mem, i, vx, vy, n);
    let s2 = blit_screen(s1, mem, i, vx, vy, n);
    assert forall|p: int| 0 <= p < SCREEN_SIZE implies #[trigger] s2[p] == screen[p] by {
        let r = hit_row(vy, p);
        let c = hit_col(vx, p);
        if r < n && c < 8 {
            lemma_cell_of_hit(vx, vy, p);
            lemma_sprite_bit_le_one(mem[i + r], c);
            lemma_xor_bit(screen[p], sprite_bit(mem[i + r], c));
        }
    }
    assert(s2 =~= screen);
    let hit_clear = exists|r: int, c: int|
        0 <= r < n && 0 <= c < 8 && #[trigger] sprite_bit(mem[i + r], c) == 1
            && screen[#[trigger] cell_index(vx, vy, r, c)] == 0;
    if blit_collision(s1, mem, i, vx, vy, n) {
        let (r, c) = choose|r: int, c: int|
            0 <= r < n && 0 <= c < 8 && #[trigger] sprite_bit(mem[i + r], c) == 1
                && s1[#[trigger] cell_index(vx, vy, r, c)] == 1;
        lemma_cell_round_trip(vx, vy, r, c);
        let p = cell_index(vx, vy, r, c);
        assert(s1[p] == screen[p] ^ sprite_bit(mem[i + r], c));
        lemma_xor_bit(screen[p], sprite_bit(mem[i + r], c));
        assert(screen[p] == 0);
        assert(hit_clear);
    }
    if hit_clear {
        let (r, c) = choose|r: int, c: int|
            0 <= r < n && 0 <= c < 8 && #[trigger] sprite_bit(mem[i + r], c) == 1
                && screen[#[trigger] cell_index(vx, vy, r, c)] == 0;
        lemma_cell_round_trip(vx, vy, r, c);
        let p = cell_index(vx, vy, r, c);
        assert(s1[p] == screen[p] ^ sprite_bit(mem[i + r], c));
        lemma_xor_bit(screen[p], sprite_bit(mem[i + r], c));
        assert(s1[p] == 1);
        assert(blit_collision(s1, mem, i, vx, vy, n));
    }
}

/// `(t + r) % m` unwinds to `r` when the base offset `t % m` is taken
/// back out, for any row or column offset `r` below the wrap modulus `m`.
proof fn lemma_wrap_unwrap(t: int, r: int, m: int)
    requires
        0 <= t,
        0 <= r < m,
    ensures
        ((t + r) % m - (t % m) + m) % m == r,
{
    lemma_add_mod_noop(t, r, m);
    lemma_small_mod(r as nat, m as nat);
    let b = t % m;
    lemma_mod_bound(t, m);
    if b + r < m {
        lemma_small_mod((b + r) as nat, m as nat);
        lemma_fundamental_div_mod_converse(r + m, m, 1, r);
    } else {
        lemma_fundamental_div_mod_converse(b + r, m, 1, b + r - m);
        lemma_small_mod(r as nat, m as nat);
    }
}

/// A sprite cell lands inside the framebuffer, and the row and column
/// that `hit_row` and `hit_col` read back from its position are the ones
/// it was drawn from.
pub proof fn lemma_cell_round_trip(vx: u8, vy: u8, r: int, c: int)
    requires
        0 <= r < SCREEN_HEIGHT,
        0 <= c < SCREEN_WIDTH,
    ensures
        0 <= cell_index(vx, vy, r, c) < SCREEN_SIZE,
        hit_row(vy, cell_index(vx, vy, r, c)) == r,
        hit_col(vx, cell_index(vx, vy, r, c)) == c,
{
    let w = SCREEN_WIDTH as int;
    let h = SCREEN_HEIGHT as int;
    let row = (vy + r) % h;
    let col = (vx + c) % w;
    lemma_mod_bound(vy + r, h);
    lemma_mod_bound(vx + c, w);
    let p = cell_index(vx, vy, r, c);
    assert(p == row * w + col);
    lemma_fundamental_div_mod_converse(p, w, row, col);
    assert(p / w == row && p % w == col);
    lemma_wrap_unwrap(vy as int, r, h);
    lemma_wrap_unwrap(vx as int, c, w);
}

/// Every framebuffer position is the cell of the row and column that the
/// inverse maps assign to it, whenever those fall in range.
pub proof fn lemma_cell_of_hit(vx: u8, vy: u8, p: int)
    requires
        0 <= p < SCREEN_SIZE,
    ensures
        0 <= hit_row(vy, p) < SCREEN_HEIGHT,
        0 <= hit_col(vx, p) < SCREEN_WIDTH,
        cell_index(vx, vy, hit_row(vy, p), hit_col(vx, p)) == p,
{
    let w = SCREEN_WIDTH as int;
    let h = SCREEN_HEIGHT as int;
    let row = p / w;
    let col = p % w;
    lemma_mod_bound(p, w);
    assert(0 <= row < h) by {
        lemma_fundamental_div_mod_converse(p, w, row, col);
    }
    let r = hit_row(vy, p);
    let c = hit_col(vx, p);
    lemma_mod_bound(row - ((vy as int) % h) + h, h);
    lemma_mod_bound(col - ((vx as int) % w) + w, w);
    lemma_mod_bound(vy as int, h);
    lemma_mod_bound(vx as int, w);
    // (vy + r) % h == row
    lemma_add_mod_noop(vy as int, r, h);
    lemma_small_mod(r as nat, h as nat);
    lemma_small_mod(row as nat, h as nat);
    let by_ = (vy as int) % h;
    if row - by_ >= 0 {
        lemma_fundamental_div_mod_converse(row - by_ + h, h, 1, row - by_);
        lemma_small_mod((by_ + r) as nat, h as nat);
    } else {
        lemma_fundamental_div_mod_converse(row - by_ + h, h, 0, row - by_ + h);
        lemma_fundamental_div_mod_converse(by_ + r, h, 1, by_ + r - h);
    }
    assert((vy + r) % h == row);
    // (vx + c) % w == col
    lemma_add_mod_noop(vx as int, c, w);
    lemma_small_mod(c as nat, w as nat);
    lemma_small_mod(col as nat, w as nat);
    let bx = (vx as int) % w;
    if col - bx >= 0 {
        lemma_fundamental_div_mod_converse(col - bx + w, w, 1, col - bx);
        lemma_small_mod((bx + c) as nat, w as nat);
    } else {
        lemma_fundamental_div_mod_converse(col - bx + w, w, 0, col - bx + w);
        lemma_fundamental_div_mod_converse(bx + c, w, 1, bx + c - w);
    }
    assert((vx + c) % w == col);
}

} // verus!
