//! Snake boot animation for the MIDI Fighter 64.
//!
//! The snake follows a closed Hamiltonian cycle through the 8×8 grid with
//! dynamic shortcutting: when the apple is in sight it takes grid moves
//! toward it, but a shortcut is only taken if
//! `cycle_dist(head, next) < cycle_dist(head, tail)` and it does not skip
//! past the apple on the cycle; otherwise the snake follows the cycle.
//!
//! Cells are addressed by their position on the cycle (0..63). Half steps
//! light the entry LED of the incoming cell and dim the exit LED of the tail
//! cell for smooth sub-cell motion; full steps commit the move.

use vstd::prelude::*;

use crate::buttons::{cell_button, cell_to_btn, lemma_cell_button_bijective};
use crate::led::{black, with_button, Color, TOTAL_LEDS};
use crate::rng::{lcg, lcg_iter, next_rand};

verus! {

// ── Layout & Hamiltonian cycle mapping ───────────────────────────────────────

/// The grid cell `(row, col)` at position `pos` (0..63) of the Hamiltonian
/// cycle: row 0 left to right, then rows 1..7 snaking over columns 1..7,
/// and back down column 0.
#[verifier::opaque]
pub open spec fn cycle_cell(pos: int) -> (int, int) {
    if pos <= 7 {
        (0, pos)
    } else if pos <= 14 {
        (1, 7 - (pos - 8))
    } else if pos <= 21 {
        (2, 1 + (pos - 15))
    } else if pos <= 28 {
        (3, 7 - (pos - 22))
    } else if pos <= 35 {
        (4, 1 + (pos - 29))
    } else if pos <= 42 {
        (5, 7 - (pos - 36))
    } else if pos <= 49 {
        (6, 1 + (pos - 43))
    } else if pos <= 57 {
        (7, 7 - (pos - 50))
    } else {
        (6 - (pos - 58), 0)
    }
}

/// The cycle position of grid cell `(row, col)`.
pub open spec fn cell_pos(row: int, col: int) -> int {
    if row == 0 {
        col
    } else if col == 0 {
        64 - row
    } else if row == 7 {
        50 + (7 - col)
    } else if row % 2 == 1 {
        8 + 7 * (row - 1) + (7 - col)
    } else {
        8 + 7 * (row - 1) + (col - 1)
    }
}

/// Forward distance from `from` to `to` along the cycle (0..63).
pub open spec fn cycle_distance(from: int, to: int) -> int {
    (to + 64 - from) % 64
}

pub open spec fn abs_diff(a: int, b: int) -> int {
    if a >= b {
        a - b
    } else {
        b - a
    }
}

/// Manhattan distance between the cells of two cycle positions.
pub open spec fn grid_distance(p1: int, p2: int) -> int {
    abs_diff(cycle_cell(p1).0, cycle_cell(p2).0) + abs_diff(cycle_cell(p1).1, cycle_cell(p2).1)
}

/// The cycle visits every cell once: the position-to-cell map lands in the
/// grid and the cell-to-position map undoes it.
pub proof fn lemma_cycle_cell_inverse(pos: int)
    requires
        0 <= pos < 64,
    ensures
        0 <= cycle_cell(pos).0 < 8,
        0 <= cycle_cell(pos).1 < 8,
        cell_pos(cycle_cell(pos).0, cycle_cell(pos).1) == pos,
{
    reveal(cycle_cell);
}

/// Every grid cell is on the cycle, at the position whose cell it is.
pub proof fn lemma_cell_pos_inverse(row: int, col: int)
    requires
        0 <= row < 8,
        0 <= col < 8,
    ensures
        0 <= cell_pos(row, col) < 64,
        cycle_cell(cell_pos(row, col)) == (row, col),
{
    reveal(cycle_cell);
}

/// The cycle is closed and Hamiltonian: consecutive positions (including
/// 63 back to 0) are grid neighbours.
pub proof fn lemma_cycle_steps_adjacent(pos: int)
    requires
        0 <= pos < 64,
    ensures
        grid_distance(pos, (pos + 1) % 64) == 1,
{
    reveal(cycle_cell);
}

/// The grid cell of cycle position `pos` (taken modulo 64).
pub fn pos_to_cell(pos: u8) -> (cell: (u8, u8))
    ensures
        cell.0 as int == cycle_cell(pos as int % 64).0,
        cell.1 as int == cycle_cell(pos as int % 64).1,
        cell.0 < 8,
        cell.1 < 8,
{
    reveal(cycle_cell);
    let p = pos % 64;
    if p <= 7 {
        (0, p)
    } else if p <= 14 {
        (1, 7 - (p - 8))
    } else if p <= 21 {
        (2, 1 + (p - 15))
    } else if p <= 28 {
        (3, 7 - (p - 22))
    } else if p <= 35 {
        (4, 1 + (p - 29))
    } else if p <= 42 {
        (5, 7 - (p - 36))
    } else if p <= 49 {
        (6, 1 + (p - 43))
    } else if p <= 57 {
        (7, 7 - (p - 50))
    } else {
        (6 - (p - 58), 0)
    }
}

/// The cycle position of grid cell `(row, col)` (each taken modulo 8).
pub fn cell_to_pos(row: u8, col: u8) -> (pos: u8)
    ensures
        pos as int == cell_pos(row as int % 8, col as int % 8),
        pos < 64,
{
    let r = row % 8;
    let c = col % 8;
    if r == 0 {
        c
    } else if c == 0 {
        64 - r
    } else if r == 7 {
        50 + (7 - c)
    } else if r % 2 == 1 {
        8 + 7 * (r - 1) + (7 - c)
    } else {
        8 + 7 * (r - 1) + (c - 1)
    }
}

/// Forward distance between two positions along the cycle (0–63).
pub fn cycle_dist(from: u8, to: u8) -> (d: u8)
    requires
        to + 64 <= u8::MAX,
        from <= to + 64,
    ensures
        d as int == cycle_distance(from as int, to as int),
{
    (to + 64 - from) % 64
}

fn abs_diff_u8(a: u8, b: u8) -> (d: u8)
    ensures
        d as int == abs_diff(a as int, b as int),
{
    if a >= b {
        a - b
    } else {
        b - a
    }
}

/// Manhattan grid distance between the cells of two cycle positions.
pub fn grid_dist(pos1: u8, pos2: u8) -> (d: u8)
    ensures
        d as int == grid_distance(pos1 as int % 64, pos2 as int % 64),
        d <= 14,
{
    let (r1, c1) = pos_to_cell(pos1);
    let (r2, c2) = pos_to_cell(pos2);
    abs_diff_u8(r1, r2) + abs_diff_u8(c1, c2)
}


/// The four orthogonal grid neighbours of cycle position `h`, in the order
/// right, left, row below (+1), row above (-1), leaving out those off the grid.
pub open spec fn neighbor_list(h: int) -> Seq<int> {
    let r = cycle_cell(h).0;
    let c = cycle_cell(h).1;
    let s1 = if c < 7 {
        seq![cell_pos(r, c + 1)]
    } else {
        seq![]
    };
    let s2 = if c > 0 {
        s1.push(cell_pos(r, c - 1))
    } else {
        s1
    };
    let s3 = if r < 7 {
        s2.push(cell_pos(r + 1, c))
    } else {
        s2
    };
    if r > 0 {
        s3.push(cell_pos(r - 1, c))
    } else {
        s3
    }
}

/// The neighbour list holds exactly the grid neighbours of `h`.
pub proof fn lemma_neighbor_list(h: int)
    requires
        0 <= h < 64,
    ensures
        forall|k: int|
            0 <= k < neighbor_list(h).len() ==> 0 <= #[trigger] neighbor_list(h)[k] < 64
                && grid_distance(h, neighbor_list(h)[k]) == 1,
        forall|v: int|
            0 <= v < 64 && grid_distance(h, v) == 1 ==> #[trigger] neighbor_list(h).contains(v),
        neighbor_list(h).len() <= 4,
{
    lemma_cycle_cell_inverse(h);
    let r = cycle_cell(h).0;
    let c = cycle_cell(h).1;
    if c < 7 {
        lemma_cell_pos_inverse(r, c + 1);
    }
    if c > 0 {
        lemma_cell_pos_inverse(r, c - 1);
    }
    if r < 7 {
        lemma_cell_pos_inverse(r + 1, c);
    }
    if r > 0 {
        lemma_cell_pos_inverse(r - 1, c);
    }
    let l = neighbor_list(h);
    assert forall|v: int| 0 <= v < 64 && grid_distance(h, v) == 1 implies #[trigger] l.contains(
        v,
    ) by {
        lemma_cycle_cell_inverse(v);
        let vr = cycle_cell(v).0;
        let vc = cycle_cell(v).1;
        let k = choose|k: int| 0 <= k < l.len() && l[k] == cell_pos(vr, vc);
        assert(exists|k: int| 0 <= k < l.len() && l[k] == cell_pos(vr, vc)) by {
            let s1 = if c < 7 {
                seq![cell_pos(r, c + 1)]
            } else {
                seq![]
            };
            let s2 = if c > 0 {
                s1.push(cell_pos(r, c - 1))
            } else {
                s1
            };
            let s3 = if r < 7 {
                s2.push(cell_pos(r + 1, c))
            } else {
                s2
            };
            if vr == r && vc == c + 1 {
                assert(l[0] == cell_pos(vr, vc));
            } else if vr == r && vc == c - 1 {
                assert(l[s1.len() as int] == cell_pos(vr, vc));
            } else if vr == r + 1 {
                assert(vc == c);
                assert(l[s2.len() as int] == cell_pos(vr, vc));
            } else {
                assert(vr == r - 1 && vc == c);
                assert(l[s3.len() as int] == cell_pos(vr, vc));
            }
        }
        assert(l[k] == v);
    }
}

/// Movement direction between the cells of two cycle positions.
#[derive(Copy, Clone, Debug, PartialEq, Eq, Structural)]
pub enum Dir {
    Right,
    Left,
    Up,
    Down,
}

/// Direction of the move from `from` to `to`: right or left when the column
/// steps by one (wrapping), up when the row steps up by one, down otherwise.
pub open spec fn direction(from: int, to: int) -> Dir {
    let f = cycle_cell(from);
    let t = cycle_cell(to);
    if t.1 == (f.1 + 1) % 8 {
        Dir::Right
    } else if t.1 == (f.1 + 7) % 8 {
        Dir::Left
    } else if t.0 == (f.0 + 1) % 8 {
        Dir::Up
    } else {
        Dir::Down
    }
}

/// Movement direction from `from_pos` to `to_pos`.
pub fn get_dir(from_pos: u8, to_pos: u8) -> (d: Dir)
    ensures
        d == direction(from_pos as int % 64, to_pos as int % 64),
{
    let (fr, fc) = pos_to_cell(from_pos);
    let (tr, tc) = pos_to_cell(to_pos);
    if tc == (fc + 1) % 8 {
        Dir::Right
    } else if tc == (fc + 7) % 8 {
        Dir::Left
    } else if tr == (fr + 1) % 8 {
        Dir::Up
    } else {
        Dir::Down
    }
}

// ── Tuning constants ──────────────────────────────────────────────────────────

pub const INIT_LEN: u8 = 3;
pub const INIT_APPLE_PATH: u8 = 27;
pub const RESTART_LEN: u8 = 60;
pub const PAUSE_TICKS: u8 = 5;
pub const INIT_SEED: u16 = 0xACE1;
/// LCG steps taken on every restart.
pub const RESET_SHUFFLE: u8 = 11;

/// Snake head: brightest green.
pub open spec fn color_head() -> Color {
    Color { r: 0, g: 210, b: 0 }
}

/// Body segments at odd distance from the head: medium green.
pub open spec fn color_body_light() -> Color {
    Color { r: 0, g: 100, b: 0 }
}

/// Body segments at even distance from the head: dark green.
pub open spec fn color_body_dark() -> Color {
    Color { r: 0, g: 35, b: 0 }
}

/// Apple: red.
pub open spec fn color_apple() -> Color {
    Color { r: 220, g: 0, b: 0 }
}

// ── Model ─────────────────────────────────────────────────────────────────────

/// The snake simulation as plain values.
pub struct SnakeModel {
    /// Ring buffer of cycle positions; segment `i` from the head is at
    /// index `(head_idx - i) mod 64`.
    pub segs: Seq<u8>,
    pub head_idx: int,
    pub len: int,
    /// Apple position on the cycle.
    pub apple: u8,
    pub lfsr: u16,
    pub step_count: u16,
    pub should_grow: bool,
    pub pause_ticks: u8,
    pub sub_step: bool,
    pub next_head: u8,
    pub next_dir: Dir,
    pub tail_path: u8,
    pub tail_dir: Dir,
    pub tail_removing: bool,
}

/// Cycle position of segment `i` counted from the head.
pub open spec fn seg(m: SnakeModel, i: int) -> int {
    m.segs[(m.head_idx + 64 - i) % 64] as int
}

pub open spec fn head_of(m: SnakeModel) -> int {
    seg(m, 0)
}

pub open spec fn tail_of(m: SnakeModel) -> int {
    seg(m, m.len - 1)
}

/// Segments that block a cell: the whole body while growing, the body
/// without its tail (which moves away) otherwise.
pub open spec fn blocking_len(m: SnakeModel) -> int {
    if m.should_grow {
        m.len
    } else {
        m.len - 1
    }
}

/// Cycle position `pos` is taken by a blocking body segment.
pub open spec fn occupied(m: SnakeModel, pos: int) -> bool {
    exists|i: int| 0 <= i < blocking_len(m) && #[trigger] seg(m, i) == pos
}

/// The move that follows the cycle.
pub open spec fn cycle_step(m: SnakeModel) -> int {
    (head_of(m) + 1) % 64
}

/// A legal move: a free grid neighbour of the head that either follows the
/// cycle or is a safe shortcut: it stays ahead of the tail and does not skip
/// the apple on the cycle.
pub open spec fn valid_move(m: SnakeModel, n: int) -> bool {
    let h = head_of(m);
    &&& 0 <= n < 64
    &&& grid_distance(h, n) == 1
    &&& !occupied(m, n)
    &&& (n == cycle_step(m) || (cycle_distance(h, n) < cycle_distance(h, tail_of(m))
        && cycle_distance(h, n) <= cycle_distance(h, m.apple as int)))
}

/// `a` scores better than `b`: closer to the apple on the grid, then along the cycle.
pub open spec fn better(m: SnakeModel, a: int, b: int) -> bool {
    let ga = grid_distance(a, m.apple as int);
    let gb = grid_distance(b, m.apple as int);
    ga < gb || (ga == gb && cycle_distance(a, m.apple as int) < cycle_distance(
        b,
        m.apple as int,
    ))
}

/// `n` is the chosen move: the best-scoring legal move, or the cycle step
/// when no move is legal.
pub open spec fn is_best_move(m: SnakeModel, n: int) -> bool {
    if exists|v: int| valid_move(m, v) {
        valid_move(m, n) && forall|v: int| valid_move(m, v) ==> !better(m, v, n)
    } else {
        n == cycle_step(m)
    }
}

/// The chosen move.
pub open spec fn best_move(m: SnakeModel) -> int {
    choose|n: int| is_best_move(m, n)
}

/// The chosen move is unique: the score orders distinct cells strictly.
pub proof fn lemma_best_move_unique(m: SnakeModel, a: int, b: int)
    requires
        0 <= m.apple < 64,
        is_best_move(m, a),
        is_best_move(m, b),
    ensures
        a == b,
{
    if exists|v: int| valid_move(m, v) {
        assert(!better(m, a, b));
        assert(!better(m, b, a));
        assert(cycle_distance(a, m.apple as int) == cycle_distance(b, m.apple as int));
        assert(0 <= a < 64 && 0 <= b < 64);
    }
}

/// Structural well-formedness: positions on the cycle, the length within
/// its range, growth only below the restart length.
pub open spec fn shape_wf(m: SnakeModel) -> bool {
    &&& m.segs.len() == 64
    &&& 0 <= m.head_idx < 64
    &&& INIT_LEN <= m.len <= RESTART_LEN
    &&& forall|i: int| 0 <= i < 64 ==> #[trigger] m.segs[i] < 64
    &&& m.apple < 64
    &&& m.next_head < 64
    &&& m.tail_path < 64
    &&& m.pause_ticks <= PAUSE_TICKS
    &&& m.should_grow && m.pause_ticks == 0 ==> m.len < RESTART_LEN
}

/// Moves granted by the apples eaten so far: 64 per growth.
pub open spec fn move_budget(m: SnakeModel) -> int {
    64 * (m.len - 2 + if m.should_grow {
        1int
    } else {
        0int
    })
}

/// Well-formed model: structurally sound, the apple off the head while
/// playing, and the step counter bounded by the moves granted so far plus
/// the distance still to go to the apple (so it never overflows).
pub open spec fn model_wf(m: SnakeModel) -> bool {
    &&& shape_wf(m)
    &&& m.pause_ticks == 0 ==> m.apple != head_of(m)
    &&& m.step_count + cycle_distance(head_of(m), m.apple as int) <= move_budget(m) + 63
}

/// The step counter leaves room for an apple anywhere on the cycle.
pub open spec fn room_for_apple(m: SnakeModel) -> bool {
    m.step_count <= move_budget(m)
}

/// The grid neighbours of `head_pos` in the order of [`neighbor_list`].
fn neighbors_of(head_pos: u8) -> (out: ([u8; 4], usize))
    requires
        head_pos < 64,
    ensures
        out.1 == neighbor_list(head_pos as int).len(),
        forall|k: int| 0 <= k < out.1 ==> out.0@[k] as int == neighbor_list(head_pos as int)[k],
{
    let (hr, hc) = pos_to_cell(head_pos);
    let ghost r = hr as int;
    let ghost c = hc as int;
    let mut neighbors = [0u8; 4];
    let mut n_count: usize = 0;
    let ghost mut l: Seq<int> = seq![];
    if hc < 7 {
        neighbors[n_count] = cell_to_pos(hr, hc + 1);
        proof {
            l = l.push(cell_pos(r, c + 1));
        }
        n_count += 1;
    }
    assert(n_count == l.len() && forall|k: int| 0 <= k < n_count ==> neighbors@[k] as int == l[k]);
    if hc > 0 {
        neighbors[n_count] = cell_to_pos(hr, hc - 1);
        proof {
            l = l.push(cell_pos(r, c - 1));
        }
        n_count += 1;
    }
    assert(n_count == l.len() && forall|k: int| 0 <= k < n_count ==> neighbors@[k] as int == l[k]);
    if hr < 7 {
        neighbors[n_count] = cell_to_pos(hr + 1, hc);
        proof {
            l = l.push(cell_pos(r + 1, c));
        }
        n_count += 1;
    }
    assert(n_count == l.len() && forall|k: int| 0 <= k < n_count ==> neighbors@[k] as int == l[k]);
    if hr > 0 {
        neighbors[n_count] = cell_to_pos(hr - 1, hc);
        proof {
            l = l.push(cell_pos(r - 1, c));
        }
        n_count += 1;
    }
    assert(l =~= neighbor_list(head_pos as int));
    (neighbors, n_count)
}

/// After scanning all grid neighbours, the kept candidate is the chosen move.
proof fn lemma_best_of_neighbors(m: SnakeModel, best: int, found: bool)
    requires
        0 <= head_of(m) < 64,
        found ==> valid_move(m, best) && forall|j: int|
            0 <= j < neighbor_list(head_of(m)).len() && valid_move(
                m,
                #[trigger] neighbor_list(head_of(m))[j],
            ) ==> !better(m, neighbor_list(head_of(m))[j], best),
        !found ==> best == cycle_step(m) && forall|j: int|
            0 <= j < neighbor_list(head_of(m)).len() ==> !valid_move(
                m,
                #[trigger] neighbor_list(head_of(m))[j],
            ),
    ensures
        is_best_move(m, best),
{
    let nl = neighbor_list(head_of(m));
    lemma_neighbor_list(head_of(m));
    if exists|v: int| valid_move(m, v) {
        let v = choose|v: int| valid_move(m, v);
        assert(nl.contains(v));
        let j = choose|j: int| 0 <= j < nl.len() && nl[j] == v;
        assert(valid_move(m, nl[j]));
        assert(found);
        assert forall|w: int| valid_move(m, w) implies !better(m, w, best) by {
            assert(nl.contains(w));
            let jw = choose|jw: int| 0 <= jw < nl.len() && nl[jw] == w;
            assert(valid_move(m, nl[jw]));
        }
    } else {
        if found {
            assert(valid_move(m, best));
        }
    }
}


/// The first free cell scanning the cycle forward from `start + k`, over the
/// remaining `64 - k` positions.
#[verifier::opaque]
pub open spec fn free_from(m: SnakeModel, start: int, k: int) -> Option<int>
    decreases 64 - k,
{
    if k >= 64 {
        None
    } else if !occupied(m, (start + k) % 64) {
        Some((start + k) % 64)
    } else {
        free_from(m, start, k + 1)
    }
}

/// Placing an apple: advance the generator, then put the apple on the first
/// free cell scanning forward from the generator's low 6 bits; with no free
/// cell the game pauses before restarting.
pub open spec fn place_apple_spec(m: SnakeModel) -> SnakeModel {
    let m1 = SnakeModel { lfsr: lcg(m.lfsr), ..m };
    match free_from(m1, m1.lfsr as int % 64, 0) {
        Some(p) => SnakeModel { apple: p as u8, ..m1 },
        None => SnakeModel { pause_ticks: PAUSE_TICKS, ..m1 },
    }
}

/// The starting snake: cells 0, 1, 2 with the head on 2.
pub open spec fn initial_segs() -> Seq<u8> {
    Seq::new(64, |i: int| if i < 3 { i as u8 } else { 0u8 })
}

/// Restart: the starting snake, the generator shuffled, a new apple.
pub open spec fn reset_spec(m: SnakeModel) -> SnakeModel {
    place_apple_spec(
        SnakeModel {
            segs: initial_segs(),
            head_idx: 2,
            len: INIT_LEN as int,
            lfsr: lcg_iter(m.lfsr, RESET_SHUFFLE as nat),
            step_count: 0,
            should_grow: false,
            pause_ticks: 0,
            sub_step: false,
            ..m
        },
    )
}

/// The head advancing to `n`: the ring buffer gains `n` as its new head, a
/// pending growth is applied and the step counter counts the move.
pub open spec fn advance(m: SnakeModel, n: int) -> SnakeModel {
    let hi = (m.head_idx + 1) % 64;
    SnakeModel {
        segs: m.segs.update(hi, n as u8),
        head_idx: hi,
        len: if m.should_grow {
            m.len + 1
        } else {
            m.len
        },
        should_grow: false,
        step_count: (m.step_count + 1) as u16,
        ..m
    }
}

/// A committed move to `n` (no pause): the head advances, and eating the
/// apple schedules growth and a new apple, or the restart pause once the
/// snake is long enough.
pub open spec fn move_spec(m: SnakeModel, n: int) -> SnakeModel {
    let m1 = advance(m, n);
    if n == m.apple {
        let m2 = SnakeModel { should_grow: true, ..m1 };
        if m1.len >= RESTART_LEN {
            SnakeModel { pause_ticks: PAUSE_TICKS, ..m2 }
        } else {
            place_apple_spec(m2)
        }
    } else {
        m1
    }
}

/// A full step: during the pause count down and restart at zero, otherwise
/// take the chosen move.
pub open spec fn step_spec(m: SnakeModel) -> SnakeModel {
    let m0 = SnakeModel { sub_step: false, ..m };
    if m.pause_ticks > 0 {
        let m1 = SnakeModel { pause_ticks: (m.pause_ticks - 1) as u8, ..m0 };
        if m1.pause_ticks == 0 {
            reset_spec(m1)
        } else {
            m1
        }
    } else {
        move_spec(m0, best_move(m0))
    }
}

/// A half step: preview the chosen move (and the tail that will leave)
/// for sub-cell smoothing.
pub open spec fn half_step_spec(m: SnakeModel) -> SnakeModel {
    if m.pause_ticks > 0 {
        m
    } else {
        let n = best_move(m);
        let m1 = SnakeModel {
            next_head: n as u8,
            next_dir: direction(head_of(m), n),
            tail_removing: !m.should_grow,
            sub_step: true,
            ..m
        };
        if !m.should_grow {
            SnakeModel {
                tail_path: tail_of(m) as u8,
                tail_dir: direction(seg(m, m.len - 2), tail_of(m)),
                ..m1
            }
        } else {
            m1
        }
    }
}

/// Button of a cycle position.
pub open spec fn btn_of(pos: int) -> int {
    cell_button(cycle_cell(pos).0, cycle_cell(pos).1)
}

/// Colour of the segment `i` cells behind the head.
pub open spec fn segment_color(i: int) -> Color {
    if i == 0 {
        color_head()
    } else if i % 2 == 1 {
        color_body_light()
    } else {
        color_body_dark()
    }
}

/// The body painted from the tail (segment `len - 1`) up to segment `i`.
pub open spec fn paint_body(m: SnakeModel, leds: Seq<Color>, i: int) -> Seq<Color>
    decreases m.len - i,
{
    if i < 0 || i >= m.len {
        leds
    } else {
        with_button(paint_body(m, leds, i + 1), btn_of(seg(m, i)), segment_color(i))
    }
}

/// All 128 LEDs off.
pub open spec fn dark_frame() -> Seq<Color> {
    Seq::new(TOTAL_LEDS as nat, |i: int| black())
}

/// The LED frame of a game state: dark while paused; otherwise the body
/// (head brightest, alternating body shades), the apple on top, and on a
/// half step the entry LED of the next head cell lit and the exit LED of the
/// leaving tail cell dark.
pub open spec fn frame(m: SnakeModel) -> Seq<Color> {
    if m.pause_ticks > 0 {
        dark_frame()
    } else {
        let body = paint_body(m, dark_frame(), 0);
        let with_apple = with_button(body, btn_of(m.apple as int), color_apple());
        if m.sub_step {
            let nb = btn_of(m.next_head as int);
            let l1 = match m.next_dir {
                Dir::Right | Dir::Up => with_apple.update(2 * nb, color_head()),
                _ => with_apple.update(2 * nb + 1, color_head()),
            };
            if m.tail_removing {
                let tb = btn_of(m.tail_path as int);
                match m.tail_dir {
                    Dir::Right | Dir::Up => l1.update(2 * tb + 1, black()),
                    _ => l1.update(2 * tb, black()),
                }
            } else {
                l1
            }
        } else {
            with_apple
        }
    }
}

/// The colours of the animation: off, the head, the two body shades and the apple.
pub open spec fn is_frame_color(c: Color) -> bool {
    c == black() || c == color_head() || c == color_body_light() || c == color_body_dark() || c
        == color_apple()
}

/// A full LED buffer holding only animation colours.
pub open spec fn frame_colors_only(l: Seq<Color>) -> bool {
    &&& l.len() == TOTAL_LEDS
    &&& forall|k: int| 0 <= k < l.len() ==> #[trigger] is_frame_color(l[k])
}

/// The button of a cycle position is on the grid.
proof fn lemma_btn_of_in_grid(pos: int)
    requires
        0 <= pos < 64,
    ensures
        0 <= btn_of(pos) < 64,
{
    lemma_cycle_cell_inverse(pos);
    lemma_cell_button_bijective(cycle_cell(pos).0, cycle_cell(pos).1, 0, 0);
}

/// Painting a button in an animation colour keeps a buffer of animation colours.
proof fn lemma_paint_keeps_colors(l: Seq<Color>, idx: int, c: Color)
    requires
        frame_colors_only(l),
        0 <= idx < TOTAL_LEDS,
        is_frame_color(c),
    ensures
        frame_colors_only(l.update(idx, c)),
{
    assert forall|k: int| 0 <= k < l.update(idx, c).len() implies #[trigger] is_frame_color(
        l.update(idx, c)[k],
    ) by {
        if k != idx {
            assert(l.update(idx, c)[k] == l[k]);
        }
    }
}

proof fn lemma_paint_body_colors(m: SnakeModel, leds: Seq<Color>, i: int)
    requires
        shape_wf(m),
        frame_colors_only(leds),
        0 <= i,
    ensures
        frame_colors_only(paint_body(m, leds, i)),
    decreases m.len - i,
{
    if i < m.len {
        lemma_paint_body_colors(m, leds, i + 1);
        let prev = paint_body(m, leds, i + 1);
        let b = btn_of(seg(m, i));
        assert(0 <= seg(m, i) < 64);
        lemma_btn_of_in_grid(seg(m, i));
        let c = segment_color(i);
        lemma_paint_keeps_colors(prev, 2 * b, c);
        lemma_paint_keeps_colors(prev.update(2 * b, c), 2 * b + 1, c);
    }
}

/// Every frame of the animation is a full buffer of its five colours (all
/// off while paused), and depends on the game state alone.
pub proof fn lemma_frame_colors(m: SnakeModel)
    requires
        shape_wf(m),
    ensures
        frame_colors_only(frame(m)),
        m.pause_ticks > 0 ==> frame(m) == dark_frame(),
{
    assert(frame_colors_only(dark_frame()));
    if m.pause_ticks == 0 {
        lemma_paint_body_colors(m, dark_frame(), 0);
        let body = paint_body(m, dark_frame(), 0);
        let ab = btn_of(m.apple as int);
        lemma_btn_of_in_grid(m.apple as int);
        lemma_paint_keeps_colors(body, 2 * ab, color_apple());
        let wa = with_button(body, ab, color_apple());
        lemma_paint_keeps_colors(body.update(2 * ab, color_apple()), 2 * ab + 1, color_apple());
        if m.sub_step {
            let nb = btn_of(m.next_head as int);
            lemma_btn_of_in_grid(m.next_head as int);
            lemma_paint_keeps_colors(wa, 2 * nb, color_head());
            lemma_paint_keeps_colors(wa, 2 * nb + 1, color_head());
            let l1 = match m.next_dir {
                Dir::Right | Dir::Up => wa.update(2 * nb, color_head()),
                _ => wa.update(2 * nb + 1, color_head()),
            };
            let tb = btn_of(m.tail_path as int);
            lemma_btn_of_in_grid(m.tail_path as int);
            lemma_paint_keeps_colors(l1, 2 * tb, black());
            lemma_paint_keeps_colors(l1, 2 * tb + 1, black());
        }
    }
}

/// Moving from `h` to `n` covers part of the way to `a` on the cycle when `n`
/// is no further along than `a`.
pub proof fn lemma_cycle_dist_split(h: int, n: int, a: int)
    requires
        0 <= h < 64,
        0 <= n < 64,
        0 <= a < 64,
        cycle_distance(h, n) <= cycle_distance(h, a),
    ensures
        cycle_distance(n, a) == cycle_distance(h, a) - cycle_distance(h, n),
{
}

/// Every chosen move brings the head strictly closer to the apple along the
/// cycle (shortcuts never skip the apple), so the snake reaches an apple
/// within 63 moves of its placement.
pub proof fn lemma_move_approaches_apple(m: SnakeModel, n: int)
    requires
        model_wf(m),
        m.pause_ticks == 0,
        is_best_move(m, n),
    ensures
        0 <= n < 64,
        n != head_of(m),
        cycle_distance(n, m.apple as int) < cycle_distance(head_of(m), m.apple as int),
{
    let h = head_of(m);
    let a = m.apple as int;
    assert(0 <= h < 64);
    if n == cycle_step(m) {
        assert(cycle_distance(h, n) == 1);
    } else {
        assert(valid_move(m, n));
        assert(grid_distance(h, h) == 0);
        assert(n != h);
    }
    lemma_cycle_dist_split(h, n, a);
}

/// Advancing the head by a chosen move keeps the shape and the move budget
/// and puts the new head on `n`.
proof fn lemma_advance(m: SnakeModel, n: int)
    requires
        model_wf(m),
        m.pause_ticks == 0,
        0 <= n < 64,
    ensures
        shape_wf(advance(m, n)),
        head_of(advance(m, n)) == n,
        move_budget(advance(m, n)) == move_budget(m),
        advance(m, n).step_count == m.step_count + 1,
        m.step_count < u16::MAX,
{
    let m1 = advance(m, n);
    let hi = (m.head_idx + 1) % 64;
    assert(m1.segs[hi] == n);
    assert(seg(m1, 0) == m1.segs[hi]);
    assert forall|i: int| 0 <= i < 64 implies #[trigger] m1.segs[i] < 64 by {
        if i != hi {
            assert(m1.segs[i] == m.segs[i]);
        }
    }
    assert(cycle_distance(head_of(m), m.apple as int) < 64);
}

/// A committed move keeps the game well formed.
proof fn lemma_move_wf(m: SnakeModel, n: int)
    requires
        model_wf(m),
        m.pause_ticks == 0,
        is_best_move(m, n),
    ensures
        model_wf(move_spec(m, n)),
        m.step_count < u16::MAX,
{
    lemma_move_approaches_apple(m, n);
    lemma_advance(m, n);
    let m1 = advance(m, n);
    if n == m.apple {
        let m2 = SnakeModel { should_grow: true, ..m1 };
        assert(head_of(m2) == n);
        if m1.len < RESTART_LEN {
            assert(move_budget(m2) == move_budget(m1) + 64);
            lemma_place_apple_wf(m2);
        } else {
            assert(model_wf(SnakeModel { pause_ticks: PAUSE_TICKS, ..m2 }));
        }
    } else {
        assert(model_wf(m1));
    }
}

/// Restarting yields a well-formed game.
proof fn lemma_reset_wf(m: SnakeModel)
    requires
        m.apple < 64,
        m.next_head < 64,
        m.tail_path < 64,
    ensures
        model_wf(reset_spec(m)),
{
    let r = SnakeModel {
        segs: initial_segs(),
        head_idx: 2,
        len: INIT_LEN as int,
        lfsr: lcg_iter(m.lfsr, RESET_SHUFFLE as nat),
        step_count: 0,
        should_grow: false,
        pause_ticks: 0,
        sub_step: false,
        ..m
    };
    lemma_place_apple_wf(r);
}

/// A full step keeps the game well formed.
pub proof fn lemma_step_wf(m: SnakeModel)
    requires
        model_wf(m),
    ensures
        model_wf(step_spec(m)),
{
    let m0 = SnakeModel { sub_step: false, ..m };
    assert(model_wf(m0));
    if m.pause_ticks > 0 {
        lemma_pause_step_wf(m0);
    } else {
        lemma_best_move_exists(m0);
        lemma_move_wf(m0, best_move(m0));
    }
}

/// The restart pause: while paused a step only counts the pause down,
/// keeping the body and the apple; the step that ends the pause restarts the
/// game with the starting snake. Eating the apple at the restart length
/// starts a pause of [`PAUSE_TICKS`] steps.
pub proof fn lemma_pause_steps(m: SnakeModel, n: int)
    ensures
        m.pause_ticks > 1 ==> {
            let s = step_spec(m);
            &&& s.pause_ticks == m.pause_ticks - 1
            &&& s.segs == m.segs
            &&& s.head_idx == m.head_idx
            &&& s.len == m.len
            &&& s.apple == m.apple
            &&& frame(s) == dark_frame()
        },
        m.pause_ticks == 1 ==> {
            let s = step_spec(m);
            &&& s.segs == initial_segs()
            &&& s.head_idx == 2
            &&& s.len == INIT_LEN
            &&& s.step_count == 0
            &&& !s.should_grow
        },
        m.pause_ticks == 0 && n == m.apple && advance(m, n).len >= RESTART_LEN ==> move_spec(
            m,
            n,
        ).pause_ticks == PAUSE_TICKS,
{
    if m.pause_ticks == 1 {
        let r = SnakeModel {
            segs: initial_segs(),
            head_idx: 2,
            len: INIT_LEN as int,
            lfsr: lcg_iter(m.lfsr, RESET_SHUFFLE as nat),
            step_count: 0,
            should_grow: false,
            pause_ticks: 0,
            sub_step: false,
            ..m
        };
        lemma_place_apple_body(r);
    }
}

/// Counting down the pause keeps the game well formed.
proof fn lemma_pause_step_wf(m0: SnakeModel)
    requires
        model_wf(m0),
        m0.pause_ticks > 0,
    ensures
        model_wf(
            if m0.pause_ticks == 1 {
                reset_spec(SnakeModel { pause_ticks: 0, ..m0 })
            } else {
                SnakeModel { pause_ticks: (m0.pause_ticks - 1) as u8, ..m0 }
            },
        ),
{
    let m1 = SnakeModel { pause_ticks: (m0.pause_ticks - 1) as u8, ..m0 };
    if m1.pause_ticks == 0 {
        lemma_reset_wf(m1);
    } else {
        assert(model_wf(m1));
    }
}

/// Some move is always chosen.
pub proof fn lemma_best_move_exists(m: SnakeModel)
    requires
        model_wf(m),
    ensures
        is_best_move(m, best_move(m)),
{
    let h = head_of(m);
    let nl = neighbor_list(h);
    lemma_neighbor_list(h);
    if exists|v: int| valid_move(m, v) {
        let v0 = choose|v: int| valid_move(m, v);
        assert(nl.contains(v0));
        let b = best_in_list(m, nl, nl.len() as int);
        lemma_best_in_list(m, nl, nl.len() as int);
        assert forall|w: int| valid_move(m, w) implies !better(m, w, b) by {
            assert(nl.contains(w));
        }
        assert(is_best_move(m, b));
    } else {
        assert(is_best_move(m, cycle_step(m)));
    }
}

/// The best legal move among the first `k` entries of `l` (or -1 if none).
pub open spec fn best_in_list(m: SnakeModel, l: Seq<int>, k: int) -> int
    decreases k,
{
    if k <= 0 {
        -1
    } else {
        let b = best_in_list(m, l, k - 1);
        let c = l[k - 1];
        if valid_move(m, c) && (b == -1 || better(m, c, b)) {
            c
        } else {
            b
        }
    }
}

proof fn lemma_best_in_list(m: SnakeModel, l: Seq<int>, k: int)
    requires
        0 <= k <= l.len(),
    ensures
        best_in_list(m, l, k) == -1 ==> forall|j: int| 0 <= j < k ==> !valid_move(m, l[j]),
        best_in_list(m, l, k) != -1 ==> valid_move(m, best_in_list(m, l, k)) && forall|j: int|
            0 <= j < k && valid_move(m, l[j]) ==> !better(m, l[j], best_in_list(m, l, k)),
    decreases k,
{
    if k > 0 {
        lemma_best_in_list(m, l, k - 1);
    }
}

// ── Body order ────────────────────────────────────────────────────────────────

/// The body lies in cycle order behind the head: walking from the head to the
/// tail, each segment is strictly nearer to the tail going forward along the
/// cycle. In particular no two segments share a cell.
pub open spec fn body_ordered(m: SnakeModel) -> bool {
    forall|i: int, j: int|
        0 <= i < j < m.len ==> cycle_distance(tail_of(m), #[trigger] seg(m, i)) > cycle_distance(
            tail_of(m),
            #[trigger] seg(m, j),
        )
}

/// Growth is pending while the head sits directly behind the tail on the
/// cycle: the one state in which no move is legal.
pub open spec fn head_behind_growing_tail(m: SnakeModel) -> bool {
    m.should_grow && cycle_step(m) == tail_of(m)
}

/// Ordered segments are distinct cells.
pub proof fn lemma_ordered_distinct(m: SnakeModel, i: int, j: int)
    requires
        body_ordered(m),
        0 <= i < j < m.len,
    ensures
        seg(m, i) != seg(m, j),
{
    reveal(body_ordered);
    assert(cycle_distance(tail_of(m), seg(m, i)) > cycle_distance(tail_of(m), seg(m, j)));
}

/// Measured from a cell `t2` that lies between `t` and `p`, the distance to
/// `p` shrinks by the distance from `t` to `t2`.
proof fn lemma_cd_rebase(t: int, t2: int, p: int)
    requires
        0 <= t < 64,
        0 <= t2 < 64,
        0 <= p < 64,
        cycle_distance(t, t2) <= cycle_distance(t, p),
    ensures
        cycle_distance(t2, p) == cycle_distance(t, p) - cycle_distance(t, t2),
{
}

/// After the head advances, segment `i` is the old segment `i - 1`.
proof fn lemma_advance_seg(m: SnakeModel, n: int, i: int)
    requires
        0 <= m.head_idx < 64,
        m.segs.len() == 64,
        1 <= i < 64,
    ensures
        seg(advance(m, n), i) == seg(m, i - 1),
{
    let hi = (m.head_idx + 1) % 64;
    let k = (hi + 64 - i) % 64;
    assert(k == (m.head_idx + 64 - (i - 1)) % 64);
    assert(k != hi);
}

/// Every segment is on the cycle and no further from the tail than the head.
proof fn lemma_body_bounds(m: SnakeModel)
    requires
        shape_wf(m),
        body_ordered(m),
    ensures
        forall|i: int|
            0 <= i < m.len ==> 0 <= #[trigger] seg(m, i) < 64 && cycle_distance(
                tail_of(m),
                seg(m, i),
            ) <= cycle_distance(tail_of(m), head_of(m)),
        head_of(m) != tail_of(m),
{
    reveal(body_ordered);
    let t = tail_of(m);
    assert(0 <= t < 64);
    assert forall|i: int| 0 <= i < m.len implies 0 <= #[trigger] seg(m, i) < 64 && cycle_distance(
        t,
        seg(m, i),
    ) <= cycle_distance(t, head_of(m)) by {
        if i > 0 {
            assert(cycle_distance(t, seg(m, 0)) > cycle_distance(t, seg(m, i)));
        }
    }
    lemma_ordered_distinct(m, 0, m.len - 1);
}

/// Outside the corner case the cycle step is a legal move.
#[verifier::rlimit(40)]
proof fn lemma_cycle_step_valid(m: SnakeModel)
    requires
        shape_wf(m),
        body_ordered(m),
        !head_behind_growing_tail(m),
    ensures
        valid_move(m, cycle_step(m)),
{
    let h = head_of(m);
    let t = tail_of(m);
    let c = cycle_step(m);
    let d = cycle_distance(t, h);
    lemma_body_bounds(m);
    lemma_cycle_steps_adjacent(h);
    if d < 63 {
        assert(cycle_distance(t, c) == d + 1);
        assert forall|i: int| 0 <= i < blocking_len(m) implies #[trigger] seg(m, i) != c by {
            assert(cycle_distance(t, seg(m, i)) <= d);
        }
    } else {
        assert(c == t);
        assert(!m.should_grow);
        assert forall|i: int| 0 <= i < blocking_len(m) implies #[trigger] seg(m, i) != c by {
            lemma_ordered_distinct(m, i, m.len - 1);
        }
    }
    assert(!occupied(m, c));
}

/// Going from `t` past `h` to a cell `n` that comes before `t` again adds
/// up the distances.
proof fn lemma_cd_add(t: int, h: int, n: int)
    requires
        0 <= t < 64,
        0 <= h < 64,
        0 <= n < 64,
        cycle_distance(h, n) < cycle_distance(h, t),
    ensures
        cycle_distance(t, n) == cycle_distance(t, h) + cycle_distance(h, n),
{
    let x = if h >= t {
        h - t
    } else {
        h + 64 - t
    };
    let y = if n >= h {
        n - h
    } else {
        n + 64 - h
    };
    let z = if t >= h {
        t - h
    } else {
        t + 64 - h
    };
    assert(cycle_distance(t, h) == x);
    assert(cycle_distance(h, n) == y);
    assert(cycle_distance(h, t) == z);
    if n >= t {
        assert(cycle_distance(t, n) == n - t);
    } else {
        assert(cycle_distance(t, n) == n + 64 - t);
    }
}

/// The new head of a legal move lies beyond the old head, seen from the
/// tail, or (moving onto the leaving tail) the cycle closes behind it.
#[verifier::rlimit(40)]
proof fn lemma_move_target(m: SnakeModel, n: int)
    requires
        shape_wf(m),
        body_ordered(m),
        valid_move(m, n),
    ensures
        0 <= n < 64,
        cycle_distance(tail_of(m), n) > cycle_distance(tail_of(m), head_of(m)) || (n == tail_of(m)
            && !m.should_grow && cycle_distance(tail_of(m), head_of(m)) == 63),
{
    let h = head_of(m);
    let t = tail_of(m);
    assert(0 <= h < 64 && 0 <= t < 64) by {
        assert(m.segs[(m.head_idx + 64 - 0) % 64] < 64);
        assert(m.segs[(m.head_idx + 64 - (m.len - 1)) % 64] < 64);
    }
    if n != cycle_step(m) {
        assert(cycle_distance(h, n) < cycle_distance(h, t));
        assert(grid_distance(h, h) == 0);
        assert(n != h);
        lemma_cd_add(t, h, n);
    } else {
        lemma_cd_step(t, h);
        if cycle_distance(t, h) == 63 && m.should_grow {
            assert(seg(m, m.len - 1) == n);
            assert(occupied(m, n));
        }
    }
}

/// One step along the cycle from `h`, seen from `t`: one further, or back
/// onto `t` itself when `h` was the cell just behind it.
proof fn lemma_cd_step(t: int, h: int)
    requires
        0 <= t < 64,
        0 <= h < 64,
    ensures
        cycle_distance(t, h) < 63 ==> cycle_distance(t, (h + 1) % 64) == cycle_distance(t, h) + 1,
        cycle_distance(t, h) == 63 ==> (h + 1) % 64 == t,
{
}

/// Segment positions after the head advanced to `n`.
proof fn lemma_advance_segs(m: SnakeModel, n: int)
    requires
        shape_wf(m),
        0 <= n < 64,
    ensures
        seg(advance(m, n), 0) == n,
        forall|i: int| 1 <= i < 64 ==> #[trigger] seg(advance(m, n), i) == seg(m, i - 1),
{
    let hi = (m.head_idx + 1) % 64;
    assert(advance(m, n).segs[hi] == n as u8);
    assert forall|i: int| 1 <= i < 64 implies #[trigger] seg(advance(m, n), i) == seg(m, i - 1) by {
        lemma_advance_seg(m, n, i);
    }
}

/// A legal move while growing keeps the body in cycle order.
#[verifier::rlimit(40)]
proof fn lemma_advance_ordered_grow(m: SnakeModel, n: int)
    requires
        shape_wf(m),
        body_ordered(m),
        m.should_grow,
        valid_move(m, n),
    ensures
        body_ordered(advance(m, n)),
{
    reveal(body_ordered);
    let m1 = advance(m, n);
    let t = tail_of(m);
    let d = cycle_distance(t, head_of(m));
    lemma_body_bounds(m);
    lemma_move_target(m, n);
    lemma_advance_segs(m, n);
    assert(tail_of(m1) == t);
    assert forall|i: int, j: int| 0 <= i < j < m1.len implies cycle_distance(
        tail_of(m1),
        #[trigger] seg(m1, i),
    ) > cycle_distance(tail_of(m1), #[trigger] seg(m1, j)) by {
        if i > 0 {
            assert(cycle_distance(t, seg(m, i - 1)) > cycle_distance(t, seg(m, j - 1)));
        } else {
            assert(cycle_distance(t, seg(m, j - 1)) <= d);
        }
    }
}

/// Seen from the second-to-last segment, every segment but the tail is
/// nearer by the distance between the two last segments.
#[verifier::rlimit(40)]
proof fn lemma_rebase_body(m: SnakeModel)
    requires
        shape_wf(m),
        body_ordered(m),
    ensures
        cycle_distance(tail_of(m), seg(m, m.len - 2)) >= 1,
        forall|k: int|
            0 <= k <= m.len - 2 ==> cycle_distance(seg(m, m.len - 2), #[trigger] seg(m, k))
                == cycle_distance(tail_of(m), seg(m, k)) - cycle_distance(
                tail_of(m),
                seg(m, m.len - 2),
            ),
{
    reveal(body_ordered);
    let t = tail_of(m);
    let t2 = seg(m, m.len - 2);
    lemma_body_bounds(m);
    assert(cycle_distance(t, t2) > cycle_distance(t, seg(m, m.len - 1)));
    assert forall|k: int| 0 <= k <= m.len - 2 implies cycle_distance(t2, #[trigger] seg(m, k))
        == cycle_distance(t, seg(m, k)) - cycle_distance(t, t2) by {
        if k < m.len - 2 {
            assert(cycle_distance(t, seg(m, k)) > cycle_distance(t, seg(m, m.len - 2)));
        }
        lemma_cd_rebase(t, t2, seg(m, k));
    }
}

/// A legal move without growth keeps the body in cycle order: the tail
/// moves up to the second-to-last segment.
#[verifier::rlimit(40)]
proof fn lemma_advance_ordered_move(m: SnakeModel, n: int)
    requires
        shape_wf(m),
        body_ordered(m),
        !m.should_grow,
        valid_move(m, n),
    ensures
        body_ordered(advance(m, n)),
{
    let h = head_of(m);
    let t = tail_of(m);
    let t2 = seg(m, m.len - 2);
    assert(0 <= h < 64 && 0 <= t < 64 && 0 <= t2 < 64) by {
        assert(m.segs[(m.head_idx + 64 - 0) % 64] < 64);
        assert(m.segs[(m.head_idx + 64 - (m.len - 1)) % 64] < 64);
        assert(m.segs[(m.head_idx + 64 - (m.len - 2)) % 64] < 64);
    }
    lemma_move_target(m, n);
    lemma_rebase_body(m);
    assert(cycle_distance(t2, seg(m, 0)) == cycle_distance(t, seg(m, 0)) - cycle_distance(t, t2));
    lemma_beyond_new_tail(t, t2, h, n);
    lemma_shifted_order(m, n);
}

/// Seen from a cell `t2` between `t` and `h`, a new head `n` beyond `h`
/// (or on `t` itself, when `h` was just behind `t`) is still beyond `h`.
proof fn lemma_beyond_new_tail(t: int, t2: int, h: int, n: int)
    requires
        0 <= t < 64,
        0 <= t2 < 64,
        0 <= h < 64,
        0 <= n < 64,
        cycle_distance(t, t2) >= 1,
        cycle_distance(t2, h) == cycle_distance(t, h) - cycle_distance(t, t2),
        cycle_distance(t, n) > cycle_distance(t, h) || (n == t && cycle_distance(t, h) == 63),
    ensures
        cycle_distance(t2, n) > cycle_distance(t2, h),
{
    if n != t {
        lemma_cd_rebase(t, t2, n);
    }
}

/// The advanced body is ordered from the new tail when the new head lies
/// beyond the old head, seen from the second-to-last segment.
#[verifier::rlimit(40)]
proof fn lemma_shifted_order(m: SnakeModel, n: int)
    requires
        shape_wf(m),
        body_ordered(m),
        !m.should_grow,
        0 <= n < 64,
        cycle_distance(seg(m, m.len - 2), n) > cycle_distance(seg(m, m.len - 2), head_of(m)),
    ensures
        body_ordered(advance(m, n)),
{
    reveal(body_ordered);
    let m1 = advance(m, n);
    let t = tail_of(m);
    let t2 = seg(m, m.len - 2);
    lemma_rebase_body(m);
    lemma_advance_segs(m, n);
    assert(tail_of(m1) == t2);
    assert forall|i: int, j: int| 0 <= i < j < m1.len implies cycle_distance(
        tail_of(m1),
        #[trigger] seg(m1, i),
    ) > cycle_distance(tail_of(m1), #[trigger] seg(m1, j)) by {
        if i > 0 {
            assert(cycle_distance(t, seg(m, i - 1)) > cycle_distance(t, seg(m, j - 1)));
            assert(cycle_distance(t2, seg(m, i - 1)) > cycle_distance(t2, seg(m, j - 1)));
        } else if j > 1 {
            assert(cycle_distance(t, seg(m, 0)) > cycle_distance(t, seg(m, j - 1)));
            assert(cycle_distance(t2, seg(m, 0)) > cycle_distance(t2, seg(m, j - 1)));
        }
    }
}

/// The snake never runs into itself: a full step keeps the body in cycle
/// order (hence its cells distinct), except when growth is pending while the
/// head sits directly behind the tail, where no legal move exists.
pub proof fn lemma_step_keeps_body_ordered(m: SnakeModel)
    requires
        model_wf(m),
        body_ordered(m),
        m.pause_ticks == 0 ==> !head_behind_growing_tail(m),
    ensures
        body_ordered(step_spec(m)),
{
    let m0 = SnakeModel { sub_step: false, ..m };
    lemma_ordered_same_body(m, m0);
    if m.pause_ticks > 0 {
        if m.pause_ticks == 1 {
            lemma_reset_ordered(SnakeModel { pause_ticks: 0, ..m0 });
        } else {
            lemma_ordered_same_body(m, SnakeModel { pause_ticks: (m.pause_ticks - 1) as u8, ..m0 });
        }
    } else {
        lemma_move_keeps_order(m0);
    }
}

/// The chosen move keeps the body ordered.
#[verifier::rlimit(40)]
proof fn lemma_move_keeps_order(m: SnakeModel)
    requires
        model_wf(m),
        body_ordered(m),
        m.pause_ticks == 0,
        !head_behind_growing_tail(m),
    ensures
        body_ordered(move_spec(m, best_move(m))),
{
    lemma_cycle_step_valid(m);
    lemma_best_move_exists(m);
    let n = best_move(m);
    assert(valid_move(m, n));
    if m.should_grow {
        lemma_advance_ordered_grow(m, n);
    } else {
        lemma_advance_ordered_move(m, n);
    }
    let m1 = advance(m, n);
    if n == m.apple {
        let m2 = SnakeModel { should_grow: true, ..m1 };
        if m1.len >= RESTART_LEN {
            lemma_ordered_same_body(m1, SnakeModel { pause_ticks: PAUSE_TICKS, ..m2 });
        } else {
            lemma_place_apple_body(m2);
            lemma_ordered_same_body(m1, place_apple_spec(m2));
        }
    }
}

/// Body order depends only on the ring buffer, the head index and the length.
proof fn lemma_ordered_same_body(a: SnakeModel, b: SnakeModel)
    requires
        body_ordered(a),
        a.segs == b.segs,
        a.head_idx == b.head_idx,
        a.len == b.len,
    ensures
        body_ordered(b),
{
    reveal(body_ordered);
    assert forall|i: int| #[trigger] seg(b, i) == seg(a, i) by {}
}

/// Placing an apple leaves the body alone.
proof fn lemma_place_apple_body(m: SnakeModel)
    ensures
        place_apple_spec(m).segs == m.segs,
        place_apple_spec(m).head_idx == m.head_idx,
        place_apple_spec(m).len == m.len,
{
}

/// A restarted game has an ordered body.
proof fn lemma_reset_ordered(m: SnakeModel)
    ensures
        body_ordered(reset_spec(m)),
{
    reveal(body_ordered);
    let r = SnakeModel {
        segs: initial_segs(),
        head_idx: 2,
        len: INIT_LEN as int,
        lfsr: lcg_iter(m.lfsr, RESET_SHUFFLE as nat),
        step_count: 0,
        should_grow: false,
        pause_ticks: 0,
        sub_step: false,
        ..m
    };
    lemma_place_apple_body(r);
    assert(seg(r, 0) == 2 && seg(r, 1) == 1 && seg(r, 2) == 0);
}

/// Segment `i + 1` is a grid neighbour of segment `i`.
#[verifier::opaque]
pub open spec fn adjacent_at(m: SnakeModel, i: int) -> bool {
    grid_distance(seg(m, i + 1), seg(m, i)) == 1
}

/// The body is connected: each segment is a grid neighbour of the one
/// before it, from the head to the tail.
pub open spec fn body_adjacent(m: SnakeModel) -> bool {
    forall|i: int| 0 <= i < m.len - 1 ==> #[trigger] adjacent_at(m, i)
}

/// Body connectedness depends only on the ring buffer, head index and length.
pub proof fn lemma_adjacent_same_body(a: SnakeModel, b: SnakeModel)
    requires
        body_adjacent(a),
        a.segs == b.segs,
        a.head_idx == b.head_idx,
        a.len == b.len,
    ensures
        body_adjacent(b),
{
    reveal(adjacent_at);
    assert forall|i: int| 0 <= i < b.len - 1 implies #[trigger] adjacent_at(b, i) by {
        assert(adjacent_at(a, i));
        assert(seg(a, i) == seg(b, i) && seg(a, i + 1) == seg(b, i + 1));
    }
}

/// Body order depends only on the ring buffer, head index and length.
pub proof fn lemma_ordered_same_body_pub(a: SnakeModel, b: SnakeModel)
    requires
        body_ordered(a),
        a.segs == b.segs,
        a.head_idx == b.head_idx,
        a.len == b.len,
    ensures
        body_ordered(b),
{
    lemma_ordered_same_body(a, b);
}

/// The chosen move is always a grid neighbour of the head.
proof fn lemma_best_move_adjacent(m: SnakeModel)
    requires
        model_wf(m),
    ensures
        grid_distance(head_of(m), best_move(m)) == 1,
{
    lemma_best_move_exists(m);
    let n = best_move(m);
    if !(exists|v: int| valid_move(m, v)) {
        assert(0 <= head_of(m) < 64);
        lemma_cycle_steps_adjacent(head_of(m));
    }
}

/// Advancing to a grid neighbour of the head keeps the body connected.
proof fn lemma_advance_adjacent(m: SnakeModel, n: int)
    requires
        shape_wf(m),
        body_adjacent(m),
        0 <= n < 64,
        grid_distance(head_of(m), n) == 1,
    ensures
        body_adjacent(advance(m, n)),
{
    reveal(adjacent_at);
    let m1 = advance(m, n);
    lemma_advance_segs(m, n);
    assert forall|i: int| 0 <= i < m1.len - 1 implies #[trigger] adjacent_at(m1, i) by {
        if i > 0 {
            assert(adjacent_at(m, i - 1));
            assert(seg(m1, i + 1) == seg(m, i) && seg(m1, i) == seg(m, i - 1));
        } else {
            assert(seg(m1, 1) == seg(m, 0));
        }
    }
}

/// The starting snake is connected.
proof fn lemma_reset_adjacent(m: SnakeModel)
    ensures
        body_adjacent(reset_spec(m)),
{
    reveal(adjacent_at);
    let r = SnakeModel {
        segs: initial_segs(),
        head_idx: 2,
        len: INIT_LEN as int,
        lfsr: lcg_iter(m.lfsr, RESET_SHUFFLE as nat),
        step_count: 0,
        should_grow: false,
        pause_ticks: 0,
        sub_step: false,
        ..m
    };
    lemma_place_apple_body(r);
    assert(seg(r, 0) == 2 && seg(r, 1) == 1 && seg(r, 2) == 0);
    lemma_cycle_steps_adjacent(0);
    lemma_cycle_steps_adjacent(1);
    let rr = reset_spec(m);
    assert forall|i: int| 0 <= i < rr.len - 1 implies #[trigger] adjacent_at(rr, i) by {
        assert(seg(rr, i) == seg(r, i) && seg(rr, i + 1) == seg(r, i + 1));
    }
}

/// The body stays connected: every step moves the head to a grid neighbour,
/// and a restart brings back the connected starting snake.
pub proof fn lemma_step_keeps_body_adjacent(m: SnakeModel)
    requires
        model_wf(m),
        body_adjacent(m),
    ensures
        body_adjacent(step_spec(m)),
{
    let m0 = SnakeModel { sub_step: false, ..m };
    lemma_adjacent_same_body(m, m0);
    if m.pause_ticks > 0 {
        if m.pause_ticks == 1 {
            lemma_reset_adjacent(SnakeModel { pause_ticks: 0, ..m0 });
        } else {
            lemma_adjacent_same_body(m, SnakeModel { pause_ticks: (m.pause_ticks - 1) as u8, ..m0 });
        }
    } else {
        assert(model_wf(m0));
        lemma_best_move_adjacent(m0);
        lemma_best_move_exists(m0);
        let n = best_move(m0);
        assert(0 <= n < 64) by {
            if !(exists|v: int| valid_move(m0, v)) {
                assert(n == cycle_step(m0));
            }
        }
        lemma_advance_adjacent(m0, n);
        let m1 = advance(m0, n);
        if n == m0.apple {
            let m2 = SnakeModel { should_grow: true, ..m1 };
            if m1.len >= RESTART_LEN {
                lemma_adjacent_same_body(m1, SnakeModel { pause_ticks: PAUSE_TICKS, ..m2 });
            } else {
                lemma_place_apple_body(m2);
                lemma_adjacent_same_body(m1, place_apple_spec(m2));
            }
        }
    }
}

// ── SnakeSim ──────────────────────────────────────────────────────────────────

/// AI-driven snake game simulation using shortcut Hamiltonian pathfinding.
pub struct SnakeSim {
    /// Ring buffer storing cycle positions (0..63) of the active segments.
    segs: [u8; 64],
    /// Index in `segs` of the current head.
    head_idx: usize,
    /// Active snake length.
    len: u8,
    /// Apple position on the cycle (0..63).
    apple_path: u8,
    lfsr: u16,
    step_count: u16,
    should_grow: bool,
    pause_ticks: u8,
    sub_step: bool,
    next_head_path: u8,
    next_dir: Dir,
    tail_path: u8,
    tail_dir: Dir,
    tail_removing: bool,
}

impl View for SnakeSim {
    type V = SnakeModel;

    closed spec fn view(&self) -> SnakeModel {
        SnakeModel {
            segs: self.segs@,
            head_idx: self.head_idx as int,
            len: self.len as int,
            apple: self.apple_path,
            lfsr: self.lfsr,
            step_count: self.step_count,
            should_grow: self.should_grow,
            pause_ticks: self.pause_ticks,
            sub_step: self.sub_step,
            next_head: self.next_head_path,
            next_dir: self.next_dir,
            tail_path: self.tail_path,
            tail_dir: self.tail_dir,
            tail_removing: self.tail_removing,
        }
    }
}

impl SnakeSim {
    /// The simulation is well formed.
    pub open spec fn wf(&self) -> bool {
        model_wf(self@)
    }


    /// The starting game: a 3-cell snake on cells 0..2 heading right, the
    /// apple on cycle position 27, the generator at its default seed.
    pub fn new() -> (sim: SnakeSim)
        ensures
            sim.wf(),
            body_ordered(sim@),
            body_adjacent(sim@),
            sim@ == (SnakeModel {
                segs: initial_segs(),
                head_idx: 2,
                len: INIT_LEN as int,
                apple: INIT_APPLE_PATH,
                lfsr: INIT_SEED,
                step_count: 0,
                should_grow: false,
                pause_ticks: 0,
                sub_step: false,
                next_head: 3,
                next_dir: Dir::Right,
                tail_path: 0,
                tail_dir: Dir::Right,
                tail_removing: false,
            }),
    {
        let mut segs = [0u8; 64];
        segs[0] = 0;
        segs[1] = 1;
        segs[2] = 2;
        let sim = SnakeSim {
            segs,
            head_idx: 2,
            len: INIT_LEN,
            apple_path: INIT_APPLE_PATH,
            lfsr: INIT_SEED,
            step_count: 0,
            should_grow: false,
            pause_ticks: 0,
            sub_step: false,
            next_head_path: 3,
            next_dir: Dir::Right,
            tail_path: 0,
            tail_dir: Dir::Right,
            tail_removing: false,
        };
        proof {
            assert(sim@.segs =~= initial_segs());
            assert(head_of(sim@) == 2);
            assert(cycle_distance(2, 27) == 25);
            reveal(body_ordered);
            assert(seg(sim@, 0) == 2 && seg(sim@, 1) == 1 && seg(sim@, 2) == 0);
            reveal(adjacent_at);
            lemma_cycle_steps_adjacent(0);
            lemma_cycle_steps_adjacent(1);
            assert(adjacent_at(sim@, 0) && adjacent_at(sim@, 1));
        }
        sim
    }

    #[verifier::rlimit(40)]
    fn place_apple(&mut self)
        requires
            old(self).wf_shape(),
        ensures
            final(self)@ == place_apple_spec(old(self)@),
    {
        self.lfsr = next_rand(self.lfsr);
        let ghost m1 = self@;
        assert(m1 == (SnakeModel { lfsr: lcg(old(self)@.lfsr), ..old(self)@ }));
        let start_candidate = (self.lfsr % 64) as u8;
        let mut candidate = start_candidate;
        let mut t: u8 = 0;
        while t < 64
            invariant
                self@ == m1,
                m1 == (SnakeModel { lfsr: lcg(old(self)@.lfsr), ..old(self)@ }),
                m1.segs.len() == 64,
                0 <= m1.head_idx < 64,
                1 <= m1.len <= 64,
                t <= 64,
                candidate as int == (start_candidate as int + t) % 64,
                start_candidate as int == m1.lfsr as int % 64,
                free_from(m1, start_candidate as int, t as int) == free_from(
                    m1,
                    start_candidate as int,
                    0,
                ),
            decreases 64 - t,
        {
            proof {
                lemma_free_from_unfold(m1, start_candidate as int, t as int);
            }
            if !self.is_pos_occupied_shape(candidate) {
                proof {
                    assert(free_from(m1, start_candidate as int, t as int) == Some(candidate as int));
                }
                self.apple_path = candidate;
                return;
            }
            candidate = (candidate + 1) % 64;
            t += 1;
        }
        proof {
            lemma_free_from_unfold(m1, start_candidate as int, 64);
        }
        self.pause_ticks = PAUSE_TICKS;
    }

    spec fn wf_shape(&self) -> bool {
        &&& 0 <= self.head_idx < 64
        &&& 1 <= self.len <= 64
    }

    fn is_pos_occupied_shape(&self, pos: u8) -> (r: bool)
        requires
            self.wf_shape(),
        ensures
            r == occupied(self@, pos as int),
    {
        let check_len: usize = if self.should_grow {
            self.len as usize
        } else {
            self.len as usize - 1
        };
        let mut i: usize = 0;
        while i < check_len
            invariant
                self.wf_shape(),
                check_len == blocking_len(self@),
                i <= check_len,
                forall|j: int| 0 <= j < i ==> seg(self@, j) != pos,
            decreases check_len - i,
        {
            let idx = (self.head_idx + 64 - i) % 64;
            if self.segs[idx] == pos {
                assert(seg(self@, i as int) == pos);
                return true;
            }
            i += 1;
        }
        false
    }

    /// Seed the apple generator (0 selects the default seed) and place the
    /// apple. The game stays well formed when the step counter has room for
    /// the new apple's distance, as on a fresh or restarted game: the counter
    /// is bounded by the moves the eaten apples grant, and re-placing the
    /// apple mid-game again and again could push it past its 16-bit range.
    pub fn seed(&mut self, seed: u16)
        requires
            old(self).wf(),
        ensures
            final(self)@ == seed_spec(old(self)@, seed),
            final(self)@.segs == old(self)@.segs,
            final(self)@.head_idx == old(self)@.head_idx,
            final(self)@.len == old(self)@.len,
            shape_wf(final(self)@),
            room_for_apple(old(self)@) ==> final(self).wf(),
    {
        self.lfsr = if seed == 0 {
            INIT_SEED
        } else {
            seed
        };
        self.place_apple();
        proof {
            let m = SnakeModel { lfsr: if seed == 0 { INIT_SEED } else { seed }, ..old(self)@ };
            lemma_place_apple_shape(m);
            if room_for_apple(old(self)@) {
                lemma_place_apple_wf(m);
            }
        }
    }


    /// Restart the game: the starting snake, the generator advanced
    /// [`RESET_SHUFFLE`] steps, and a new apple.
    #[verifier::rlimit(40)]
    pub fn reset(&mut self)
        requires
            old(self)@.apple < 64,
            old(self)@.next_head < 64,
            old(self)@.tail_path < 64,
        ensures
            final(self).wf(),
            final(self)@ == reset_spec(old(self)@),
            body_ordered(final(self)@),
            body_adjacent(final(self)@),
    {
        self.segs = [0u8; 64];
        self.segs[0] = 0;
        self.segs[1] = 1;
        self.segs[2] = 2;
        self.head_idx = 2;
        self.len = INIT_LEN;
        self.step_count = 0;
        self.should_grow = false;
        self.pause_ticks = 0;
        self.sub_step = false;
        let mut lfsr = self.lfsr;
        let mut k: u8 = 0;
        while k < RESET_SHUFFLE
            invariant
                k <= RESET_SHUFFLE,
                lfsr == lcg_iter(old(self).lfsr, k as nat),
            decreases RESET_SHUFFLE - k,
        {
            lfsr = next_rand(lfsr);
            k += 1;
        }
        self.lfsr = lfsr;
        proof {
            assert(self.segs@ =~= initial_segs());
            assert(self@ == (SnakeModel {
                segs: initial_segs(),
                head_idx: 2,
                len: INIT_LEN as int,
                lfsr: lcg_iter(old(self)@.lfsr, RESET_SHUFFLE as nat),
                step_count: 0,
                should_grow: false,
                pause_ticks: 0,
                sub_step: false,
                ..old(self)@
            }));
        }
        self.place_apple();
        proof {
            lemma_reset_wf(old(self)@);
            lemma_reset_ordered(old(self)@);
            lemma_reset_adjacent(old(self)@);
        }
    }

    /// Half-step preview for smooth sub-cell transition.
    #[verifier::rlimit(40)]
    pub fn half_step(&mut self)
        requires
            old(self).wf(),
        ensures
            final(self).wf(),
            final(self)@ == half_step_spec(old(self)@),
            final(self)@.segs == old(self)@.segs,
            final(self)@.head_idx == old(self)@.head_idx,
            final(self)@.len == old(self)@.len,
    {
        if self.pause_ticks > 0 {
            return;
        }
        let ghost m = self@;
        let next_pos = self.find_best_move();
        let head_pos = self.segs[self.head_idx];
        assert(head_pos == head_of(m));
        assert(head_pos as int % 64 == head_pos && next_pos as int % 64 == next_pos);
        self.next_head_path = next_pos;
        self.next_dir = get_dir(head_pos, next_pos);

        self.tail_removing = !self.should_grow;
        if self.tail_removing {
            let tail_idx = (self.head_idx + 64 - (self.len as usize - 1)) % 64;
            let prev_tail_idx = (self.head_idx + 64 - (self.len as usize - 2)) % 64;
            let tail_pos = self.segs[tail_idx];
            let prev_pos = self.segs[prev_tail_idx];
            assert(tail_pos == tail_of(m) && prev_pos == seg(m, m.len - 2));
            assert(tail_pos as int % 64 == tail_pos && prev_pos as int % 64 == prev_pos);
            self.tail_path = tail_pos;
            self.tail_dir = get_dir(prev_pos, tail_pos);
        }
        self.sub_step = true;
    }

    /// Full step: count down a pause (restarting when it ends), or commit
    /// the chosen move.
    #[verifier::rlimit(40)]
    pub fn step(&mut self)
        requires
            old(self).wf(),
        ensures
            final(self).wf(),
            final(self)@ == step_spec(old(self)@),
            body_adjacent(old(self)@) ==> body_adjacent(final(self)@),
            body_ordered(old(self)@) && (old(self)@.pause_ticks == 0 ==> !head_behind_growing_tail(
                old(self)@,
            )) ==> body_ordered(final(self)@),
    {
        proof {
            lemma_step_wf(old(self)@);
            if body_adjacent(old(self)@) {
                lemma_step_keeps_body_adjacent(old(self)@);
            }
            if body_ordered(old(self)@) && (old(self)@.pause_ticks == 0
                ==> !head_behind_growing_tail(old(self)@)) {
                lemma_step_keeps_body_ordered(old(self)@);
            }
        }
        let ghost m0 = SnakeModel { sub_step: false, ..old(self)@ };
        self.sub_step = false;
        assert(self@ == m0);

        if self.pause_ticks > 0 {
            self.pause_ticks -= 1;
            if self.pause_ticks == 0 {
                self.reset();
            }
            return;
        }

        let next_pos = self.find_best_move();
        proof {
            lemma_move_wf(m0, next_pos as int);
        }
        self.advance_head(next_pos);

        if next_pos == self.apple_path {
            self.should_grow = true;
            if self.len >= RESTART_LEN {
                self.pause_ticks = PAUSE_TICKS;
            } else {
                self.place_apple();
            }
        }
    }

    /// Push `next_pos` as the new head, apply a pending growth and count
    /// the move.
    fn advance_head(&mut self, next_pos: u8)
        requires
            old(self).wf(),
            old(self)@.pause_ticks == 0,
            old(self)@.step_count < u16::MAX,
            next_pos < 64,
        ensures
            final(self)@ == advance(old(self)@, next_pos as int),
    {
        self.head_idx = (self.head_idx + 1) % 64;
        self.segs[self.head_idx] = next_pos;

        if self.should_grow {
            self.len += 1;
            self.should_grow = false;
        }

        self.step_count += 1;
        assert(self.segs@ =~= old(self)@.segs.update(self.head_idx as int, next_pos));
    }

    /// Fill `host_leds` with the current animation frame.
    #[verifier::rlimit(30)]
    pub fn fill_leds(&self, host_leds: &mut [Color; TOTAL_LEDS])
        requires
            self.wf(),
        ensures
            final(host_leds)@ == frame(self@),
            frame_colors_only(final(host_leds)@),
    {
        let ghost m = self@;
        proof {
            lemma_frame_colors(m);
        }
        let mut k: usize = 0;
        while k < TOTAL_LEDS
            invariant
                k <= TOTAL_LEDS,
                forall|j: int| 0 <= j < k ==> host_leds@[j] == black(),
            decreases TOTAL_LEDS - k,
        {
            host_leds[k] = Color::black();
            k += 1;
        }
        assert(host_leds@ =~= dark_frame());

        if self.pause_ticks > 0 {
            return;
        }

        // 1. Paint body, tail first so the head ends on top
        let mut i: usize = self.len as usize;
        while i > 0
            invariant
                self.wf(),
                m == self@,
                i <= self.len,
                host_leds@ == paint_body(m, dark_frame(), i as int),
            decreases i,
        {
            i -= 1;
            let idx = (self.head_idx + 64 - i) % 64;
            let seg_pos = self.segs[idx];
            let (r, c) = pos_to_cell(seg_pos);
            let btn = cell_to_btn(r, c);
            let color = if i == 0 {
                Color::new(0, 210, 0)
            } else if i % 2 == 1 {
                Color::new(0, 100, 0)
            } else {
                Color::new(0, 35, 0)
            };
            host_leds[btn * 2] = color;
            host_leds[btn * 2 + 1] = color;
        }

        // 2. Paint apple
        let (ar, ac) = pos_to_cell(self.apple_path);
        let apple_btn = cell_to_btn(ar, ac);
        host_leds[apple_btn * 2] = Color::new(220, 0, 0);
        host_leds[apple_btn * 2 + 1] = Color::new(220, 0, 0);

        // 3. Half-step smoothing
        if self.sub_step {
            let (nr, nc) = pos_to_cell(self.next_head_path);
            let new_btn = cell_to_btn(nr, nc);
            match self.next_dir {
                Dir::Right | Dir::Up => {
                    host_leds[new_btn * 2] = Color::new(0, 210, 0);
                },
                Dir::Left | Dir::Down => {
                    host_leds[new_btn * 2 + 1] = Color::new(0, 210, 0);
                },
            }
            if self.tail_removing {
                let (tr, tc) = pos_to_cell(self.tail_path);
                let tail_btn = cell_to_btn(tr, tc);
                match self.tail_dir {
                    Dir::Right | Dir::Up => {
                        host_leds[tail_btn * 2 + 1] = Color::black();
                    },
                    Dir::Left | Dir::Down => {
                        host_leds[tail_btn * 2] = Color::black();
                    },
                }
            }
        }
    }

    /// Check if cycle position `pos` is occupied by a blocking body segment.
    fn is_pos_occupied(&self, pos: u8) -> (r: bool)
        requires
            self.wf(),
        ensures
            r == occupied(self@, pos as int),
    {
        let check_len: usize = if self.should_grow {
            self.len as usize
        } else {
            self.len as usize - 1
        };
        let mut i: usize = 0;
        while i < check_len
            invariant
                self.wf(),
                check_len == blocking_len(self@),
                i <= check_len,
                forall|j: int| 0 <= j < i ==> seg(self@, j) != pos,
            decreases check_len - i,
        {
            let idx = (self.head_idx + 64 - i) % 64;
            if self.segs[idx] == pos {
                assert(seg(self@, i as int) == pos);
                return true;
            }
            i += 1;
        }
        false
    }

    /// Select the best move toward the apple that cannot trap the snake.
    #[verifier::rlimit(30)]
    fn find_best_move(&self) -> (best: u8)
        requires
            self.wf(),
        ensures
            is_best_move(self@, best as int),
            best as int == best_move(self@),
            best < 64,
    {
        let ghost m = self@;
        let head_pos = self.segs[self.head_idx];
        let (hr, hc) = pos_to_cell(head_pos);
        let tail_idx = (self.head_idx + 64 - (self.len as usize - 1)) % 64;
        let tail_pos = self.segs[tail_idx];
        assert(head_pos == head_of(m));
        assert(tail_pos == tail_of(m));

        let (neighbors, n_count) = neighbors_of(head_pos);
        let ghost nl = neighbor_list(head_pos as int);
        proof {
            lemma_neighbor_list(head_pos as int);
        }

        let mut best_pos = (head_pos + 1) % 64;
        let mut min_g_dist: u8 = 255;
        let mut min_c_dist: u8 = 255;
        let mut k: usize = 0;
        while k < n_count
            invariant
                self.wf(),
                m == self@,
                head_pos == head_of(m),
                tail_pos == tail_of(m),
                nl == neighbor_list(head_pos as int),
                n_count == nl.len(),
                k <= n_count,
                forall|j: int| 0 <= j < n_count ==> neighbors@[j] as int == #[trigger] nl[j],
                forall|j: int|
                    0 <= j < nl.len() ==> 0 <= #[trigger] nl[j] < 64 && grid_distance(
                        head_pos as int,
                        nl[j],
                    ) == 1,
                min_g_dist < 255 ==> {
                    &&& valid_move(m, best_pos as int)
                    &&& min_g_dist as int == grid_distance(best_pos as int, m.apple as int)
                    &&& min_c_dist as int == cycle_distance(best_pos as int, m.apple as int)
                    &&& forall|j: int|
                        0 <= j < k && valid_move(m, #[trigger] nl[j]) ==> !better(m, nl[j], best_pos as int)
                },
                min_g_dist == 255 ==> {
                    &&& best_pos as int == cycle_step(m)
                    &&& forall|j: int| 0 <= j < k ==> !valid_move(m, #[trigger] nl[j])
                },
            decreases n_count - k,
        {
            let n_pos = neighbors[k];
            assert(n_pos as int == nl[k as int]);
            if self.is_pos_occupied(n_pos) {
                k += 1;
                continue;
            }
            let is_default = n_pos == (head_pos + 1) % 64;
            let is_safe_shortcut = cycle_dist(head_pos, n_pos) < cycle_dist(head_pos, tail_pos);
            let does_not_skip_apple = cycle_dist(head_pos, n_pos) <= cycle_dist(
                head_pos,
                self.apple_path,
            );
            if !is_default && !(is_safe_shortcut && does_not_skip_apple) {
                k += 1;
                continue;
            }
            assert(valid_move(m, n_pos as int));
            // Score: primary = Manhattan grid distance, secondary = cycle distance
            assert(n_pos as int % 64 == n_pos && self.apple_path as int % 64 == self.apple_path);
            let g_dist = grid_dist(n_pos, self.apple_path);
            let c_dist = cycle_dist(n_pos, self.apple_path);
            let is_better = g_dist < min_g_dist || (g_dist == min_g_dist && c_dist < min_c_dist);
            if is_better {
                min_g_dist = g_dist;
                min_c_dist = c_dist;
                best_pos = n_pos;
            }
            k += 1;
        }
        proof {
            lemma_best_of_neighbors(m, best_pos as int, min_g_dist < 255);
            lemma_best_move_unique(m, best_pos as int, best_move(m));
        }
        best_pos
    }
}


/// Seeding: the generator set to `seed` (0 selects [`INIT_SEED`]), then a
/// new apple placed.
pub open spec fn seed_spec(m: SnakeModel, seed: u16) -> SnakeModel {
    place_apple_spec(SnakeModel { lfsr: if seed == 0 { INIT_SEED } else { seed }, ..m })
}

/// Seeding with 0 is seeding with the default seed, and seeding touches
/// only the generator, the apple and (with no free cell) the pause: the
/// body, the length and the counters stay as they were.
pub proof fn lemma_seed(m: SnakeModel, seed: u16)
    ensures
        seed_spec(m, 0) == seed_spec(m, INIT_SEED),
        seed_spec(m, seed).segs == m.segs,
        seed_spec(m, seed).head_idx == m.head_idx,
        seed_spec(m, seed).len == m.len,
        seed_spec(m, seed).step_count == m.step_count,
        seed_spec(m, seed).should_grow == m.should_grow,
        seed_spec(m, seed).sub_step == m.sub_step,
{
}

/// Placing an apple keeps the structural well-formedness.
proof fn lemma_place_apple_shape(m: SnakeModel)
    requires
        shape_wf(m),
    ensures
        shape_wf(place_apple_spec(m)),
{
    let m1 = SnakeModel { lfsr: lcg(m.lfsr), ..m };
    lemma_free_from(m1, m1.lfsr as int % 64, 0);
}

/// Placing an apple keeps the game well formed when the step counter has
/// room for the new apple's distance.
proof fn lemma_place_apple_wf(m: SnakeModel)
    requires
        shape_wf(m),
        room_for_apple(m),
        m.step_count + cycle_distance(head_of(m), m.apple as int) <= move_budget(m) + 63,
    ensures
        model_wf(place_apple_spec(m)),
{
    let m1 = SnakeModel { lfsr: lcg(m.lfsr), ..m };
    let start = m1.lfsr as int % 64;
    lemma_free_from(m1, start, 0);
    match free_from(m1, start, 0) {
        Some(p) => {
            assert(!occupied(m1, p));
            if p == head_of(m1) {
                assert(seg(m1, 0) == p);
            }
        },
        None => {},
    }
}

/// A found free cell is a free cycle position.
proof fn lemma_free_from(m: SnakeModel, start: int, k: int)
    requires
        0 <= k <= 64,
    ensures
        free_from(m, start, k) matches Some(p) ==> 0 <= p < 64 && !occupied(m, p),
    decreases 64 - k,
{
    reveal(free_from);
    if k < 64 && occupied(m, (start + k) % 64) {
        lemma_free_from(m, start, k + 1);
    }
}

/// One step of the forward scan for a free cell.
proof fn lemma_free_from_unfold(m: SnakeModel, start: int, k: int)
    ensures
        free_from(m, start, k) == if k >= 64 {
            None
        } else if !occupied(m, (start + k) % 64) {
            Some((start + k) % 64)
        } else {
            free_from(m, start, k + 1)
        },
{
    reveal(free_from);
}

} // verus!

verus! {

proof fn lemma_paint_body_same_body(a: SnakeModel, b: SnakeModel, leds: Seq<Color>, i: int)
    requires
        a.segs == b.segs,
        a.head_idx == b.head_idx,
        a.len == b.len,
    ensures
        paint_body(a, leds, i) == paint_body(b, leds, i),
    decreases a.len - i,
{
    if 0 <= i < a.len {
        lemma_paint_body_same_body(a, b, leds, i + 1);
    }
}

/// On a half step the next head cell lights its entry LED in the head
/// colour: moving right or up that is the first LED `2 * b` of the next
/// head's button `b`, moving left or down the second LED `2 * b + 1`. The
/// other LED of that button still shows what the full-step frame of the same
/// state shows there (body or apple). This holds whenever the leaving tail
/// is on another cell. The leaving tail darkens its exit LED: the second
/// LED `2 * t + 1` of its button `t` when it moves right or up, the first
/// LED `2 * t` when it moves left or down.
pub proof fn lemma_half_step_entry_led(m: SnakeModel)
    requires
        shape_wf(m),
        m.pause_ticks == 0,
        m.sub_step,
        m.next_head < 64,
        m.tail_removing ==> m.tail_path < 64 && m.tail_path != m.next_head,
    ensures
        ({
            let b = btn_of(m.next_head as int);
            let first = m.next_dir == Dir::Right || m.next_dir == Dir::Up;
            let entry = if first {
                2 * b
            } else {
                2 * b + 1
            };
            let other = if first {
                2 * b + 1
            } else {
                2 * b
            };
            &&& 0 <= b < 64
            &&& frame(m)[entry] == color_head()
            &&& frame(m)[other] == frame(SnakeModel { sub_step: false, ..m })[other]
        }),
        m.tail_removing ==> {
            let t = btn_of(m.tail_path as int);
            let exit = if m.tail_dir == Dir::Right || m.tail_dir == Dir::Up {
                2 * t + 1
            } else {
                2 * t
            };
            frame(m)[exit] == black()
        },
{
    let full = SnakeModel { sub_step: false, ..m };
    lemma_frame_colors(m);
    lemma_frame_colors(full);
    lemma_paint_body_same_body(m, full, dark_frame(), 0);
    lemma_btn_of_in_grid(m.next_head as int);
    lemma_btn_of_in_grid(m.apple as int);
    if m.tail_removing {
        lemma_btn_of_in_grid(m.tail_path as int);
        let hc = cycle_cell(m.next_head as int);
        let tc = cycle_cell(m.tail_path as int);
        lemma_cycle_cell_inverse(m.next_head as int);
        lemma_cycle_cell_inverse(m.tail_path as int);
        lemma_cell_button_bijective(hc.0, hc.1, tc.0, tc.1);
        assert(btn_of(m.tail_path as int) != btn_of(m.next_head as int));
    }
}

} // verus!
