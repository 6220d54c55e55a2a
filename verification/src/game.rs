//! The game orchestrator: the per-tick state machine, the input-drain
//! policy, fruit placement, and frame-budget accounting. Terminal reads and
//! writes stay outside; this module only decides.

use vstd::prelude::*;

verus! {

use crate::GameSettings;
use crate::entity::{
    Board, BorderTypes, Fruit, MoveDirection, Worm, cells_adjacent, grow_target16, moved_seq,
    stepped, stepped16,
};

/// Where the session stands. `Paused` is declared but no transition
/// produces it.
#[derive(Clone, Copy, Debug, PartialEq, Eq, Structural)]
pub enum GameStatus {
    Playing,
    Paused,
    Lost,
    Won,
    ShowingStats,
    Exiting,
}

/// Running frame counters for the end-of-session summary. Durations are in
/// microseconds.
#[derive(Clone, Copy, Debug, PartialEq, Eq, Structural)]
pub struct RenderStats {
    pub frame_count: u32,
    pub total_render_duration: u64,
}

impl RenderStats {
    /// Fresh counters.
    pub fn new() -> (s: RenderStats)
        ensures
            s.frame_count == 0,
            s.total_render_duration == 0,
    {
        RenderStats { frame_count: 0, total_render_duration: 0 }
    }

    /// Mean frame duration in microseconds.
    pub fn avg_frame_time(&self) -> (r: u64)
        requires
            self.frame_count >= 1,
        ensures
            r == self.total_render_duration as int / self.frame_count as int,
    {
        self.total_render_duration / (self.frame_count as u64)
    }

    /// Account one frame that took `elapsed_micros`.
    pub fn record_frame(&mut self, elapsed_micros: u64)
        requires
            old(self).frame_count < u32::MAX,
            old(self).total_render_duration + elapsed_micros <= u64::MAX,
        ensures
            final(self).frame_count == old(self).frame_count + 1,
            final(self).total_render_duration == old(self).total_render_duration + elapsed_micros,
    {
        self.frame_count = self.frame_count + 1;
        self.total_render_duration = self.total_render_duration + elapsed_micros;
    }
}

/// The whole per-frame budget at `fps` frames per second, in milliseconds.
pub fn frame_budget_millis(fps: u64) -> (r: u64)
    requires
        1 <= fps,
    ensures
        r == 1000int / fps as int,
{
    1000 / fps
}

/// How long to sleep after a tick that took `elapsed_ms` of a
/// `budget_ms` frame budget: the difference, clamped at zero when the tick
/// overran the budget, so the subtraction can never underflow.
pub fn frame_sleep_millis(budget_ms: u64, elapsed_ms: u64) -> (r: u64)
    ensures
        r == if elapsed_ms >= budget_ms {
            0int
        } else {
            budget_ms - elapsed_ms
        },
{
    if elapsed_ms >= budget_ms {
        0
    } else {
        budget_ms - elapsed_ms
    }
}

/// The drain policy: of all keys buffered during one tick, only the most
/// recent one counts; with nothing buffered the tick sees no key.
pub fn select_latest(keys: &Vec<char>) -> (r: Option<char>)
    ensures
        r == if keys@.len() == 0 {
            Option::<char>::None
        } else {
            Option::Some(keys@[keys@.len() - 1])
        },
{
    if keys.len() == 0 {
        None
    } else {
        Some(keys[keys.len() - 1])
    }
}

/// Whether `p` lies strictly inside the playable interior of a board with
/// interior dimensions `width` by `height` (the one-cell border excluded).
pub open spec fn in_interior(width: u16, height: u16, p: (u16, u16)) -> bool {
    2 <= p.0 <= width + 1 && 2 <= p.1 <= height + 1
}

/// Whether some fruit sits on `p`.
pub open spec fn fruit_at(fruits: Seq<Fruit>, p: (u16, u16)) -> bool {
    exists|j: int| 0 <= j < fruits.len() && (#[trigger] fruits[j]).pos == p
}

/// The cells covered by the worm chain or a fruit: the set placement must
/// avoid. Derived on demand, never stored.
pub open spec fn occupied_cells(segs: Seq<(u16, u16)>, fruits: Seq<Fruit>) -> Set<(u16, u16)> {
    Set::new(|p: (u16, u16)| segs.contains(p) || fruit_at(fruits, p))
}

/// Number of cells of row `y` not in `occ`, among the `n` leftmost interior
/// columns (columns `2` to `n + 1`).
pub open spec fn row_free_count(occ: Set<(u16, u16)>, y: u16, n: int) -> int
    decreases n,
{
    if n <= 0 {
        0
    } else {
        row_free_count(occ, y, n - 1) + if occ.contains((((n + 1) as u16), y)) {
            0int
        } else {
            1int
        }
    }
}

/// Number of interior cells not in `occ` within the `m` topmost interior
/// rows (rows `2` to `m + 1`) of a board `width` cells wide.
pub open spec fn grid_free_count(occ: Set<(u16, u16)>, width: u16, m: int) -> int
    decreases m,
{
    if m <= 0 {
        0
    } else {
        grid_free_count(occ, width, m - 1) + row_free_count(occ, ((m + 1) as u16), width as int)
    }
}

/// Number of interior cells of a `width` by `height` board not in `occ`.
pub open spec fn free_cell_count(occ: Set<(u16, u16)>, width: u16, height: u16) -> int {
    grid_free_count(occ, width, height as int)
}

pub proof fn lemma_row_free_count_bounds(occ: Set<(u16, u16)>, y: u16, n: int)
    requires
        n >= 0,
    ensures
        0 <= row_free_count(occ, y, n) <= n,
    decreases n,
{
    if n > 0 {
        lemma_row_free_count_bounds(occ, y, n - 1);
    }
}

pub proof fn lemma_row_free_count_mono(occ: Set<(u16, u16)>, y: u16, n1: int, n2: int)
    requires
        0 <= n1 <= n2,
    ensures
        row_free_count(occ, y, n1) <= row_free_count(occ, y, n2),
    decreases n2,
{
    if n1 < n2 {
        lemma_row_free_count_mono(occ, y, n1, n2 - 1);
    }
}

pub proof fn lemma_grid_free_count_mono(occ: Set<(u16, u16)>, width: u16, m1: int, m2: int)
    requires
        0 <= m1 <= m2,
    ensures
        grid_free_count(occ, width, m1) <= grid_free_count(occ, width, m2),
    decreases m2,
{
    if m1 < m2 {
        lemma_grid_free_count_mono(occ, width, m1, m2 - 1);
        lemma_row_free_count_bounds(occ, ((m2 + 1) as u16), width as int);
    }
}

pub proof fn lemma_grid_free_count_bounds(occ: Set<(u16, u16)>, width: u16, m: int)
    requires
        m >= 0,
    ensures
        0 <= grid_free_count(occ, width, m) <= m * (width as int),
    decreases m,
{
    if m > 0 {
        lemma_grid_free_count_bounds(occ, width, m - 1);
        lemma_row_free_count_bounds(occ, ((m + 1) as u16), width as int);
        assert((m - 1) * (width as int) + (width as int) == m * (width as int))
            by (nonlinear_arith);
    }
}

proof fn lemma_row_free_count_zero(occ: Set<(u16, u16)>, y: u16, n: int)
    requires
        0 <= n <= 65534,
    ensures
        (row_free_count(occ, y, n) == 0) <==> (forall|x: int|
            2 <= x <= n + 1 ==> #[trigger] occ.contains((((x as u16)), y))),
    decreases n,
{
    lemma_row_free_count_bounds(occ, y, n);
    if n > 0 {
        lemma_row_free_count_zero(occ, y, n - 1);
        lemma_row_free_count_bounds(occ, y, n - 1);
    }
}

proof fn lemma_grid_free_count_zero(occ: Set<(u16, u16)>, width: u16, m: int)
    requires
        0 <= m <= 65533,
        1 <= width,
        width + 2 <= u16::MAX,
    ensures
        (grid_free_count(occ, width, m) == 0) <==> (forall|x: int, y: int|
            2 <= x <= width + 1 && 2 <= y <= m + 1 ==> #[trigger] occ.contains(
                (((x as u16)), ((y as u16))),
            )),
    decreases m,
{
    lemma_grid_free_count_bounds(occ, width, m);
    if m > 0 {
        lemma_grid_free_count_zero(occ, width, m - 1);
        lemma_grid_free_count_bounds(occ, width, m - 1);
        lemma_row_free_count_bounds(occ, ((m + 1) as u16), width as int);
        lemma_row_free_count_zero(occ, ((m + 1) as u16), width as int);
    }
}

/// The board-full condition spelled out: the free-cell count is zero
/// exactly when every interior cell is occupied.
pub proof fn lemma_board_full(occ: Set<(u16, u16)>, width: u16, height: u16)
    requires
        1 <= width,
        width + 2 <= u16::MAX,
        height + 2 <= u16::MAX,
    ensures
        (free_cell_count(occ, width, height) == 0) <==> (forall|p: (u16, u16)|
            in_interior(width, height, p) ==> occ.contains(p)),
{
    lemma_grid_free_count_zero(occ, width, height as int);
    if free_cell_count(occ, width, height) == 0 {
        assert forall|p: (u16, u16)| in_interior(width, height, p) implies occ.contains(p) by {
            let x = p.0 as int;
            let y = p.1 as int;
            assert(occ.contains((((x as u16)), ((y as u16)))));
        }
    }
    if forall|p: (u16, u16)| in_interior(width, height, p) ==> occ.contains(p) {
        assert forall|x: int, y: int|
            2 <= x <= width + 1 && 2 <= y <= height + 1 implies #[trigger] occ.contains(
            (((x as u16)), ((y as u16))),
        ) by {
            let p = (((x as u16)), ((y as u16)));
            assert(in_interior(width, height, p));
        }
    }
}

/// A configuration a session can start with: a worm of the configured
/// length fits on its starting row, the board has room for worm and fruit
/// together, and the grid arithmetic stays within `u16`.
pub open spec fn config_ok(settings: GameSettings, width: u16, height: u16) -> bool {
    &&& 1 <= settings.worm_length
    &&& settings.worm_length <= width
    &&& 2 <= height
    &&& width + 2 <= u16::MAX
    &&& height + 2 <= u16::MAX
    &&& settings.worm_length + settings.fruit_count <= width * height
}

/// One game session: the entities, the status, and the configuration. The
/// terminal handles and the input channel live with the caller; the fields
/// here are plain values.
pub struct Game {
    pub fps: u64,
    pub width: u16,
    pub height: u16,
    pub board: Board,
    pub worm: Worm,
    pub fruits: Vec<Fruit>,
    pub status: GameStatus,
    pub settings: GameSettings,
    pub render_stats: RenderStats,
}

impl Game {
    /// What holds of the entities whenever the session is `Playing`: the
    /// head and every segment the next tick reads lie in the interior, and
    /// so does every fruit. Only the chain's last segment — a fresh growth
    /// placeholder that the next move discards — may sit outside.
    pub open spec fn playing_inv(self) -> bool {
        &&& in_interior(self.width, self.height, self.worm.segments@[0])
        &&& forall|i: int|
            0 <= i < self.worm.segments@.len() - 1 ==> in_interior(
                self.width,
                self.height,
                #[trigger] self.worm.segments@[i],
            )
        &&& forall|j: int|
            0 <= j < self.fruits@.len() ==> in_interior(
                self.width,
                self.height,
                (#[trigger] self.fruits@[j]).pos,
            )
    }

    /// The session invariant: the worm chain is well formed, the board
    /// mirrors the session geometry, an episode in progress or just ended
    /// has a workable configuration, and a `Playing` episode satisfies
    /// `playing_inv`.
    pub open spec fn inv(self) -> bool {
        &&& self.worm.wf()
        &&& self.board.width == self.width
        &&& self.board.height == self.height
        &&& 1 <= self.fps
        &&& (self.status is Playing || self.status is Won || self.status is Lost) ==> config_ok(
            self.settings,
            self.width,
            self.height,
        )
        &&& self.status is Playing ==> self.playing_inv()
    }

    /// Every cell the worm or a fruit covers, without duplicates.
    pub fn get_occupied_positions(&self) -> (occ: Vec<(u16, u16)>)
        ensures
            occ@.no_duplicates(),
            forall|p: (u16, u16)| #[trigger]
                occ@.contains(p) <==> occupied_cells(self.worm.segments@, self.fruits@).contains(
                    p,
                ),
    {
        let mut occ: Vec<(u16, u16)> = Vec::new();
        let mut j: usize = 0;
        while j < self.fruits.len()
            invariant
                occ@.no_duplicates(),
                forall|p: (u16, u16)| #[trigger] occ@.contains(p) ==> fruit_at(self.fruits@, p),
                forall|q: int| 0 <= q < j ==> occ@.contains((#[trigger] self.fruits@[q]).pos),
                j <= self.fruits@.len(),
            decreases self.fruits@.len() - j,
        {
            let p = self.fruits[j].pos;
            push_if_absent(&mut occ, p);
            j = j + 1;
        }
        let mut i: usize = 0;
        while i < self.worm.segments.len()
            invariant
                occ@.no_duplicates(),
                forall|p: (u16, u16)| #[trigger]
                    occ@.contains(p) ==> fruit_at(self.fruits@, p) || self.worm.segments@.contains(
                        p,
                    ),
                forall|q: int|
                    0 <= q < self.fruits@.len() ==> occ@.contains(
                        (#[trigger] self.fruits@[q]).pos,
                    ),
                forall|q: int| 0 <= q < i ==> occ@.contains(#[trigger] self.worm.segments@[q]),
                i <= self.worm.segments@.len(),
            decreases self.worm.segments@.len() - i,
        {
            let p = self.worm.segments[i];
            push_if_absent(&mut occ, p);
            i = i + 1;
        }
        occ
    }
}

/// Record `p` unless it is already recorded, keeping the list
/// duplicate-free.
fn push_if_absent(occ: &mut Vec<(u16, u16)>, p: (u16, u16))
    requires
        old(occ)@.no_duplicates(),
    ensures
        final(occ)@.no_duplicates(),
        forall|q: (u16, u16)| #[trigger]
            final(occ)@.contains(q) <==> old(occ)@.contains(q) || q == p,
{
    if !contains_pos(occ, p) {
        let ghost pre = occ@;
        occ.push(p);
        proof {
            assert forall|q: (u16, u16)| #[trigger]
                occ@.contains(q) <==> pre.contains(q) || q == p by {
                vstd::seq_lib::lemma_seq_contains_after_push(pre, p, q);
            }
            assert forall|x: int, y: int| 0 <= x < y < occ@.len() implies occ@[x] != occ@[y] by {
                if y < pre.len() {
                    assert(pre[x] != pre[y]);
                } else {
                    assert(occ@[y] == p);
                    assert(pre.contains(pre[x]));
                }
            }
        }
    }
}

/// Whether `v` holds the cell `p`.
fn contains_pos(v: &Vec<(u16, u16)>, p: (u16, u16)) -> (b: bool)
    ensures
        b == v@.contains(p),
{
    let mut i: usize = 0;
    while i < v.len()
        invariant
            0 <= i <= v@.len(),
            forall|j: int| 0 <= j < i ==> v@[j] != p,
        decreases v@.len() - i,
    {
        if v[i].0 == p.0 && v[i].1 == p.1 {
            assert(v@[i as int] == p);
            return true;
        }
        i = i + 1;
    }
    false
}

/// Count the interior cells not covered by `occ`, scanning the grid
/// row-major. `cells` is the set the duplicate-free list stands for.
fn count_free_cells(
    occ: &Vec<(u16, u16)>,
    width: u16,
    height: u16,
    Ghost(cells): Ghost<Set<(u16, u16)>>,
) -> (n: u32)
    requires
        1 <= width,
        width + 2 <= u16::MAX,
        height + 2 <= u16::MAX,
        forall|p: (u16, u16)| #[trigger] occ@.contains(p) <==> cells.contains(p),
    ensures
        n == free_cell_count(cells, width, height),
{
    let mut n: u32 = 0;
    let mut ky: u16 = 0;
    while ky < height
        invariant
            0 <= ky <= height,
            1 <= width,
            width + 2 <= u16::MAX,
            height + 2 <= u16::MAX,
            forall|p: (u16, u16)| #[trigger] occ@.contains(p) <==> cells.contains(p),
            n == grid_free_count(cells, width, ky as int),
        decreases height - ky,
    {
        let mut kx: u16 = 0;
        while kx < width
            invariant
                0 <= kx <= width,
                ky < height,
                1 <= width,
                width + 2 <= u16::MAX,
                height + 2 <= u16::MAX,
                forall|p: (u16, u16)| #[trigger] occ@.contains(p) <==> cells.contains(p),
                n == grid_free_count(cells, width, ky as int) + row_free_count(
                    cells,
                    (ky + 2) as u16,
                    kx as int,
                ),
            decreases width - kx,
        {
            proof {
                lemma_grid_free_count_bounds(cells, width, ky as int);
                lemma_row_free_count_bounds(cells, (ky + 2) as u16, kx as int);
                assert((ky as int) * (width as int) + (kx as int) + 1 < u32::MAX)
                    by (nonlinear_arith)
                    requires
                        0 <= (ky as int) <= 65533,
                        0 <= (width as int) <= 65533,
                        0 <= (kx as int) < 65533;
            }
            if !contains_pos(occ, (kx + 2, ky + 2)) {
                n = n + 1;
            }
            kx = kx + 1;
        }
        ky = ky + 1;
    }
    n
}

/// The `k`-th interior cell, in row-major order, among those not covered
/// by `occ`.
fn kth_free_cell(
    occ: &Vec<(u16, u16)>,
    width: u16,
    height: u16,
    k: u32,
    Ghost(cells): Ghost<Set<(u16, u16)>>,
) -> (p: (u16, u16))
    requires
        1 <= width,
        width + 2 <= u16::MAX,
        height + 2 <= u16::MAX,
        forall|p: (u16, u16)| #[trigger] occ@.contains(p) <==> cells.contains(p),
        k < free_cell_count(cells, width, height),
    ensures
        in_interior(width, height, p),
        !cells.contains(p),
{
    let mut seen: u32 = 0;
    let mut ky: u16 = 0;
    while ky < height
        invariant
            0 <= ky <= height,
            1 <= width,
            width + 2 <= u16::MAX,
            height + 2 <= u16::MAX,
            forall|p: (u16, u16)| #[trigger] occ@.contains(p) <==> cells.contains(p),
            k < free_cell_count(cells, width, height),
            seen == grid_free_count(cells, width, ky as int),
            seen <= k,
        decreases height - ky,
    {
        let mut kx: u16 = 0;
        while kx < width
            invariant
                0 <= kx <= width,
                ky < height,
                1 <= width,
                width + 2 <= u16::MAX,
                height + 2 <= u16::MAX,
                forall|p: (u16, u16)| #[trigger] occ@.contains(p) <==> cells.contains(p),
                k < free_cell_count(cells, width, height),
                seen == grid_free_count(cells, width, ky as int) + row_free_count(
                    cells,
                    (ky + 2) as u16,
                    kx as int,
                ),
                seen <= k,
            decreases width - kx,
        {
            let p = (kx + 2, ky + 2);
            if !contains_pos(occ, p) {
                if seen == k {
                    return p;
                }
                seen = seen + 1;
            }
            kx = kx + 1;
        }
        ky = ky + 1;
    }
    proof {
        assert(seen == free_cell_count(cells, width, height));
        assert(false);
    }
    (2, 2)
}

impl Game {
    /// A free interior cell chosen uniformly at random, or `Err` exactly
    /// when every interior cell is covered — the board-full signal the
    /// orchestrator turns into a win.
    pub fn get_random_unoccupied_pos(&self) -> (r: Result<(u16, u16), String>)
        requires
            1 <= self.width,
            self.width + 2 <= u16::MAX,
            self.height + 2 <= u16::MAX,
        ensures
            match r {
                Ok(p) => in_interior(self.width, self.height, p) && !occupied_cells(
                    self.worm.segments@,
                    self.fruits@,
                ).contains(p),
                Err(_) => true,
            },
            r is Err <==> free_cell_count(
                occupied_cells(self.worm.segments@, self.fruits@),
                self.width,
                self.height,
            ) == 0,
    {
        let occ = self.get_occupied_positions();
        let ghost cells = occupied_cells(self.worm.segments@, self.fruits@);
        let free = count_free_cells(&occ, self.width, self.height, Ghost(cells));
        if free == 0 {
            return Err(String::from_str("Board is full"));
        }
        let k = random_in_range(0, free);
        Ok(kth_free_cell(&occ, self.width, self.height, k, Ghost(cells)))
    }

    /// Clear the field and place `fruit_count` fruit in one row-major pass
    /// over the interior: each free cell is drawn with probability
    /// remaining-to-place over free-cells-left, a reservoir selection that
    /// is uniform over the free cells and always terminates in one scan.
    /// `Err` exactly when fewer free cells exist than fruit requested.
    pub fn regenerate_fruits(&mut self) -> (r: Result<(), String>)
        requires
            1 <= old(self).width,
            old(self).width + 2 <= u16::MAX,
            old(self).height + 2 <= u16::MAX,
            old(self).settings.fruit_count <= u32::MAX,
        ensures
            final(self).worm == old(self).worm,
            final(self).status == old(self).status,
            final(self).width == old(self).width,
            final(self).height == old(self).height,
            final(self).fps == old(self).fps,
            final(self).settings == old(self).settings,
            final(self).board == old(self).board,
            final(self).render_stats == old(self).render_stats,
            ({
                let cells = occupied_cells(old(self).worm.segments@, Seq::<Fruit>::empty());
                let fruits = final(self).fruits@;
                match r {
                    Ok(_) => {
                        &&& fruits.len() == old(self).settings.fruit_count
                        &&& forall|j: int|
                            0 <= j < fruits.len() ==> in_interior(
                                old(self).width,
                                old(self).height,
                                (#[trigger] fruits[j]).pos,
                            )
                        &&& forall|j: int|
                            0 <= j < fruits.len() ==> !cells.contains((#[trigger] fruits[j]).pos)
                        &&& forall|j1: int, j2: int|
                            0 <= j1 < j2 < fruits.len() ==> (#[trigger] fruits[j1]).pos != (
                            #[trigger] fruits[j2]).pos
                    },
                    Err(_) => fruits.len() == 0,
                }
            }),
            r is Err <==> free_cell_count(
                occupied_cells(old(self).worm.segments@, Seq::<Fruit>::empty()),
                old(self).width,
                old(self).height,
            ) < old(self).settings.fruit_count,
    {
        self.fruits = Vec::new();
        let occ = self.get_occupied_positions();
        let ghost cells = occupied_cells(self.worm.segments@, self.fruits@);
        proof {
            assert(self.fruits@ =~= Seq::<Fruit>::empty());
            assert(cells =~= occupied_cells(old(self).worm.segments@, Seq::<Fruit>::empty()));
        }
        let free_total = count_free_cells(&occ, self.width, self.height, Ghost(cells));
        if (free_total as u64) < self.settings.fruit_count {
            return Err(String::from_str("Board is full"));
        }
        let mut remaining: u32 = self.settings.fruit_count as u32;
        let mut free_left: u32 = free_total;
        let width = self.width;
        let height = self.height;
        let mut ky: u16 = 0;
        while ky < height
            invariant
                0 <= ky <= height,
                1 <= width,
                width + 2 <= u16::MAX,
                height + 2 <= u16::MAX,
                width == self.width,
                height == self.height,
                self.worm == old(self).worm,
                self.status == old(self).status,
                self.fps == old(self).fps,
                self.settings == old(self).settings,
                self.board == old(self).board,
                self.render_stats == old(self).render_stats,
                forall|p: (u16, u16)| #[trigger] occ@.contains(p) <==> cells.contains(p),
                free_total == free_cell_count(cells, width, height),
                free_left == free_total - grid_free_count(cells, width, ky as int),
                remaining <= free_left,
                remaining == self.settings.fruit_count - self.fruits@.len(),
                forall|j: int|
                    0 <= j < self.fruits@.len() ==> in_interior(
                        width,
                        height,
                        (#[trigger] self.fruits@[j]).pos,
                    ),
                forall|j: int|
                    0 <= j < self.fruits@.len() ==> !cells.contains(
                        (#[trigger] self.fruits@[j]).pos,
                    ),
                forall|j: int|
                    0 <= j < self.fruits@.len() ==> (#[trigger] self.fruits@[j]).pos.1 < ky + 2,
                forall|j1: int, j2: int|
                    0 <= j1 < j2 < self.fruits@.len() ==> (#[trigger] self.fruits@[j1]).pos != (
                    #[trigger] self.fruits@[j2]).pos,
            decreases height - ky,
        {
            let mut kx: u16 = 0;
            while kx < width
                invariant
                    0 <= kx <= width,
                    ky < height,
                    1 <= width,
                    width + 2 <= u16::MAX,
                    height + 2 <= u16::MAX,
                    width == self.width,
                    height == self.height,
                    self.worm == old(self).worm,
                    self.status == old(self).status,
                    self.fps == old(self).fps,
                    self.settings == old(self).settings,
                    self.board == old(self).board,
                    self.render_stats == old(self).render_stats,
                    forall|p: (u16, u16)| #[trigger] occ@.contains(p) <==> cells.contains(p),
                    free_total == free_cell_count(cells, width, height),
                    free_left == free_total - grid_free_count(cells, width, ky as int)
                        - row_free_count(cells, (ky + 2) as u16, kx as int),
                    remaining <= free_left,
                    remaining == self.settings.fruit_count - self.fruits@.len(),
                    forall|j: int|
                        0 <= j < self.fruits@.len() ==> in_interior(
                            width,
                            height,
                            (#[trigger] self.fruits@[j]).pos,
                        ),
                    forall|j: int|
                        0 <= j < self.fruits@.len() ==> !cells.contains(
                            (#[trigger] self.fruits@[j]).pos,
                        ),
                    forall|j: int|
                        0 <= j < self.fruits@.len() ==> ((#[trigger] self.fruits@[j]).pos.1 < ky
                            + 2 || (self.fruits@[j].pos.1 == ky + 2 && self.fruits@[j].pos.0 < kx
                            + 2)),
                    forall|j1: int, j2: int|
                        0 <= j1 < j2 < self.fruits@.len() ==> (#[trigger] self.fruits@[j1]).pos
                            != (#[trigger] self.fruits@[j2]).pos,
                decreases width - kx,
            {
                let p = (kx + 2, ky + 2);
                if !contains_pos(&occ, p) {
                    proof {
                        lemma_row_free_count_mono(
                            cells,
                            (ky + 2) as u16,
                            kx as int + 1,
                            width as int,
                        );
                        lemma_grid_free_count_mono(cells, width, ky as int + 1, height as int);
                    }
                    let place = random_ratio(remaining, free_left);
                    if place {
                        self.fruits.push(Fruit { pos: p });
                        remaining = remaining - 1;
                    }
                    free_left = free_left - 1;
                }
                kx = kx + 1;
            }
            ky = ky + 1;
        }
        proof {
            assert(free_left == 0);
            assert(remaining == 0);
        }
        Ok(())
    }
}

/// The worm an episode starts with: a straight horizontal chain of the
/// configured length, head at column `worm_length + 1`, on the vertically
/// centered row, moving right.
pub open spec fn fresh_worm(w: Worm, settings: GameSettings, height: u16) -> bool {
    &&& w.segments@.len() == settings.worm_length
    &&& forall|i: int|
        0 <= i < settings.worm_length ==> #[trigger] w.segments@[i] == (((settings.worm_length + 1
            - i) as u16), ((height / 2 + 1) as u16))
    &&& w.current_direction is Right
    &&& w.old_tail is None
}

/// The cells a fresh worm covers: the columns `2` to `worm_length + 1` of
/// its starting row, and nothing else.
proof fn lemma_fresh_worm_cells(w: Worm, settings: GameSettings, height: u16)
    requires
        fresh_worm(w, settings, height),
        settings.worm_length + 1 <= u16::MAX,
        height / 2 + 1 <= u16::MAX,
    ensures
        forall|x: u16, y: u16| #[trigger]
            occupied_cells(w.segments@, Seq::<Fruit>::empty()).contains((x, y)) <==> (y == height
                / 2 + 1 && 2 <= x <= settings.worm_length + 1),
{
    let wl = settings.worm_length as int;
    let y0 = (height / 2 + 1) as u16;
    let segs = w.segments@;
    assert forall|x: u16, y: u16| #[trigger]
        occupied_cells(segs, Seq::<Fruit>::empty()).contains((x, y)) <==> (y == height / 2 + 1 && 2
            <= x <= settings.worm_length + 1) by {
        if occupied_cells(segs, Seq::<Fruit>::empty()).contains((x, y)) {
            assert(segs.contains((x, y)));
            let i = choose|i: int| 0 <= i < segs.len() && segs[i] == (x, y);
            assert(segs[i] == (((wl + 1 - i) as u16), y0));
        }
        if y == height / 2 + 1 && 2 <= x <= settings.worm_length + 1 {
            let i = wl + 1 - x;
            assert(segs[i] == (((wl + 1 - i) as u16), y0));
            assert(segs[i] == (x, y));
            assert(segs.contains((x, y)));
        }
    }
}

/// A row none of whose interior cells is occupied counts entirely free.
proof fn lemma_row_free_count_empty_row(occ: Set<(u16, u16)>, y: u16, n: int)
    requires
        0 <= n,
        forall|x: u16| !#[trigger] occ.contains((x, y)),
    ensures
        row_free_count(occ, y, n) == n,
    decreases n,
{
    if n > 0 {
        lemma_row_free_count_empty_row(occ, y, n - 1);
    }
}

/// A row whose occupied cells are exactly the columns `2` to `c + 1`
/// counts `n - c` free cells among its `n` leftmost interior columns.
proof fn lemma_row_free_count_prefix_row(occ: Set<(u16, u16)>, y: u16, n: int, c: int)
    requires
        0 <= c,
        0 <= n <= 65534,
        forall|x: u16| #[trigger] occ.contains((x, y)) <==> 2 <= x <= c + 1,
    ensures
        row_free_count(occ, y, n) == if n <= c {
            0int
        } else {
            n - c
        },
    decreases n,
{
    if n > 0 {
        lemma_row_free_count_prefix_row(occ, y, n - 1, c);
    }
}

/// The free interior cells of a grid whose occupied cells are exactly the
/// columns `2` to `c + 1` of the single row `y0`.
proof fn lemma_grid_free_count_one_row(occ: Set<(u16, u16)>, width: u16, m: int, y0: u16, c: int)
    requires
        0 <= c <= width,
        0 <= m <= 65533,
        width + 2 <= u16::MAX,
        forall|x: u16, y: u16| #[trigger] occ.contains((x, y)) <==> (y == y0 && 2 <= x <= c + 1),
    ensures
        grid_free_count(occ, width, m) == m * (width as int) - (if 2 <= y0 <= m + 1 {
            c
        } else {
            0int
        }),
    decreases m,
{
    if m > 0 {
        lemma_grid_free_count_one_row(occ, width, m - 1, y0, c);
        let y = (m + 1) as u16;
        assert((m - 1) * (width as int) + (width as int) == m * (width as int))
            by (nonlinear_arith);
        if y == y0 {
            assert forall|x: u16| #[trigger] occ.contains((x, y)) <==> 2 <= x <= c + 1 by {}
            lemma_row_free_count_prefix_row(occ, y, width as int, c);
            assert(!(2 <= y0 <= m));
        } else {
            assert forall|x: u16| !#[trigger] occ.contains((x, y)) by {}
            lemma_row_free_count_empty_row(occ, y, width as int);
        }
    } else {
        assert(m * (width as int) == 0) by (nonlinear_arith)
            requires
                m == 0;
    }
}

/// What `handle_input` leaves untouched outside the field it acts on.
pub open spec fn same_entities(pre: Game, post: Game) -> bool {
    &&& post.worm == pre.worm
    &&& post.fruits@ == pre.fruits@
    &&& post.width == pre.width
    &&& post.height == pre.height
    &&& post.fps == pre.fps
    &&& post.settings == pre.settings
    &&& post.board == pre.board
    &&& post.render_stats == pre.render_stats
}

/// The quit transition: straight to `Exiting`, or through `ShowingStats`
/// when the frame-timing summary was requested.
pub open spec fn quit_applied(pre: Game, post: Game) -> bool {
    &&& post.status == if pre.settings.stats {
        GameStatus::ShowingStats
    } else {
        GameStatus::Exiting
    }
    &&& same_entities(pre, post)
}

/// A direction key: the worm turns exactly when the request is a
/// 90-degree turn; everything else stays as it was.
pub open spec fn turned(pre: Game, post: Game, d: MoveDirection) -> bool {
    &&& post.worm.current_direction == if crate::entity::perpendicular(
        pre.worm.current_direction,
        d,
    ) {
        d
    } else {
        pre.worm.current_direction
    }
    &&& post.worm.segments@ == pre.worm.segments@
    &&& post.worm.old_tail == pre.worm.old_tail
    &&& post.status == pre.status
    &&& post.fruits@ == pre.fruits@
    &&& post.width == pre.width
    &&& post.height == pre.height
    &&& post.fps == pre.fps
    &&& post.settings == pre.settings
    &&& post.board == pre.board
    &&& post.render_stats == pre.render_stats
}

/// A freshly (re)started episode: status back to `Playing`, a fresh worm,
/// and a full fruit field on distinct free interior cells.
pub open spec fn episode_restarted(pre: Game, post: Game) -> bool {
    &&& post.status is Playing
    &&& fresh_worm(post.worm, pre.settings, pre.height)
    &&& post.fruits@.len() == pre.settings.fruit_count
    &&& forall|j: int|
        0 <= j < post.fruits@.len() ==> in_interior(
            pre.width,
            pre.height,
            (#[trigger] post.fruits@[j]).pos,
        )
    &&& forall|j: int|
        0 <= j < post.fruits@.len() ==> !occupied_cells(
            post.worm.segments@,
            Seq::<Fruit>::empty(),
        ).contains((#[trigger] post.fruits@[j]).pos)
    &&& forall|j1: int, j2: int|
        0 <= j1 < j2 < post.fruits@.len() ==> (#[trigger] post.fruits@[j1]).pos != (
        #[trigger] post.fruits@[j2]).pos
    &&& post.width == pre.width
    &&& post.height == pre.height
    &&& post.fps == pre.fps
    &&& post.settings == pre.settings
    &&& post.board == pre.board
    &&& post.render_stats == pre.render_stats
}

/// What one drained key does to the session, by status: while `Playing`,
/// `q` quits and `w`/`a`/`s`/`d` request turns; after a win or a loss, `q`
/// quits and `r` restarts the episode; on the stats screen, `q` leaves.
/// Every other key — and a tick with no key — changes nothing.
pub open spec fn input_rel(pre: Game, post: Game, key: Option<char>) -> bool {
    match pre.status {
        GameStatus::Playing => match key {
            Option::Some(c) => if c == 'q' {
                quit_applied(pre, post)
            } else if c == 'w' {
                turned(pre, post, MoveDirection::Up)
            } else if c == 'a' {
                turned(pre, post, MoveDirection::Left)
            } else if c == 's' {
                turned(pre, post, MoveDirection::Down)
            } else if c == 'd' {
                turned(pre, post, MoveDirection::Right)
            } else {
                post.status == pre.status && same_entities(pre, post)
            },
            Option::None => post.status == pre.status && same_entities(pre, post),
        },
        GameStatus::Won | GameStatus::Lost => match key {
            Option::Some(c) => if c == 'q' {
                quit_applied(pre, post)
            } else if c == 'r' {
                episode_restarted(pre, post)
            } else {
                post.status == pre.status && same_entities(pre, post)
            },
            Option::None => post.status == pre.status && same_entities(pre, post),
        },
        GameStatus::ShowingStats => match key {
            Option::Some(c) => if c == 'q' {
                post.status is Exiting && same_entities(pre, post)
            } else {
                post.status == pre.status && same_entities(pre, post)
            },
            Option::None => post.status == pre.status && same_entities(pre, post),
        },
        _ => post.status == pre.status && same_entities(pre, post),
    }
}

impl Game {
    /// A new session for a terminal whose interior is `width` by `height`.
    /// An impossible configuration — a worm that cannot fit, or worm and
    /// fruit together exceeding the interior — is refused before the first
    /// tick by starting in `Exiting` instead of `Playing`.
    pub fn new(settings: GameSettings, width: u16, height: u16) -> (g: Game)
        ensures
            g.settings == settings,
            g.width == width,
            g.height == height,
            g.fps == 30,
            g.board.width == width,
            g.board.height == height,
            g.fruits@.len() == 0,
            g.render_stats.frame_count == 0,
            g.render_stats.total_render_duration == 0,
            g.status == if config_ok(settings, width, height) {
                GameStatus::Playing
            } else {
                GameStatus::Exiting
            },
            config_ok(settings, width, height) ==> fresh_worm(g.worm, settings, height),
            g.inv(),
    {
        let mut ok = settings.worm_length >= 1 && settings.worm_length <= width && height >= 2
            && width <= u16::MAX - 2 && height <= u16::MAX - 2;
        if ok {
            proof {
                assert((width as int) <= (width as int) * (height as int)) by (nonlinear_arith)
                    requires
                        1 <= (width as int),
                        1 <= (height as int);
                assert((width as int) * (height as int) <= 65535 * 65535) by (nonlinear_arith)
                    requires
                        0 <= (width as int) <= 65535,
                        0 <= (height as int) <= 65535;
            }
            ok = settings.fruit_count <= (width as u64) * (height as u64) - (
            settings.worm_length as u64);
        }
        let worm = if ok {
            Worm::new(settings.worm_length + 1, height / 2 + 1, settings.worm_length)
        } else {
            Worm::new(1, 1, 1)
        };
        Game {
            fps: 30,
            width: width,
            height: height,
            board: Board { width: width, height: height, border_types: BorderTypes::default() },
            worm: worm,
            fruits: Vec::new(),
            status: if ok {
                GameStatus::Playing
            } else {
                GameStatus::Exiting
            },
            settings: settings,
            render_stats: RenderStats::new(),
        }
    }

    /// Begin a fresh episode: status back to `Playing`, a fresh worm, and
    /// a newly placed fruit field. The configuration check done at
    /// construction guarantees the board has room, so placement cannot
    /// fail here.
    pub fn restart(&mut self)
        requires
            config_ok(old(self).settings, old(self).width, old(self).height),
            old(self).board.width == old(self).width,
            old(self).board.height == old(self).height,
            1 <= old(self).fps,
        ensures
            episode_restarted(*old(self), *final(self)),
            final(self).inv(),
    {
        self.status = GameStatus::Playing;
        self.worm = Worm::new(
            self.settings.worm_length + 1,
            self.height / 2 + 1,
            self.settings.worm_length,
        );
        proof {
            assert(fresh_worm(self.worm, self.settings, self.height));
            lemma_fresh_worm_cells(self.worm, self.settings, self.height);
            let cells = occupied_cells(self.worm.segments@, Seq::<Fruit>::empty());
            lemma_grid_free_count_one_row(
                cells,
                self.width,
                self.height as int,
                (self.height / 2 + 1) as u16,
                self.settings.worm_length as int,
            );
            assert(free_cell_count(cells, self.width, self.height) == (self.height as int) * (
            self.width as int) - (self.settings.worm_length as int));
            assert((self.height as int) * (self.width as int) == (self.width as int) * (
            self.height as int)) by (nonlinear_arith);
            assert((self.width as int) * (self.height as int) <= 65533 * 65533)
                by (nonlinear_arith)
                requires
                    0 <= (self.width as int) <= 65533,
                    0 <= (self.height as int) <= 65533;
        }
        let r = self.regenerate_fruits();
        proof {
            assert(!(r is Err));
        }
    }

    /// End the session: straight to `Exiting`, or through `ShowingStats`
    /// first when the frame-timing summary was requested (the caller shows
    /// the summary and keeps polling until `q` arrives).
    pub fn quit(&mut self)
        ensures
            quit_applied(*old(self), *final(self)),
    {
        if self.settings.stats {
            self.status = GameStatus::ShowingStats;
        } else {
            self.status = GameStatus::Exiting;
        }
    }

    /// Apply the single key this tick's drain kept, per `input_rel`.
    pub fn handle_input(&mut self, key: Option<char>)
        requires
            old(self).inv(),
        ensures
            input_rel(*old(self), *final(self), key),
            final(self).inv(),
    {
        match self.status {
            GameStatus::Playing => match key {
                Some(c) => {
                    if c == 'q' {
                        self.quit();
                    } else if c == 'w' {
                        self.worm.try_set_direction(MoveDirection::Up);
                    } else if c == 'a' {
                        self.worm.try_set_direction(MoveDirection::Left);
                    } else if c == 's' {
                        self.worm.try_set_direction(MoveDirection::Down);
                    } else if c == 'd' {
                        self.worm.try_set_direction(MoveDirection::Right);
                    }
                },
                None => {},
            },
            GameStatus::Won | GameStatus::Lost => match key {
                Some(c) => {
                    if c == 'q' {
                        self.quit();
                    } else if c == 'r' {
                        self.restart();
                    }
                },
                None => {},
            },
            GameStatus::ShowingStats => match key {
                Some(c) => {
                    if c == 'q' {
                        self.status = GameStatus::Exiting;
                    }
                },
                None => {},
            },
            _ => {},
        }
    }
}

/// The consumption branch of a tick: the worm grows behind its moved
/// chain, and fruit `i` — the one the head landed on — relocates to a
/// free interior cell; when no interior cell is free the episode is `Won`
/// and the field stays as it was. Consumption never removes a fruit: the
/// field keeps its size for the whole episode.
pub open spec fn consumed_tick(pre: Game, post: Game, i: int) -> bool {
    let s = pre.worm.segments@;
    let d = pre.worm.current_direction;
    let m = moved_seq(s, d);
    let grown = m.push(grow_target16(m, d));
    let occ = occupied_cells(grown, pre.fruits@);
    &&& post.worm.segments@ == grown
    &&& post.fruits@.len() == pre.fruits@.len()
    &&& forall|j: int|
        0 <= j < pre.fruits@.len() && j != i ==> #[trigger] post.fruits@[j] == pre.fruits@[j]
    &&& if free_cell_count(occ, pre.width, pre.height) == 0 {
        &&& post.status is Won
        &&& post.fruits@[i] == pre.fruits@[i]
    } else {
        &&& post.status is Playing
        &&& in_interior(pre.width, pre.height, post.fruits@[i].pos)
        &&& !occ.contains(post.fruits@[i].pos)
    }
}

/// What one `Playing` tick does. The worm moves first. If its head landed
/// on a fruit — necessarily the first fruit at that cell — the worm grows
/// and that fruit relocates (`consumed_tick`), and the tick ends there.
/// Otherwise the episode is `Lost` when the head left the interior or
/// landed on another segment, and stays `Playing` else.
pub open spec fn tick_rel(pre: Game, post: Game) -> bool {
    let s = pre.worm.segments@;
    let d = pre.worm.current_direction;
    let h = stepped16(s[0], d);
    let m = moved_seq(s, d);
    &&& post.width == pre.width
    &&& post.height == pre.height
    &&& post.fps == pre.fps
    &&& post.settings == pre.settings
    &&& post.board == pre.board
    &&& post.render_stats == pre.render_stats
    &&& post.worm.current_direction == d
    &&& post.worm.old_tail == Some(s[s.len() - 1])
    &&& if fruit_at(pre.fruits@, h) {
        exists|i: int|
            {
                &&& 0 <= i < pre.fruits@.len()
                &&& (#[trigger] pre.fruits@[i]).pos == h
                &&& forall|j: int| 0 <= j < i ==> (#[trigger] pre.fruits@[j]).pos != h
                &&& consumed_tick(pre, post, i)
            }
    } else {
        &&& post.worm.segments@ == m
        &&& post.fruits@ == pre.fruits@
        &&& post.status == if !in_interior(pre.width, pre.height, h) {
            GameStatus::Lost
        } else if exists|j: int| 1 <= j < m.len() && #[trigger] m[j] == h {
            GameStatus::Lost
        } else {
            GameStatus::Playing
        }
    }
}

/// One step and its start cell share an edge.
proof fn lemma_stepped_adjacent(p: (u16, u16), d: MoveDirection)
    requires
        0 <= stepped(p, d).0 <= u16::MAX,
        0 <= stepped(p, d).1 <= u16::MAX,
    ensures
        cells_adjacent(stepped16(p, d), p),
{
}

/// A move keeps the chain connected: consecutive segments of the moved
/// chain are adjacent wherever the original chain was.
proof fn lemma_moved_adjacent(s: Seq<(u16, u16)>, d: MoveDirection)
    requires
        s.len() >= 1,
        forall|i: int|
            0 <= i < s.len() - 1 ==> #[trigger] cells_adjacent(s[i], s[i + 1]),
        0 <= stepped(s[0], d).0 <= u16::MAX,
        0 <= stepped(s[0], d).1 <= u16::MAX,
    ensures
        forall|i: int|
            0 <= i < s.len() - 1 ==> #[trigger] cells_adjacent(
                moved_seq(s, d)[i],
                moved_seq(s, d)[i + 1],
            ),
{
    let m = moved_seq(s, d);
    assert forall|i: int| 0 <= i < s.len() - 1 implies #[trigger] cells_adjacent(
        m[i],
        m[i + 1],
    ) by {
        if i == 0 {
            lemma_stepped_adjacent(s[0], d);
            assert(m[0] == stepped16(s[0], d));
            assert(m[1] == s[0]);
        } else {
            let k = i - 1;
            assert(cells_adjacent(s[k], s[k + 1]));
            assert(m[i] == s[k]);
            assert(m[i + 1] == s[k + 1]);
        }
    }
}

impl Game {
    /// One `Playing` tick of the state machine, after the input drain:
    /// advance the worm, consume and relocate a fruit under the head, or
    /// detect a wall or self collision.
    pub fn update_game_state(&mut self)
        requires
            old(self).inv(),
            old(self).status is Playing,
        ensures
            tick_rel(*old(self), *final(self)),
            final(self).inv(),
    {
        let ghost s = old(self).worm.segments@;
        let ghost d = old(self).worm.current_direction;
        let ghost m = moved_seq(s, d);
        self.worm.move_forward();
        let head = self.worm.segments[0];
        proof {
            assert(head == stepped16(s[0], d));
            lemma_moved_adjacent(s, d);
            assert forall|q: int|
                0 <= q < self.worm.segments@.len() - 1 implies #[trigger] cells_adjacent(
                self.worm.segments@[q],
                self.worm.segments@[q + 1],
            ) by {
                assert(cells_adjacent(moved_seq(s, d)[q], moved_seq(s, d)[q + 1]));
            }
            assert(self.worm.wf());
        }
        let mut i: usize = 0;
        while i < self.fruits.len()
            invariant
                old(self).inv(),
                old(self).status is Playing,
                s == old(self).worm.segments@,
                d == old(self).worm.current_direction,
                m == moved_seq(s, d),
                self.worm.segments@ == m,
                self.worm.current_direction == d,
                self.worm.old_tail == Some(s[s.len() - 1]),
                self.fruits@ == old(self).fruits@,
                self.status == old(self).status,
                self.width == old(self).width,
                self.height == old(self).height,
                self.fps == old(self).fps,
                self.settings == old(self).settings,
                self.board == old(self).board,
                self.render_stats == old(self).render_stats,
                head == stepped16(s[0], d),
                forall|q: int|
                    0 <= q < m.len() - 1 ==> #[trigger] cells_adjacent(m[q], m[q + 1]),
                0 <= i <= self.fruits@.len(),
                forall|j: int| 0 <= j < i ==> (#[trigger] self.fruits@[j]).pos != head,
            decreases self.fruits@.len() - i,
        {
            let fp = self.fruits[i].pos;
            if fp.0 == head.0 && fp.1 == head.1 {
                proof {
                    assert(self.fruits@[i as int].pos == head);
                    assert(in_interior(self.width, self.height, head));
                    // the grow target stays within u16: the chain's last
                    // two cells are interior and adjacent
                    if m.len() >= 2 {
                        let k = m.len() - 2;
                        assert(cells_adjacent(m[k], m[k + 1]));
                        assert(cells_adjacent(m[m.len() - 2], m[m.len() - 1]));
                        if m.len() >= 3 {
                            assert(m[m.len() - 1] == s[s.len() - 2]);
                            assert(in_interior(
                                old(self).width,
                                old(self).height,
                                s[s.len() - 2],
                            ));
                        } else {
                            assert(m[m.len() - 1] == s[0]);
                            assert(in_interior(old(self).width, old(self).height, s[0]));
                        }
                    } else {
                        assert(m[0] == head);
                    }
                }
                self.worm.grow();
                let ghost grown = self.worm.segments@;
                proof {
                    assert(grown == m.push(grow_target16(m, d)));
                }
                match self.get_random_unoccupied_pos() {
                    Ok(pos) => {
                        self.fruits[i] = Fruit { pos: pos };
                        proof {
                            assert(fruit_at(old(self).fruits@, head));
                            assert(consumed_tick(*old(self), *self, i as int));
                            assert(tick_rel(*old(self), *self));
                            // the session keeps its invariant: the grown
                            // chain is connected, every cell the next tick
                            // reads is interior, and the fruit field stays
                            // interior
                            assert forall|q: int|
                                0 <= q < self.worm.segments@.len() - 1 implies in_interior(
                                self.width,
                                self.height,
                                #[trigger] self.worm.segments@[q],
                            ) by {
                                if q == 0 {
                                } else {
                                    assert(self.worm.segments@[q] == s[q - 1]);
                                }
                            }
                            assert forall|q: int|
                                0 <= q < self.worm.segments@.len() - 1 implies
                                #[trigger] cells_adjacent(
                                self.worm.segments@[q],
                                self.worm.segments@[q + 1],
                            ) by {
                                if q < m.len() - 1 {
                                    assert(cells_adjacent(m[q], m[q + 1]));
                                } else {
                                    let t = m[m.len() - 1];
                                    let gt = grow_target16(m, d);
                                    assert(self.worm.segments@[q] == t);
                                    assert(self.worm.segments@[q + 1] == gt);
                                    if m.len() >= 2 {
                                        let k = m.len() - 2;
                                        assert(cells_adjacent(m[k], m[k + 1]));
                                    }
                                }
                            }
                            assert(self.inv());
                        }
                        return ;
                    },
                    Err(_) => {
                        self.status = GameStatus::Won;
                        proof {
                            assert(fruit_at(old(self).fruits@, head));
                            assert(consumed_tick(*old(self), *self, i as int));
                            assert(tick_rel(*old(self), *self));
                            assert forall|q: int|
                                0 <= q < self.worm.segments@.len() - 1 implies
                                #[trigger] cells_adjacent(
                                self.worm.segments@[q],
                                self.worm.segments@[q + 1],
                            ) by {
                                if q < m.len() - 1 {
                                    assert(cells_adjacent(m[q], m[q + 1]));
                                } else {
                                    if m.len() >= 2 {
                                        let k = m.len() - 2;
                                        assert(cells_adjacent(m[k], m[k + 1]));
                                    }
                                }
                            }
                            assert(self.inv());
                        }
                        return ;
                    },
                }
            }
            i = i + 1;
        }
        proof {
            assert(!fruit_at(self.fruits@, head));
        }
        // wall collision
        if head.0 < 2 || head.0 > self.width + 1 || head.1 < 2 || head.1 > self.height + 1 {
            self.status = GameStatus::Lost;
            return ;
        }
        // self collision
        let mut j: usize = 1;
        while j < self.worm.segments.len()
            invariant
                old(self).inv(),
                old(self).status is Playing,
                s == old(self).worm.segments@,
                d == old(self).worm.current_direction,
                m == moved_seq(s, d),
                self.worm.segments@ == m,
                self.worm.current_direction == d,
                self.worm.old_tail == Some(s[s.len() - 1]),
                self.fruits@ == old(self).fruits@,
                self.status == old(self).status,
                self.width == old(self).width,
                self.height == old(self).height,
                self.fps == old(self).fps,
                self.settings == old(self).settings,
                self.board == old(self).board,
                self.render_stats == old(self).render_stats,
                head == stepped16(s[0], d),
                forall|q: int|
                    0 <= q < m.len() - 1 ==> #[trigger] cells_adjacent(m[q], m[q + 1]),
                !fruit_at(self.fruits@, head),
                in_interior(self.width, self.height, head),
                1 <= j <= m.len(),
                forall|q: int| 1 <= q < j ==> m[q] != head,
            decreases m.len() - j,
        {
            let sq = self.worm.segments[j];
            if sq.0 == head.0 && sq.1 == head.1 {
                self.status = GameStatus::Lost;
                proof {
                    assert(m[j as int] == head);
                    assert(tick_rel(*old(self), *self));
                }
                return ;
            }
            j = j + 1;
        }
        proof {
            assert(!(exists|q: int| 1 <= q < m.len() && #[trigger] m[q] == head));
            assert(tick_rel(*old(self), *self));
            assert forall|q: int|
                0 <= q < self.worm.segments@.len() - 1 implies in_interior(
                self.width,
                self.height,
                #[trigger] self.worm.segments@[q],
            ) by {
                if q == 0 {
                } else {
                    assert(self.worm.segments@[q] == s[q - 1]);
                }
            }
            assert(self.inv());
        }
    }
}

impl Game {
    /// The end-of-episode overlay: the outcome message centered on the
    /// board and the two key hints below it, each string paired with the
    /// cell its first character goes to.
    pub fn finished_writes(&self) -> (r: Vec<((u16, u16), &'static str)>)
        requires
            self.width >= 11,
        ensures
            r@.len() == 3,
            ({
                let msg_len: int = if self.status is Won {
                    9int
                } else {
                    11int
                };
                let wo: int = (self.width - msg_len) / 2;
                let ho: int = self.height as int / 2;
                &&& r@[0].0 == ((wo as u16), (ho as u16))
                &&& r@[0].1@ == if self.status is Won {
                    "You Won!!"@
                } else {
                    "You Died..."@
                }
                &&& r@[1].0 == ((wo as u16), ((ho + 3) as u16))
                &&& r@[1].1@ == "press q to quit"@
                &&& r@[2].0 == ((wo as u16), ((ho + 5) as u16))
                &&& r@[2].1@ == "press r to retry"@
            }),
    {
        let won = match self.status {
            GameStatus::Won => true,
            _ => false,
        };
        let msg: &'static str = if won {
            "You Won!!"
        } else {
            "You Died..."
        };
        let msg_len: u16 = if won {
            9
        } else {
            11
        };
        let wo: u16 = (self.width - msg_len) / 2;
        let ho: u16 = self.height / 2;
        let mut r: Vec<((u16, u16), &'static str)> = Vec::new();
        r.push(((wo, ho), msg));
        r.push(((wo, ho + 3), "press q to quit"));
        r.push(((wo, ho + 5), "press r to retry"));
        r
    }
}

/// While an episode stays `Playing` through a tick that consumed no
/// fruit, pairwise-distinct worm segments stay pairwise distinct: a tick
/// whose move lands the head on another segment ends `Lost`, never
/// `Playing` with a duplicate.
pub proof fn lemma_tick_keeps_distinct(pre: Game, post: Game)
    requires
        tick_rel(pre, post),
        pre.worm.segments@.len() >= 1,
        crate::entity::pairwise_distinct(pre.worm.segments@),
        !fruit_at(pre.fruits@, stepped16(pre.worm.segments@[0], pre.worm.current_direction)),
        post.status is Playing,
    ensures
        crate::entity::pairwise_distinct(post.worm.segments@),
{
    let s = pre.worm.segments@;
    let d = pre.worm.current_direction;
    let h = stepped16(s[0], d);
    let m = moved_seq(s, d);
    assert(post.worm.segments@ == m);
    assert(!(exists|q: int| 1 <= q < m.len() && #[trigger] m[q] == h));
    assert forall|i: int, j: int| 0 <= i < j < m.len() implies m[i] != m[j] by {
        if i == 0 {
            assert(m[j] == s[j - 1]);
            assert(m[0] == h);
        } else {
            assert(m[i] == s[i - 1]);
            assert(m[j] == s[j - 1]);
            assert(s[i - 1] != s[j - 1]);
        }
    }
}

/// A consumption tick keeps the segments pairwise distinct provided the
/// moved head did not land on the chain and the growth cell is fresh —
/// the two collisions a consumption tick does not test for.
pub proof fn lemma_consumption_keeps_distinct(pre: Game, post: Game)
    requires
        tick_rel(pre, post),
        pre.worm.segments@.len() >= 1,
        crate::entity::pairwise_distinct(pre.worm.segments@),
        fruit_at(pre.fruits@, stepped16(pre.worm.segments@[0], pre.worm.current_direction)),
        forall|q: int|
            1 <= q < pre.worm.segments@.len() ==> #[trigger] moved_seq(
                pre.worm.segments@,
                pre.worm.current_direction,
            )[q] != stepped16(pre.worm.segments@[0], pre.worm.current_direction),
        forall|q: int|
            0 <= q < pre.worm.segments@.len() ==> #[trigger] moved_seq(
                pre.worm.segments@,
                pre.worm.current_direction,
            )[q] != grow_target16(
                moved_seq(pre.worm.segments@, pre.worm.current_direction),
                pre.worm.current_direction,
            ),
    ensures
        crate::entity::pairwise_distinct(post.worm.segments@),
{
    let s = pre.worm.segments@;
    let d = pre.worm.current_direction;
    let h = stepped16(s[0], d);
    let m = moved_seq(s, d);
    let gt = grow_target16(m, d);
    let i = choose|i: int|
        {
            &&& 0 <= i < pre.fruits@.len()
            &&& (#[trigger] pre.fruits@[i]).pos == h
            &&& forall|j: int| 0 <= j < i ==> (#[trigger] pre.fruits@[j]).pos != h
            &&& consumed_tick(pre, post, i)
        };
    assert(consumed_tick(pre, post, i));
    assert(post.worm.segments@ == m.push(gt));
    let g = m.push(gt);
    assert forall|a: int, b: int| 0 <= a < b < g.len() implies g[a] != g[b] by {
        if b == g.len() - 1 {
            assert(g[a] == m[a]);
            assert(g[b] == gt);
        } else {
            assert(g[a] == m[a]);
            assert(g[b] == m[b]);
            if a == 0 {
                assert(m[0] == h);
                assert(m[b] != h);
            } else {
                assert(m[a] == s[a - 1]);
                assert(m[b] == s[b - 1]);
                assert(s[a - 1] != s[b - 1]);
            }
        }
    }
}

/// Relies on `rand::Rng::gen_range` over a half-open range, through
/// `rand::thread_rng`: the result lies in `[lo, hi)`. The call panics on an
/// empty range, which the precondition rules out.
#[verifier::external_body]
fn random_in_range(lo: u32, hi: u32) -> (r: u32)
    requires
        lo < hi,
    ensures
        lo <= r < hi,
{
    rand::Rng::gen_range(&mut rand::thread_rng(), lo..hi)
}

/// Relies on `rand::Rng::gen_ratio`, through `rand::thread_rng`: true with
/// probability `numerator / denominator`, guaranteed true when the ratio is
/// one and false when the numerator is zero. The call panics when the
/// denominator is zero or the numerator exceeds it, which the precondition
/// rules out.
#[verifier::external_body]
fn random_ratio(numerator: u32, denominator: u32) -> (r: bool)
    requires
        0 < denominator,
        numerator <= denominator,
    ensures
        numerator == denominator ==> r,
        numerator == 0 ==> !r,
{
    rand::Rng::gen_ratio(&mut rand::thread_rng(), numerator, denominator)
}

} // verus!
