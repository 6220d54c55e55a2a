//! The entities on the grid: the player-controlled worm, the board with its
//! border glyphs, and the fruit. Cells are addressed as `(column, row)`
//! pairs, 1-based, with a one-cell border around the playable interior.

use vstd::prelude::*;

verus! {

/// The four directions the worm can travel in.
#[derive(Clone, Copy, Debug, PartialEq, Eq, Structural)]
pub enum MoveDirection {
    Up,
    Down,
    Left,
    Right,
}

/// Column offset of one step in direction `d`.
pub open spec fn dir_dx(d: MoveDirection) -> int {
    match d {
        MoveDirection::Left => -1,
        MoveDirection::Right => 1,
        _ => 0,
    }
}

/// Row offset of one step in direction `d`.
pub open spec fn dir_dy(d: MoveDirection) -> int {
    match d {
        MoveDirection::Up => -1,
        MoveDirection::Down => 1,
        _ => 0,
    }
}

/// Whether the axis of motion of `d` is vertical.
pub open spec fn is_vertical(d: MoveDirection) -> bool {
    d is Up || d is Down
}

/// Whether `a` and `b` are at right angles (a legal 90-degree turn).
pub open spec fn perpendicular(a: MoveDirection, b: MoveDirection) -> bool {
    is_vertical(a) != is_vertical(b)
}

/// The cell one step from `p` in direction `d`, in unbounded coordinates.
pub open spec fn stepped(p: (u16, u16), d: MoveDirection) -> (int, int) {
    (p.0 + dir_dx(d), p.1 + dir_dy(d))
}

/// `stepped`, narrowed back to grid coordinates. Meaningful only when the
/// step stays within the `u16` range.
pub open spec fn stepped16(p: (u16, u16), d: MoveDirection) -> (u16, u16) {
    (stepped(p, d).0 as u16, stepped(p, d).1 as u16)
}

/// Two cells sharing an edge: equal on one axis, one apart on the other.
pub open spec fn cells_adjacent(a: (u16, u16), b: (u16, u16)) -> bool {
    ||| a.0 == b.0 && (a.1 - b.1 == 1 || b.1 - a.1 == 1)
    ||| a.1 == b.1 && (a.0 - b.0 == 1 || b.0 - a.0 == 1)
}

/// The segment chain after one forward move: every segment takes its
/// predecessor's cell and the head advances one step in `d`.
pub open spec fn moved_seq(s: Seq<(u16, u16)>, d: MoveDirection) -> Seq<(u16, u16)> {
    Seq::new(s.len(), |i: int| if i == 0 { stepped16(s[0], d) } else { s[i - 1] })
}

/// The cell one unit behind the tail of chain `s`: the tail's predecessor
/// mirrored across the tail, or, for a single-segment chain, one step
/// against the direction of travel `d`. In unbounded coordinates.
pub open spec fn grow_target(s: Seq<(u16, u16)>, d: MoveDirection) -> (int, int) {
    if s.len() >= 2 {
        let t = s[s.len() - 1];
        let p = s[s.len() - 2];
        (2 * t.0 - p.0, 2 * t.1 - p.1)
    } else {
        let t = s[0];
        (t.0 - dir_dx(d), t.1 - dir_dy(d))
    }
}

/// `grow_target`, narrowed back to grid coordinates.
pub open spec fn grow_target16(s: Seq<(u16, u16)>, d: MoveDirection) -> (u16, u16) {
    (grow_target(s, d).0 as u16, grow_target(s, d).1 as u16)
}

/// No two cells of the chain coincide.
pub open spec fn pairwise_distinct(s: Seq<(u16, u16)>) -> bool {
    forall|i: int, j: int| 0 <= i < j < s.len() ==> s[i] != s[j]
}

/// Growth takes effect only on the subsequent move: moving a chain right
/// after it grew yields the stepped head followed by every cell of the
/// original chain — the appended placeholder is discarded by the shift
/// while the count stays one larger, so the net effect is that the tail
/// stands still for one move.
pub proof fn lemma_grow_then_move(s: Seq<(u16, u16)>, d: MoveDirection)
    requires
        s.len() >= 1,
    ensures
        moved_seq(s.push(grow_target16(s, d)), d).len() == s.len() + 1,
        moved_seq(s.push(grow_target16(s, d)), d)[0] == stepped16(s[0], d),
        forall|i: int|
            1 <= i <= s.len() ==> #[trigger] moved_seq(s.push(grow_target16(s, d)), d)[i] == s[i
                - 1],
{
    let g = s.push(grow_target16(s, d));
    assert(g[0] == s[0]);
    assert forall|i: int| 1 <= i <= s.len() implies #[trigger] moved_seq(g, d)[i] == s[i - 1] by {
        assert(moved_seq(g, d)[i] == g[i - 1]);
        assert(g[i - 1] == s[i - 1]);
    }
}

/// The player: an ordered chain of cells, head first, together with the
/// direction of travel and the cell the tail vacated on the last move
/// (kept for one frame so the renderer can erase it).
#[derive(Debug)]
pub struct Worm {
    pub segments: Vec<(u16, u16)>,
    pub old_tail: Option<(u16, u16)>,
    pub current_direction: MoveDirection,
}

impl Worm {
    /// Chain well-formedness: at least one segment, and consecutive
    /// segments occupy adjacent cells.
    pub open spec fn wf(self) -> bool {
        &&& self.segments@.len() >= 1
        &&& forall|i: int|
            0 <= i < self.segments@.len() - 1 ==> #[trigger] cells_adjacent(
                self.segments@[i],
                self.segments@[i + 1],
            )
    }

    /// A fresh worm: a straight horizontal chain of `length` segments with
    /// the head at `(x, y)`, trailing to the left, moving right.
    pub fn new(x: u16, y: u16, length: u16) -> (w: Worm)
        requires
            1 <= length,
            length <= x + 1,
        ensures
            w.segments@.len() == length,
            forall|i: int| 0 <= i < length ==> w.segments@[i] == (((x - i) as u16), y),
            w.current_direction is Right,
            w.old_tail is None,
            w.wf(),
    {
        let mut segments: Vec<(u16, u16)> = Vec::new();
        let mut i: u16 = 0;
        while i < length
            invariant
                i <= length,
                length <= x + 1,
                segments@.len() == i,
                forall|j: int| 0 <= j < i ==> segments@[j] == (((x - j) as u16), y),
            decreases length - i,
        {
            segments.push((x - i, y));
            i = i + 1;
        }
        let w = Worm { segments, current_direction: MoveDirection::Right, old_tail: None };
        assert forall|i: int| 0 <= i < w.segments@.len() - 1 implies #[trigger] cells_adjacent(
            w.segments@[i],
            w.segments@[i + 1],
        ) by {
            assert(w.segments@[i] == (((x - i) as u16), y));
            assert(w.segments@[i + 1] == (((x - (i + 1)) as u16), y));
        }
        w
    }

    /// Number of segments in the chain.
    pub fn length(&mut self) -> (n: usize)
        ensures
            *final(self) == *old(self),
            n == old(self).segments@.len(),
    {
        self.segments.len()
    }

    /// The head segment's cell.
    pub fn head(&mut self) -> (p: (u16, u16))
        requires
            old(self).segments@.len() >= 1,
        ensures
            *final(self) == *old(self),
            p == old(self).segments@[0],
    {
        self.segments[0]
    }

    /// The tail segment's cell.
    pub fn tail(&mut self) -> (p: (u16, u16))
        requires
            old(self).segments@.len() >= 1,
        ensures
            *final(self) == *old(self),
            p == old(self).segments@[old(self).segments@.len() - 1],
    {
        self.segments[self.segments.len() - 1]
    }

    /// Append one segment behind the tail, along the tail's trailing axis.
    /// The appended cell persists only until the next `move_forward`, which
    /// shifts it away while keeping the increased count: growth must be
    /// requested before that move for the extra segment to take effect.
    pub fn grow(&mut self)
        requires
            old(self).segments@.len() >= 1,
            0 <= grow_target(old(self).segments@, old(self).current_direction).0 <= u16::MAX,
            0 <= grow_target(old(self).segments@, old(self).current_direction).1 <= u16::MAX,
        ensures
            final(self).segments@ == old(self).segments@.push(
                grow_target16(old(self).segments@, old(self).current_direction),
            ),
            final(self).current_direction == old(self).current_direction,
            final(self).old_tail == old(self).old_tail,
    {
        let n = self.segments.len();
        let t = self.segments[n - 1];
        let new_seg: (u16, u16) = if n >= 2 {
            let p = self.segments[n - 2];
            let gx = 2 * (t.0 as u32) - (p.0 as u32);
            let gy = 2 * (t.1 as u32) - (p.1 as u32);
            (gx as u16, gy as u16)
        } else {
            match self.current_direction {
                MoveDirection::Up => (t.0, t.1 + 1),
                MoveDirection::Down => (t.0, t.1 - 1),
                MoveDirection::Left => (t.0 + 1, t.1),
                MoveDirection::Right => (t.0 - 1, t.1),
            }
        };
        self.segments.push(new_seg);
    }

    /// Turn if `new_direction` is perpendicular to the current direction;
    /// a reversal is silently rejected, since it would drive the head into
    /// the second segment.
    pub fn try_set_direction(&mut self, new_direction: MoveDirection)
        ensures
            final(self).current_direction == if perpendicular(
                old(self).current_direction,
                new_direction,
            ) {
                new_direction
            } else {
                old(self).current_direction
            },
            final(self).segments@ == old(self).segments@,
            final(self).old_tail == old(self).old_tail,
    {
        match (self.current_direction, new_direction) {
            (
                MoveDirection::Up | MoveDirection::Down,
                MoveDirection::Left | MoveDirection::Right,
            ) => {
                self.current_direction = new_direction;
            },
            (
                MoveDirection::Left | MoveDirection::Right,
                MoveDirection::Up | MoveDirection::Down,
            ) => {
                self.current_direction = new_direction;
            },
            _ => {},
        }
    }

    /// Shift every segment to its predecessor's cell and advance the head
    /// one step in the current direction; the vacated tail cell is kept in
    /// `old_tail` for the renderer. The segment count is unchanged. Bounds
    /// and collision checks are the orchestrator's job, not done here.
    pub fn move_forward(&mut self)
        requires
            old(self).segments@.len() >= 1,
            0 <= stepped(old(self).segments@[0], old(self).current_direction).0 <= u16::MAX,
            0 <= stepped(old(self).segments@[0], old(self).current_direction).1 <= u16::MAX,
        ensures
            final(self).segments@ == moved_seq(old(self).segments@, old(self).current_direction),
            final(self).segments@.len() == old(self).segments@.len(),
            final(self).old_tail == Some(old(self).segments@[old(self).segments@.len() - 1]),
            final(self).current_direction == old(self).current_direction,
    {
        let n = self.segments.len();
        self.old_tail = Some(self.segments[n - 1]);
        let mut i: usize = n - 1;
        while i >= 1
            invariant
                i < n,
                n == self.segments@.len(),
                n == old(self).segments@.len(),
                self.current_direction == old(self).current_direction,
                self.old_tail == Some(old(self).segments@[n - 1]),
                forall|j: int| 0 <= j <= i ==> self.segments@[j] == old(self).segments@[j],
                forall|j: int| i < j < n ==> self.segments@[j] == old(self).segments@[j - 1],
            decreases i,
        {
            let prev = self.segments[i - 1];
            self.segments[i] = prev;
            i = i - 1;
        }
        let h = self.segments[0];
        let nh: (u16, u16) = match self.current_direction {
            MoveDirection::Up => (h.0, h.1 - 1),
            MoveDirection::Down => (h.0, h.1 + 1),
            MoveDirection::Left => (h.0 - 1, h.1),
            MoveDirection::Right => (h.0 + 1, h.1),
        };
        self.segments[0] = nh;
        assert(self.segments@ =~= moved_seq(old(self).segments@, old(self).current_direction));
    }

    /// The cells to draw for this worm: one glyph per segment and, when a
    /// move just happened, a space over the cell the tail vacated. Only
    /// these cells change between frames, so drawing them is the whole
    /// per-tick render.
    pub fn render_writes(&self) -> (r: Vec<((u16, u16), char)>)
        ensures
            r@.len() == self.segments@.len() + (if self.old_tail is Some {
                1int
            } else {
                0
            }),
            forall|i: int|
                0 <= i < self.segments@.len() ==> r@[i] == (self.segments@[i], WORM_GLYPH),
            self.old_tail matches Some(t) ==> r@[r@.len() - 1] == (t, ERASE_GLYPH),
    {
        let mut r: Vec<((u16, u16), char)> = Vec::new();
        let mut i: usize = 0;
        while i < self.segments.len()
            invariant
                i <= self.segments@.len(),
                r@.len() == i,
                forall|j: int| 0 <= j < i ==> r@[j] == (self.segments@[j], WORM_GLYPH),
            decreases self.segments@.len() - i,
        {
            r.push((self.segments[i], WORM_GLYPH));
            i = i + 1;
        }
        match self.old_tail {
            Some(pos) => {
                r.push((pos, ERASE_GLYPH));
            },
            None => {},
        }
        r
    }
}

/// Glyph drawn for each worm segment.
pub const WORM_GLYPH: char = '\u{25c9}';

/// Glyph drawn for a fruit.
pub const FRUIT_GLYPH: char = '\u{273f}';

/// Glyph that erases a vacated cell.
pub const ERASE_GLYPH: char = ' ';

/// The glyphs the board border is drawn with.
#[derive(Clone, Copy, Debug)]
pub struct BorderTypes {
    pub horizontal: char,
    pub vertical: char,
    pub top_left: char,
    pub top_right: char,
    pub bottom_left: char,
    pub bottom_right: char,
}

impl Default for BorderTypes {
    /// The default border: thin box-drawing lines with rounded corners.
    fn default() -> (bt: BorderTypes)
        ensures
            bt.horizontal == '\u{2500}',
            bt.vertical == '\u{2502}',
            bt.top_left == '\u{256d}',
            bt.top_right == '\u{256e}',
            bt.bottom_left == '\u{2570}',
            bt.bottom_right == '\u{256f}',
    {
        BorderTypes {
            horizontal: '\u{2500}',
            vertical: '\u{2502}',
            top_left: '\u{256d}',
            top_right: '\u{256e}',
            bottom_left: '\u{2570}',
            bottom_right: '\u{256f}',
        }
    }
}

/// The playing field: the interior is `width` by `height` cells, framed by
/// a one-cell border. Pure geometry; never mutated after construction.
pub struct Board {
    pub border_types: BorderTypes,
    pub width: u16,
    pub height: u16,
}

impl Board {
    /// Glyph of the top border at offset `j` from the left edge.
    pub open spec fn top_glyph(self, j: int) -> char {
        if j == 0 {
            self.border_types.top_left
        } else if j == self.width + 1 {
            self.border_types.top_right
        } else {
            self.border_types.horizontal
        }
    }

    /// Glyph of the bottom border at offset `j` from the left edge.
    pub open spec fn bottom_glyph(self, j: int) -> char {
        if j == 0 {
            self.border_types.bottom_left
        } else if j == self.width + 1 {
            self.border_types.bottom_right
        } else {
            self.border_types.horizontal
        }
    }

    /// The cells of the border frame, drawn once per episode: the top row,
    /// the two vertical edges of every interior row, then the bottom row.
    pub fn render_writes(&self) -> (r: Vec<((u16, u16), char)>)
        requires
            self.width + 2 <= u16::MAX,
            self.height + 2 <= u16::MAX,
        ensures
            r@.len() == 2 * (self.width + 2) + 2 * self.height,
            forall|j: int|
                0 <= j < self.width + 2 ==> r@[j] == ((((j + 1) as u16), 1u16), self.top_glyph(j)),
            forall|k: int|
                0 <= k < self.height ==> #[trigger] r@[self.width + 2 + 2 * k] == ((1u16, ((k
                    + 2) as u16)), self.border_types.vertical) && r@[self.width + 2 + 2 * k + 1]
                    == ((((self.width + 2) as u16), ((k + 2) as u16)), self.border_types.vertical),
            forall|j: int|
                0 <= j < self.width + 2 ==> #[trigger] r@[self.width + 2 + 2 * self.height + j]
                    == ((((j + 1) as u16), ((self.height + 2) as u16)), self.bottom_glyph(j)),
    {
        let mut r: Vec<((u16, u16), char)> = Vec::new();
        let w2: u16 = self.width + 2;
        let mut x: u16 = 0;
        while x < w2
            invariant
                0 <= x <= w2,
                w2 == self.width + 2,
                self.width + 2 <= u16::MAX,
                r@.len() == x,
                forall|j: int| 0 <= j < x ==> r@[j] == ((((j + 1) as u16), 1u16), self.top_glyph(j)),
            decreases w2 - x,
        {
            let g: char = if x == 0 {
                self.border_types.top_left
            } else if x == w2 - 1 {
                self.border_types.top_right
            } else {
                self.border_types.horizontal
            };
            r.push(((x + 1, 1), g));
            x = x + 1;
        }
        let mut k: u16 = 0;
        while k < self.height
            invariant
                0 <= k <= self.height,
                w2 == self.width + 2,
                self.width + 2 <= u16::MAX,
                self.height + 2 <= u16::MAX,
                r@.len() == w2 + 2 * k,
                forall|j: int| 0 <= j < w2 ==> r@[j] == ((((j + 1) as u16), 1u16), self.top_glyph(j)),
                forall|j: int|
                    0 <= j < k ==> #[trigger] r@[w2 + 2 * j] == ((1u16, ((j + 2) as u16)),
                    self.border_types.vertical) && r@[w2 + 2 * j + 1] == (((w2 as u16), ((j
                        + 2) as u16)), self.border_types.vertical),
            decreases self.height - k,
        {
            r.push(((1, k + 2), self.border_types.vertical));
            r.push(((w2, k + 2), self.border_types.vertical));
            proof {
                assert(r@.len() == w2 + 2 * (k as int) + 2);
                assert(r@[w2 + 2 * (k as int)] == ((1u16, ((k + 2) as u16)),
                self.border_types.vertical));
                assert(r@[w2 + 2 * (k as int) + 1] == (((w2 as u16), ((k + 2) as u16)),
                self.border_types.vertical));
            }
            k = k + 1;
        }
        let mut x: u16 = 0;
        while x < w2
            invariant
                0 <= x <= w2,
                w2 == self.width + 2,
                self.width + 2 <= u16::MAX,
                self.height + 2 <= u16::MAX,
                r@.len() == w2 + 2 * self.height + x,
                forall|j: int| 0 <= j < w2 ==> r@[j] == ((((j + 1) as u16), 1u16), self.top_glyph(j)),
                forall|j: int|
                    0 <= j < self.height ==> #[trigger] r@[w2 + 2 * j] == ((1u16, ((j
                        + 2) as u16)), self.border_types.vertical) && r@[w2 + 2 * j + 1] == (((
                    w2 as u16), ((j + 2) as u16)), self.border_types.vertical),
                forall|j: int|
                    0 <= j < x ==> #[trigger] r@[w2 + 2 * self.height + j] == ((((
                    j + 1) as u16), ((self.height + 2) as u16)), self.bottom_glyph(j)),
            decreases w2 - x,
        {
            let g: char = if x == 0 {
                self.border_types.bottom_left
            } else if x == w2 - 1 {
                self.border_types.bottom_right
            } else {
                self.border_types.horizontal
            };
            r.push(((x + 1, self.height + 2), g));
            proof {
                assert(r@[w2 + 2 * self.height + (x as int)] == ((((x + 1) as u16), ((
                self.height + 2) as u16)), self.bottom_glyph(x as int)));
            }
            x = x + 1;
        }
        r
    }
}

/// One edible item, identified by the cell it sits on.
#[derive(Clone, Copy, Debug)]
pub struct Fruit {
    pub pos: (u16, u16),
}

impl Fruit {
    /// A fruit with a placeholder position; placement assigns the real one.
    pub fn new() -> (f: Fruit)
        ensures
            f.pos == (0u16, 0u16),
    {
        Fruit { pos: (0, 0) }
    }

    /// The single cell to draw for this fruit.
    pub fn render_write(&self) -> (r: ((u16, u16), char))
        ensures
            r == (self.pos, FRUIT_GLYPH),
    {
        (self.pos, FRUIT_GLYPH)
    }
}

} // verus!
