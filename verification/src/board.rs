use vstd::prelude::*;

use crate::counting::count_if;
use crate::counting::lemma_count_if_ext;
use crate::stone::Stone;
use crate::{BAN_SIZE, CELL_COUNT};

verus! {

/// Mathematical model of a board: the grid, flattened row by row,
/// and the player whose turn it is.
pub ghost struct BanModel {
    pub grid: Seq<Option<Stone>>,
    pub teban: Stone,
}

/// Flat index of the cell in row `y`, column `x`.
pub open spec fn idx(y: int, x: int) -> int {
    y * (BAN_SIZE as int) + x
}

/// Whether `(y, x)` is a cell of the grid.
pub open spec fn in_range(y: int, x: int) -> bool {
    0 <= y < BAN_SIZE && 0 <= x < BAN_SIZE
}

/// One of the 8 compass directions.
pub open spec fn unit_dir(dy: int, dx: int) -> bool {
    -1 <= dy <= 1 && -1 <= dx <= 1 && !(dy == 0 && dx == 0)
}

/// A measure that shrinks by one at each step of a directional walk
/// that stays on the grid.
pub open spec fn dir_measure(y: int, x: int, dy: int, dx: int) -> int {
    if dy == 1 {
        BAN_SIZE - y
    } else if dy == -1 {
        y + 1
    } else if dx == 1 {
        BAN_SIZE - x
    } else {
        x + 1
    }
}

impl BanModel {
    /// The grid always holds exactly one entry per cell.
    pub open spec fn wf(self) -> bool {
        self.grid.len() == CELL_COUNT
    }

    /// The stone at `(y, x)`; coordinates off the grid hold no stone.
    pub open spec fn at(self, y: int, x: int) -> Option<Stone> {
        if in_range(y, x) {
            self.grid[idx(y, x)]
        } else {
            None
        }
    }

    /// The same board with the turn passed to the other player.
    pub open spec fn reversed(self) -> BanModel {
        BanModel { grid: self.grid, teban: self.teban.spec_reverse() }
    }

    /// Length of the run of opponent stones directly beyond `(y, x)`
    /// in direction `(dy, dx)`.
    pub open spec fn run_len(self, y: int, x: int, dy: int, dx: int) -> nat
        decreases dir_measure(y, x, dy, dx),
    {
        if !unit_dir(dy, dx) {
            0
        } else {
            match self.at(y + dy, x + dx) {
                None => 0,
                Some(s) => if s == self.teban {
                    0
                } else {
                    1 + self.run_len(y + dy, x + dx, dy, dx)
                },
            }
        }
    }

    /// Whether the walk from `(y, x)` in direction `(dy, dx)` meets a
    /// stone of the mover after the run of opponent stones.
    pub open spec fn dir_closed(self, y: int, x: int, dy: int, dx: int) -> bool
        decreases dir_measure(y, x, dy, dx),
    {
        if !unit_dir(dy, dx) {
            false
        } else {
            match self.at(y + dy, x + dx) {
                None => false,
                Some(s) => if s == self.teban {
                    true
                } else {
                    self.dir_closed(y + dy, x + dx, dy, dx)
                },
            }
        }
    }

    /// How many stones a move at `(y, x)` would flip in direction
    /// `(dy, dx)`: the run length when the run is terminated by an own
    /// stone, and zero when the walk runs off the grid or meets an
    /// empty cell first.
    pub open spec fn flip_count_dir(self, y: int, x: int, dy: int, dx: int) -> nat {
        if self.dir_closed(y, x, dy, dx) {
            self.run_len(y, x, dy, dx)
        } else {
            0
        }
    }

    /// Whether the cell with flat index `i` lies in the run of opponent
    /// stones directly beyond `(y, x)` in direction `(dy, dx)`.
    pub open spec fn run_member(self, y: int, x: int, dy: int, dx: int, i: int) -> bool
        decreases dir_measure(y, x, dy, dx),
    {
        if !unit_dir(dy, dx) {
            false
        } else {
            match self.at(y + dy, x + dx) {
                None => false,
                Some(s) => if s == self.teban {
                    false
                } else {
                    i == idx(y + dy, x + dx) || self.run_member(y + dy, x + dx, dy, dx, i)
                },
            }
        }
    }

    /// Whether a move at `(y, x)` flips the cell with flat index `i`
    /// through direction `(dy, dx)`.
    pub open spec fn flipped_in_dir(self, y: int, x: int, dy: int, dx: int, i: int) -> bool {
        self.dir_closed(y, x, dy, dx) && self.run_member(y, x, dy, dx, i)
    }

    /// Total number of stones a move at `(y, x)` would flip, over all
    /// 8 compass directions; an occupied cell flips nothing.
    pub open spec fn cell_flip_count(self, y: int, x: int) -> nat {
        if self.at(y, x) is Some {
            0
        } else {
            self.flip_count_dir(y, x, -1, -1) + self.flip_count_dir(y, x, -1, 0)
                + self.flip_count_dir(y, x, -1, 1) + self.flip_count_dir(y, x, 0, -1)
                + self.flip_count_dir(y, x, 0, 1) + self.flip_count_dir(y, x, 1, -1)
                + self.flip_count_dir(y, x, 1, 0) + self.flip_count_dir(y, x, 1, 1)
        }
    }

    /// Whether a move at `(y, x)` flips the cell with flat index `i`
    /// through some direction.
    pub open spec fn flipped_cell(self, y: int, x: int, i: int) -> bool {
        self.flipped_in_dir(y, x, -1, -1, i) || self.flipped_in_dir(y, x, -1, 0, i)
            || self.flipped_in_dir(y, x, -1, 1, i) || self.flipped_in_dir(y, x, 0, -1, i)
            || self.flipped_in_dir(y, x, 0, 1, i) || self.flipped_in_dir(y, x, 1, -1, i)
            || self.flipped_in_dir(y, x, 1, 0, i) || self.flipped_in_dir(y, x, 1, 1, i)
    }

    /// The cells flipped by a move at `(y, x)` in direction `(dy, dx)`:
    /// the run of opponent stones directly beyond `(y, x)`, listed from
    /// the farthest stone inward.
    pub open spec fn ray_seq(self, y: int, x: int, dy: int, dx: int) -> Seq<(usize, usize)>
        decreases dir_measure(y, x, dy, dx),
    {
        if !unit_dir(dy, dx) {
            Seq::empty()
        } else {
            match self.at(y + dy, x + dx) {
                None => Seq::empty(),
                Some(s) => if s == self.teban {
                    Seq::empty()
                } else {
                    self.ray_seq(y + dy, x + dx, dy, dx).push(
                        ((y + dy) as usize, (x + dx) as usize),
                    )
                },
            }
        }
    }

    /// The board after the mover places a stone at `(y, x)`: on an
    /// occupied cell the grid is unchanged and only the turn passes;
    /// otherwise the stone is placed, every flipped cell turns to the
    /// mover's colour, and the turn passes.
    pub open spec fn apply_spec(self, y: int, x: int) -> BanModel
        recommends
            self.wf(),
            in_range(y, x),
    {
        if self.at(y, x) is Some {
            BanModel { grid: self.grid, teban: self.teban.spec_reverse() }
        } else {
            BanModel {
                grid: Seq::new(
                    self.grid.len(),
                    |i: int|
                        if i == idx(y, x) || self.flipped_cell(y, x, i) {
                            Some(self.teban)
                        } else {
                            self.grid[i]
                        },
                ),
                teban: self.teban.spec_reverse(),
            }
        }
    }

    /// A cell where the mover may legally place a stone: an on-grid
    /// cell whose move would flip at least one stone.
    pub open spec fn is_legal(self, y: int, x: int) -> bool {
        in_range(y, x) && self.cell_flip_count(y, x) > 0
    }

    /// The legal cells among the first `n` cells in row-major order.
    pub open spec fn legal_upto(self, n: int) -> Seq<(usize, usize)>
        decreases n,
    {
        if n <= 0 {
            Seq::empty()
        } else {
            let i = n - 1;
            let y = i / (BAN_SIZE as int);
            let x = i % (BAN_SIZE as int);
            let prev = self.legal_upto(i);
            if self.cell_flip_count(y, x) > 0 {
                prev.push((y as usize, x as usize))
            } else {
                prev
            }
        }
    }

    /// All legal cells, in row-major order.
    pub open spec fn legal_seq(self) -> Seq<(usize, usize)> {
        self.legal_upto(CELL_COUNT as int)
    }

    /// Number of cells below flat index `n` holding a stone of `s`.
    pub open spec fn count_stone_upto(self, s: Stone, n: int) -> nat {
        count_if(|i: int| self.grid[i] == Some(s), n)
    }

    /// Number of cells holding a stone of `s`.
    pub open spec fn count_stone(self, s: Stone) -> nat {
        self.count_stone_upto(s, CELL_COUNT as int)
    }

    /// The stones on the first `n` cells, in row-major order.
    pub open spec fn stones_upto(self, n: int) -> Seq<Stone>
        decreases n,
    {
        if n <= 0 {
            Seq::empty()
        } else {
            match self.grid[n - 1] {
                Some(s) => self.stones_upto(n - 1).push(s),
                None => self.stones_upto(n - 1),
            }
        }
    }

    /// Number of the four corner cells held by the mover.
    pub open spec fn corners_owned(self) -> nat {
        let m = (BAN_SIZE - 1) as int;
        (if self.at(0, 0) == Some(self.teban) {
            1nat
        } else {
            0nat
        }) + (if self.at(0, m) == Some(self.teban) {
            1nat
        } else {
            0nat
        }) + (if self.at(m, 0) == Some(self.teban) {
            1nat
        } else {
            0nat
        }) + (if self.at(m, m) == Some(self.teban) {
            1nat
        } else {
            0nat
        })
    }

    /// A position where neither the mover nor the opponent has a
    /// legal move.
    pub open spec fn is_terminal(self) -> bool {
        self.legal_seq().len() == 0 && self.reversed().legal_seq().len() == 0
    }

    /// The static evaluation, always from the mover's point of view:
    /// on a terminal position, 1000 for a strict majority of stones and
    /// 0 otherwise; elsewhere the number of legal moves plus 100 per
    /// corner held.
    pub open spec fn score_spec(self) -> nat {
        if self.is_terminal() {
            if self.count_stone(self.teban) > self.count_stone(self.teban.spec_reverse()) {
                1000
            } else {
                0
            }
        } else {
            self.legal_seq().len() + 100 * self.corners_owned()
        }
    }
}

/// Run lengths never exceed the walk measure.
proof fn lemma_run_len_le_measure(m: BanModel, y: int, x: int, dy: int, dx: int)
    requires
        unit_dir(dy, dx),
    ensures
        m.run_len(y, x, dy, dx) == 0 || m.run_len(y, x, dy, dx) <= dir_measure(y, x, dy, dx),
    decreases dir_measure(y, x, dy, dx),
{
    if m.at(y + dy, x + dx) is Some {
        lemma_run_len_le_measure(m, y + dy, x + dx, dy, dx);
    }
}

/// A run of opponent stones fits on the grid.
pub proof fn lemma_run_len_bound(m: BanModel, y: int, x: int, dy: int, dx: int)
    requires
        unit_dir(dy, dx),
    ensures
        m.run_len(y, x, dy, dx) <= BAN_SIZE + 1,
{
    if m.at(y + dy, x + dx) is Some {
        lemma_run_len_le_measure(m, y + dy, x + dx, dy, dx);
    }
}

/// Flat index of a coordinate pair.
pub open spec fn pidx(p: (usize, usize)) -> int {
    idx(p.0 as int, p.1 as int)
}

/// The flipped cells of a direction: as long as the run, on-grid
/// opponent stones, and together exactly the run members.
pub proof fn lemma_ray_members(m: BanModel, y: int, x: int, dy: int, dx: int)
    requires
        unit_dir(dy, dx),
    ensures
        m.ray_seq(y, x, dy, dx).len() == m.run_len(y, x, dy, dx),
        forall|j: int| #![trigger m.ray_seq(y, x, dy, dx)[j]]
            0 <= j < m.ray_seq(y, x, dy, dx).len() ==> {
                let p = m.ray_seq(y, x, dy, dx)[j];
                &&& in_range(p.0 as int, p.1 as int)
                &&& m.at(p.0 as int, p.1 as int) == Some(m.teban.spec_reverse())
            },
        forall|i: int| #![trigger m.run_member(y, x, dy, dx, i)]
            m.run_member(y, x, dy, dx, i) == (exists|j: int|
                #![trigger m.ray_seq(y, x, dy, dx)[j]]
                0 <= j < m.ray_seq(y, x, dy, dx).len() && i == pidx(m.ray_seq(y, x, dy, dx)[j])),
    decreases dir_measure(y, x, dy, dx),
{
    let ny = y + dy;
    let nx = x + dx;
    let cur = m.ray_seq(y, x, dy, dx);
    if m.at(ny, nx) is Some {
        let s = m.at(ny, nx).unwrap();
        if s == m.teban {
            assert forall|i: int| m.run_member(y, x, dy, dx, i) == (exists|j: int|
                #![trigger cur[j]]
                0 <= j < cur.len() && i == pidx(cur[j])) by {}
        } else {
            lemma_ray_members(m, ny, nx, dy, dx);
            let rec = m.ray_seq(ny, nx, dy, dx);
            assert(cur == rec.push((ny as usize, nx as usize)));
            assert(m.teban.spec_reverse() == s);
            assert forall|i: int| m.run_member(y, x, dy, dx, i) == (exists|j: int|
                #![trigger cur[j]]
                0 <= j < cur.len() && i == pidx(cur[j])) by {
                if m.run_member(y, x, dy, dx, i) {
                    if i == idx(ny, nx) {
                        assert(cur[cur.len() - 1] == (ny as usize, nx as usize));
                        assert(pidx(cur[cur.len() - 1]) == i);
                    } else {
                        assert(m.run_member(ny, nx, dy, dx, i));
                        let j = choose|j: int|
                            #![trigger rec[j]]
                            0 <= j < rec.len() && i == pidx(rec[j]);
                        assert(cur[j] == rec[j]);
                        assert(0 <= j < cur.len() && i == pidx(cur[j]));
                    }
                }
                if exists|j: int| #![trigger cur[j]] 0 <= j < cur.len() && i == pidx(cur[j]) {
                    let j = choose|j: int| #![trigger cur[j]] 0 <= j < cur.len() && i == pidx(
                        cur[j],
                    );
                    if j == cur.len() - 1 {
                        assert(i == idx(ny, nx));
                    } else {
                        assert(cur[j] == rec[j]);
                        assert(m.run_member(ny, nx, dy, dx, i));
                    }
                }
            }
        }
    } else {
        assert forall|i: int| m.run_member(y, x, dy, dx, i) == (exists|j: int|
            #![trigger cur[j]]
            0 <= j < cur.len() && i == pidx(cur[j])) by {}
    }
}

/// There are never more legal cells than cells looked at.
pub proof fn lemma_legal_upto_len(m: BanModel, n: int)
    ensures
        m.legal_upto(n).len() <= if n >= 0 {
            n
        } else {
            0
        },
    decreases n,
{
    if n > 0 {
        lemma_legal_upto_len(m, n - 1);
    }
}

/// Every cell in the legal list lies on the grid and is a legal move.
pub proof fn lemma_legal_upto_elems(m: BanModel, n: int)
    requires
        n <= CELL_COUNT,
    ensures
        forall|k: int| #![trigger m.legal_upto(n)[k]]
            0 <= k < m.legal_upto(n).len() ==> {
                let p = m.legal_upto(n)[k];
                &&& p.0 < BAN_SIZE
                &&& p.1 < BAN_SIZE
                &&& m.is_legal(p.0 as int, p.1 as int)
            },
    decreases n,
{
    if n > 0 {
        lemma_legal_upto_elems(m, n - 1);
        let i = n - 1;
        let y = i / (BAN_SIZE as int);
        let x = i % (BAN_SIZE as int);
        assert(0 <= y < BAN_SIZE && 0 <= x < BAN_SIZE) by {
            vstd::arithmetic::div_mod::lemma_fundamental_div_mod(i, BAN_SIZE as int);
        }
        if m.cell_flip_count(y, x) > 0 {
            let cur = m.legal_upto(n);
            let prev = m.legal_upto(i);
            assert(cur == prev.push((y as usize, x as usize)));
            assert forall|k: int| 0 <= k < cur.len() implies {
                let p = #[trigger] cur[k];
                &&& p.0 < BAN_SIZE
                &&& p.1 < BAN_SIZE
                &&& m.is_legal(p.0 as int, p.1 as int)
            } by {
                if k < prev.len() {
                    assert(cur[k] == prev[k]);
                }
            }
        } else {
            let cur = m.legal_upto(n);
            let prev = m.legal_upto(i);
            assert(cur == prev);
            assert forall|k: int| 0 <= k < cur.len() implies {
                let p = #[trigger] cur[k];
                &&& p.0 < BAN_SIZE
                &&& p.1 < BAN_SIZE
                &&& m.is_legal(p.0 as int, p.1 as int)
            } by {
                assert(cur[k] == prev[k]);
            }
        }
    }
}

/// The stone list of a prefix of the grid counts each colour exactly
/// as often as the prefix' cells hold it.
proof fn lemma_stones_count(m: BanModel, t: Stone, n: int)
    ensures
        count_if(|i: int| m.stones_upto(n)[i] == t, m.stones_upto(n).len() as int)
            == m.count_stone_upto(t, n),
    decreases n,
{
    if n <= 0 {
        assert(count_if(|i: int| m.grid[i] == Some(t), n) == 0);
    } else {
        lemma_stones_count(m, t, n - 1);
        let sp = m.stones_upto(n - 1);
        let sc = m.stones_upto(n);
        match m.grid[n - 1] {
            Some(v) => {
                assert(sc == sp.push(v));
                assert(forall|i: int|
                    0 <= i < sp.len() ==> (#[trigger] sc[i]) == sp[i]);
                lemma_count_if_ext(
                    |i: int| sc[i] == t,
                    |i: int| sp[i] == t,
                    sp.len() as int,
                );
                assert(sc[sp.len() as int] == v);
            },
            None => {
                assert(sc == sp);
                lemma_count_if_ext(
                    |i: int| sc[i] == t,
                    |i: int| sp[i] == t,
                    sp.len() as int,
                );
            },
        }
    }
}

/// Every stone on the board is either Black or White, so the stone
/// list is as long as the two colour counts together.
proof fn lemma_stones_len(m: BanModel, n: int)
    ensures
        m.stones_upto(n).len() == m.count_stone_upto(Stone::Black, n) + m.count_stone_upto(
            Stone::White,
            n,
        ),
    decreases n,
{
    if n <= 0 {
        assert(count_if(|i: int| m.grid[i] == Some(Stone::Black), n) == 0);
        assert(count_if(|i: int| m.grid[i] == Some(Stone::White), n) == 0);
    } else {
        lemma_stones_len(m, n - 1);
    }
}

/// A board: the flattened grid of optional stones and the mover.
pub struct Ban {
    banmen: Vec<Option<Stone>>,
    teban: Stone,
}

impl View for Ban {
    type V = BanModel;

    closed spec fn view(&self) -> BanModel {
        BanModel { grid: self.banmen@, teban: self.teban }
    }
}

/// Moves one coordinate by one signed step, or reports that the result
/// leaves the machine's coordinate range (and with it the grid).
fn step_coord(v: usize, d: i8) -> (r: Option<usize>)
    ensures
        match r {
            Some(w) => w as int == v as int + d as int,
            None => !(0 <= v as int + d as int <= usize::MAX as int),
        },
{
    if d >= 0 {
        let dd = d as usize;
        if v <= usize::MAX - dd {
            Some(v + dd)
        } else {
            None
        }
    } else {
        let mag = (-(d as i16)) as usize;
        if v >= mag {
            Some(v - mag)
        } else {
            None
        }
    }
}

impl Ban {
    /// The grid vector holds exactly one entry per cell.
    pub open spec fn wf(self) -> bool {
        self@.wf()
    }

    /// The player whose turn it is.
    pub fn get_teban(&self) -> (r: Stone)
        ensures
            r == self@.teban,
    {
        self.teban
    }

    /// The stone at `point`, or nothing when `point` lies off the grid
    /// or the cell is empty.
    pub fn get_stone(&self, point: (usize, usize)) -> (r: Option<Stone>)
        requires
            self.wf(),
        ensures
            r == self@.at(point.0 as int, point.1 as int),
    {
        if point.0 >= BAN_SIZE || point.1 >= BAN_SIZE {
            None
        } else {
            self.banmen[point.0 * BAN_SIZE + point.1]
        }
    }

    /// Walks outward from `point` one step at a time in `direction`,
    /// accumulating `count`; returns the accumulated total when the walk
    /// meets an own stone, and 0 when it runs off the grid or meets an
    /// empty cell first.
    pub fn count_reverse_line_stones(
        &self,
        point: (usize, usize),
        direction: (i8, i8),
        count: usize,
    ) -> (r: usize)
        requires
            self.wf(),
            unit_dir(direction.0 as int, direction.1 as int),
            count + self@.run_len(
                point.0 as int,
                point.1 as int,
                direction.0 as int,
                direction.1 as int,
            ) <= usize::MAX,
        ensures
            r as int == if self@.dir_closed(
                point.0 as int,
                point.1 as int,
                direction.0 as int,
                direction.1 as int,
            ) {
                count + self@.run_len(
                    point.0 as int,
                    point.1 as int,
                    direction.0 as int,
                    direction.1 as int,
                )
            } else {
                0
            },
        decreases dir_measure(point.0 as int, point.1 as int, direction.0 as int,
            direction.1 as int),
    {
        let ny = step_coord(point.0, direction.0);
        let nx = step_coord(point.1, direction.1);
        match (ny, nx) {
            (Some(ny), Some(nx)) => {
                match self.get_stone((ny, nx)) {
                    None => 0,
                    Some(s) => {
                        if s == self.teban {
                            count
                        } else {
                            self.count_reverse_line_stones((ny, nx), direction, count + 1)
                        }
                    },
                }
            },
            _ => 0,
        }
    }

    /// Total number of stones a move at `point` would flip, over all 8
    /// compass directions; an occupied cell flips nothing.
    #[verifier::rlimit(60)]
    pub fn count_reverse_stones(&self, point: (usize, usize)) -> (r: usize)
        requires
            self.wf(),
        ensures
            r as int == self@.cell_flip_count(point.0 as int, point.1 as int),
    {
        if self.get_stone(point).is_some() {
            return 0;
        }
        proof {
            let py = point.0 as int;
            let px = point.1 as int;
            lemma_run_len_bound(self@, py, px, -1, -1);
            lemma_run_len_bound(self@, py, px, -1, 0);
            lemma_run_len_bound(self@, py, px, -1, 1);
            lemma_run_len_bound(self@, py, px, 0, -1);
            lemma_run_len_bound(self@, py, px, 0, 1);
            lemma_run_len_bound(self@, py, px, 1, -1);
            lemma_run_len_bound(self@, py, px, 1, 0);
            lemma_run_len_bound(self@, py, px, 1, 1);
        }
        let c1 = self.count_reverse_line_stones(point, (-1, -1), 0);
        let c2 = self.count_reverse_line_stones(point, (-1, 0), 0);
        let c3 = self.count_reverse_line_stones(point, (-1, 1), 0);
        let c4 = self.count_reverse_line_stones(point, (0, -1), 0);
        let c5 = self.count_reverse_line_stones(point, (0, 1), 0);
        let c6 = self.count_reverse_line_stones(point, (1, -1), 0);
        let c7 = self.count_reverse_line_stones(point, (1, 0), 0);
        let c8 = self.count_reverse_line_stones(point, (1, 1), 0);
        c1 + c2 + c3 + c4 + c5 + c6 + c7 + c8
    }

    /// Every cell where the mover may legally place a stone, in
    /// row-major order.
    pub fn get_positions(&self) -> (r: Vec<(usize, usize)>)
        requires
            self.wf(),
        ensures
            r@ == self@.legal_seq(),
    {
        let mut points: Vec<(usize, usize)> = Vec::new();
        let mut y: usize = 0;
        while y < BAN_SIZE
            invariant
                self.wf(),
                y <= BAN_SIZE,
                points@ == self@.legal_upto(idx(y as int, 0)),
            decreases BAN_SIZE - y,
        {
            let mut x: usize = 0;
            while x < BAN_SIZE
                invariant
                    self.wf(),
                    y < BAN_SIZE,
                    x <= BAN_SIZE,
                    points@ == self@.legal_upto(idx(y as int, x as int)),
                decreases BAN_SIZE - x,
            {
                let count = self.count_reverse_stones((y, x));
                proof {
                    assert(idx(y as int, x as int) / (BAN_SIZE as int) == y as int
                        && idx(y as int, x as int) % (BAN_SIZE as int) == x as int) by {
                        vstd::arithmetic::div_mod::lemma_fundamental_div_mod_converse(
                            idx(y as int, x as int),
                            BAN_SIZE as int,
                            y as int,
                            x as int,
                        );
                    }
                }
                if count > 0 {
                    points.push((y, x));
                }
                x = x + 1;
            }
            y = y + 1;
        }
        points
    }

    /// The coordinates a move at `position` would flip in `direction`,
    /// from the farthest inward; an empty list when the very next cell
    /// already holds an own stone, and nothing at all when the walk
    /// runs off the grid or meets an empty cell before an own stone.
    pub fn get_reverse_positions(&self, position: (usize, usize), direction: (i8, i8)) -> (r:
        Option<Vec<(usize, usize)>>)
        requires
            self.wf(),
            unit_dir(direction.0 as int, direction.1 as int),
        ensures
            (r is Some) == self@.dir_closed(
                position.0 as int,
                position.1 as int,
                direction.0 as int,
                direction.1 as int,
            ),
            r is Some ==> r.unwrap()@ == self@.ray_seq(
                position.0 as int,
                position.1 as int,
                direction.0 as int,
                direction.1 as int,
            ),
        decreases dir_measure(position.0 as int, position.1 as int, direction.0 as int,
            direction.1 as int),
    {
        let ny = step_coord(position.0, direction.0);
        let nx = step_coord(position.1, direction.1);
        match (ny, nx) {
            (Some(ny), Some(nx)) => {
                match self.get_stone((ny, nx)) {
                    None => None,
                    Some(s) => {
                        if s == self.teban {
                            Some(Vec::new())
                        } else {
                            match self.get_reverse_positions((ny, nx), direction) {
                                None => None,
                                Some(mut points) => {
                                    points.push((ny, nx));
                                    Some(points)
                                },
                            }
                        }
                    },
                }
            },
            _ => None,
        }
    }

    /// A fresh copy of the grid vector.
    fn copy_banmen(&self) -> (r: Vec<Option<Stone>>)
        ensures
            r@ == self.banmen@,
    {
        let mut v: Vec<Option<Stone>> = Vec::new();
        let mut i: usize = 0;
        while i < self.banmen.len()
            invariant
                i <= self.banmen.len(),
                v@ == self.banmen@.take(i as int),
            decreases self.banmen.len() - i,
        {
            let e = self.banmen[i];
            v.push(e);
            proof {
                assert(self.banmen@.take(i + 1) =~= self.banmen@.take(i as int).push(
                    self.banmen@[i as int],
                ));
            }
            i = i + 1;
        }
        proof {
            assert(v@ =~= self.banmen@);
        }
        v
    }

    /// The same position with the turn passed to the other player.
    pub fn change_teban(&self) -> (r: Ban)
        requires
            self.wf(),
        ensures
            r.wf(),
            r@ == self@.reversed(),
    {
        let new_banmen = self.copy_banmen();
        let new_teban = self.teban.reverse();
        Ban { banmen: new_banmen, teban: new_teban }
    }

    /// Turns every cell flipped through `direction` by a move at
    /// `point` to the mover's colour.
    fn flip_direction(&self, point: (usize, usize), direction: (i8, i8), grid: &mut Vec<
        Option<Stone>>)
        requires
            self.wf(),
            old(grid)@.len() == CELL_COUNT,
            unit_dir(direction.0 as int, direction.1 as int),
        ensures
            final(grid)@.len() == CELL_COUNT,
            forall|i: int| #![trigger final(grid)@[i]]
                0 <= i < CELL_COUNT ==> final(grid)@[i] == (if self@.flipped_in_dir(
                    point.0 as int,
                    point.1 as int,
                    direction.0 as int,
                    direction.1 as int,
                    i,
                ) {
                    Some(self@.teban)
                } else {
                    old(grid)@[i]
                }),
    {
        let ghost py = point.0 as int;
        let ghost px = point.1 as int;
        let ghost dy = direction.0 as int;
        let ghost dx = direction.1 as int;
        proof {
            lemma_ray_members(self@, py, px, dy, dx);
        }
        match self.get_reverse_positions(point, direction) {
            None => {},
            Some(points) => {
                let ghost g0 = grid@;
                let mut j: usize = 0;
                while j < points.len()
                    invariant
                        self.wf(),
                        unit_dir(dy, dx),
                        points@ == self@.ray_seq(py, px, dy, dx),
                        j <= points@.len(),
                        grid@.len() == CELL_COUNT,
                        forall|j2: int| #![trigger points@[j2]]
                            0 <= j2 < points@.len() ==> in_range(
                                points@[j2].0 as int,
                                points@[j2].1 as int,
                            ),
                        forall|i: int| #![trigger grid@[i]]
                            0 <= i < CELL_COUNT ==> grid@[i] == (if (exists|j2: int|
                                #![trigger points@[j2]]
                                0 <= j2 < j && i == pidx(points@[j2])) {
                                Some(self@.teban)
                            } else {
                                g0[i]
                            }),
                    decreases points@.len() - j,
                {
                    let p = points[j];
                    let k = p.0 * BAN_SIZE + p.1;
                    let ghost gprev = grid@;
                    grid[k] = Some(self.teban);
                    proof {
                        assert forall|i: int| 0 <= i < CELL_COUNT implies #[trigger] grid@[i] == (
                        if (exists|j2: int| #![trigger points@[j2]] 0 <= j2 < j + 1 && i == pidx(
                            points@[j2],
                        )) {
                            Some(self@.teban)
                        } else {
                            g0[i]
                        }) by {
                            if i == pidx(points@[j as int]) {
                                assert(0 <= (j as int) < j + 1 && i == pidx(points@[j as int]));
                            } else {
                                assert(grid@[i] == gprev[i]);
                                assert forall|j2: int|
                                    0 <= j2 < j + 1 && i == pidx(#[trigger] points@[j2]) implies 0
                                    <= j2 < j && i == pidx(points@[j2]) by {}
                            }
                        }
                    }
                    j = j + 1;
                }
                proof {
                    assert forall|i: int| 0 <= i < CELL_COUNT implies #[trigger] grid@[i] == (
                    if self@.flipped_in_dir(py, px, dy, dx, i) {
                        Some(self@.teban)
                    } else {
                        g0[i]
                    }) by {
                        assert(self@.run_member(py, px, dy, dx, i) == (exists|j2: int|
                            #![trigger points@[j2]]
                            0 <= j2 < points@.len() && i == pidx(points@[j2])));
                    }
                }
            },
        }
    }

    /// The board after the mover places a stone at `point`: on an
    /// occupied cell only the turn passes; otherwise the stone is
    /// placed, every flipped run turns to the mover's colour, and the
    /// turn passes to the opponent.
    pub fn put_stone(&self, point: (usize, usize)) -> (r: Ban)
        requires
            self.wf(),
            point.0 < BAN_SIZE,
            point.1 < BAN_SIZE,
        ensures
            r.wf(),
            r@ == self@.apply_spec(point.0 as int, point.1 as int),
    {
        let ghost py = point.0 as int;
        let ghost px = point.1 as int;
        if self.get_stone(point).is_some() {
            return self.change_teban();
        }
        let mut new_banmen = self.copy_banmen();
        let k = point.0 * BAN_SIZE + point.1;
        new_banmen[k] = Some(self.teban);
        let ghost g1 = new_banmen@;
        self.flip_direction(point, (-1, -1), &mut new_banmen);
        let ghost g2 = new_banmen@;
        self.flip_direction(point, (-1, 0), &mut new_banmen);
        let ghost g3 = new_banmen@;
        self.flip_direction(point, (-1, 1), &mut new_banmen);
        let ghost g4 = new_banmen@;
        self.flip_direction(point, (0, -1), &mut new_banmen);
        let ghost g5 = new_banmen@;
        self.flip_direction(point, (0, 1), &mut new_banmen);
        let ghost g6 = new_banmen@;
        self.flip_direction(point, (1, -1), &mut new_banmen);
        let ghost g7 = new_banmen@;
        self.flip_direction(point, (1, 0), &mut new_banmen);
        let ghost g8 = new_banmen@;
        self.flip_direction(point, (1, 1), &mut new_banmen);
        let new_teban = self.teban.reverse();
        let result = Ban { banmen: new_banmen, teban: new_teban };
        proof {
            let target = self@.apply_spec(py, px);
            assert forall|i: int| 0 <= i < CELL_COUNT implies #[trigger] result@.grid[i]
                == target.grid[i] by {}
            assert(result@.grid =~= target.grid);
        }
        result
    }

    /// Every stone on the board, in row-major order.
    pub fn get_stones(&self) -> (r: Vec<Stone>)
        requires
            self.wf(),
        ensures
            r@ == self@.stones_upto(CELL_COUNT as int),
    {
        let mut stones: Vec<Stone> = Vec::new();
        let mut i: usize = 0;
        while i < CELL_COUNT
            invariant
                self.wf(),
                i <= CELL_COUNT,
                stones@ == self@.stones_upto(i as int),
            decreases CELL_COUNT - i,
        {
            match self.banmen[i] {
                Some(s) => stones.push(s),
                None => {},
            }
            i = i + 1;
        }
        stones
    }

    /// The static evaluation of the position, for the current mover:
    /// on a terminal position 1000 when the mover holds strictly more
    /// stones and 0 otherwise; elsewhere one point per legal move and
    /// 100 more per corner the mover holds.
    pub fn get_score(&self) -> (r: usize)
        requires
            self.wf(),
        ensures
            r as int == self@.score_spec(),
    {
        let positions = self.get_positions();
        let opponent_positions = self.change_teban().get_positions();
        if positions.len() == 0 && opponent_positions.len() == 0 {
            let stones = self.get_stones();
            let mut my_count: usize = 0;
            let mut i: usize = 0;
            while i < stones.len()
                invariant
                    self.wf(),
                    stones@ == self@.stones_upto(CELL_COUNT as int),
                    i <= stones.len(),
                    my_count as int == count_if(|k: int| stones@[k] == self@.teban, i as int),
                    my_count <= i,
                decreases stones.len() - i,
            {
                let s = stones[i];
                if s == self.teban {
                    my_count = my_count + 1;
                }
                i = i + 1;
            }
            let opponent_count = stones.len() - my_count;
            proof {
                let me = self@.teban;
                let other = me.spec_reverse();
                lemma_stones_count(self@, me, CELL_COUNT as int);
                lemma_stones_count(self@, other, CELL_COUNT as int);
                lemma_stones_len(self@, CELL_COUNT as int);
                lemma_count_if_ext(
                    |k: int| stones@[k] == me,
                    |k: int| self@.stones_upto(CELL_COUNT as int)[k] == me,
                    stones@.len() as int,
                );
                assert(my_count as int == self@.count_stone(me));
                assert(opponent_count as int == self@.count_stone(other));
            }
            if my_count > opponent_count {
                1000
            } else {
                0
            }
        } else {
            proof {
                lemma_legal_upto_len(self@, CELL_COUNT as int);
            }
            let point_score = positions.len();
            let mut kado_score: usize = 0;
            match self.get_stone((0, 0)) {
                Some(s) => if s == self.teban {
                    kado_score = kado_score + 100;
                },
                None => {},
            }
            match self.get_stone((0, BAN_SIZE - 1)) {
                Some(s) => if s == self.teban {
                    kado_score = kado_score + 100;
                },
                None => {},
            }
            match self.get_stone((BAN_SIZE - 1, 0)) {
                Some(s) => if s == self.teban {
                    kado_score = kado_score + 100;
                },
                None => {},
            }
            match self.get_stone((BAN_SIZE - 1, BAN_SIZE - 1)) {
                Some(s) => if s == self.teban {
                    kado_score = kado_score + 100;
                },
                None => {},
            }
            point_score + kado_score
        }
    }
}

/// The grid a request's cell matrix decodes to: `1` a Black stone,
/// `-1` a White stone, anything else an empty cell.
pub open spec fn decode_grid(banmen: [[i8; BAN_SIZE]; BAN_SIZE]) -> Seq<Option<Stone>> {
    Seq::new(
        CELL_COUNT as nat,
        |i: int| Stone::spec_value_of(banmen@[i / (BAN_SIZE as int)]@[i % (BAN_SIZE as int)]),
    )
}

/// Builds the board a request describes: cell codes decode to stones
/// as in `decode_grid`, and the mover code must name a player.
pub fn params_to_ban(param_teban: i8, param_banmen: [[i8; BAN_SIZE]; BAN_SIZE]) -> (r: Ban)
    requires
        param_teban == 1 || param_teban == -1,
    ensures
        r.wf(),
        r@.teban == Stone::spec_value_of(param_teban).unwrap(),
        r@.grid == decode_grid(param_banmen),
{
    let teban = Stone::value_of(param_teban);
    let mut banmen: Vec<Option<Stone>> = Vec::new();
    let mut y: usize = 0;
    while y < BAN_SIZE
        invariant
            y <= BAN_SIZE,
            banmen@.len() == idx(y as int, 0),
            forall|i: int| #![trigger banmen@[i]]
                0 <= i < banmen@.len() ==> banmen@[i] == decode_grid(param_banmen)[i],
        decreases BAN_SIZE - y,
    {
        let mut x: usize = 0;
        while x < BAN_SIZE
            invariant
                y < BAN_SIZE,
                x <= BAN_SIZE,
                banmen@.len() == idx(y as int, x as int),
                forall|i: int| #![trigger banmen@[i]]
                    0 <= i < banmen@.len() ==> banmen@[i] == decode_grid(param_banmen)[i],
            decreases BAN_SIZE - x,
        {
            let cell = param_banmen[y][x];
            banmen.push(Stone::value_of(cell));
            proof {
                let k = idx(y as int, x as int);
                assert(k / (BAN_SIZE as int) == y as int && k % (BAN_SIZE as int) == x as int) by {
                    vstd::arithmetic::div_mod::lemma_fundamental_div_mod_converse(
                        k,
                        BAN_SIZE as int,
                        y as int,
                        x as int,
                    );
                }
            }
            x = x + 1;
        }
        y = y + 1;
    }
    let result = Ban { banmen, teban: teban.unwrap() };
    proof {
        assert(result@.grid =~= decode_grid(param_banmen));
    }
    result
}

} // verus!
