//! Rectangular cloth: a grid of nodes hung from pins in its top row and
//! threaded with links along some of its rows and columns.

use std::collections::HashSet;
use vstd::prelude::*;
use crate::constraint::{links_fit, Constraint};
use crate::error::{ConfigFault, SimError};
use crate::fixed;
use crate::node::{views, Node, NodeView};
use crate::vec2::Vec2;

verus! {

/// The shape of a cloth. Cells are numbered row by row from the top left,
/// and a node's index in the arena is the number of its cell.
#[derive(Clone, Copy, PartialEq, Eq, Debug)]
pub struct Grid {
    pub rows: usize,
    pub cols: usize,
    /// The distance between neighbours, and the rest length of every link.
    pub spacing: i64,
    /// The mass of every node.
    pub mass: i64,
    /// In the top row, the nodes whose column is a multiple of this are
    /// fixed.
    pub pin_every: usize,
    /// Links run to the right along the rows whose number is a multiple of
    /// this and along the last row, and downward along such columns.
    pub thread_every: usize,
    /// The breakage threshold of the links that start in the top row.
    pub top_break_threshold: Option<i64>,
    /// The breakage threshold of all other links.
    pub break_threshold: Option<i64>,
    /// Where the nodes that no link touches are put away, fixed.
    pub parking: Vec2,
}

/// `link` ends at node `k`.
pub open spec fn touches(link: Constraint, k: int) -> bool {
    link.a == k || link.b == k
}

/// Some link of `links` ends at node `k`.
pub open spec fn touched(links: Seq<Constraint>, k: int) -> bool {
    exists|m: int| 0 <= m < links.len() && touches(#[trigger] links[m], k)
}

impl Grid {
    /// A cloth of 50 rows and 100 columns, 8 units apart.
    pub open spec fn cloth() -> Grid {
        Grid {
            rows: 50,
            cols: 100,
            spacing: 8_000_000,
            mass: 1_000_000,
            pin_every: 3,
            thread_every: 3,
            top_break_threshold: Some(80_000_000i64),
            break_threshold: Some(40_000_000i64),
            parking: Vec2 { x: (-100_000_000i64), y: (-100_000_000i64) },
        }
    }

    /// What is wrong with the grid, if anything: the first of these that
    /// applies.
    pub open spec fn fault(self) -> Option<ConfigFault> {
        if self.rows == 0 || self.cols == 0 {
            Some(ConfigFault::EmptyTopology)
        } else if self.rows * self.cols > usize::MAX {
            Some(ConfigFault::TooManyNodes)
        } else if self.mass <= 0 {
            Some(ConfigFault::NonPositiveMass)
        } else if self.pin_every == 0 || self.thread_every == 0 {
            Some(ConfigFault::ZeroStride)
        } else {
            None
        }
    }

    /// The number of cells, and of nodes.
    pub open spec fn cells(self) -> nat {
        (self.rows * self.cols) as nat
    }

    /// The row of `cell`, counted from the top.
    pub open spec fn row_of(self, cell: int) -> int {
        cell / self.cols as int
    }

    /// The column of `cell`, counted from the left.
    pub open spec fn col_of(self, cell: int) -> int {
        cell % self.cols as int
    }

    /// Links run to the right along row `row`.
    pub open spec fn threaded_row(self, row: int) -> bool {
        row % self.thread_every as int == 0 || row == self.rows - 1
    }

    /// Links run downward along column `col`.
    pub open spec fn threaded_col(self, col: int) -> bool {
        col % self.thread_every as int == 0 || col == self.cols - 1
    }

    /// The breakage threshold of the links that start in row `row`.
    pub open spec fn threshold_in(self, row: int) -> Option<i64> {
        if row == 0 {
            self.top_break_threshold
        } else {
            self.break_threshold
        }
    }

    /// The link from `cell` to its right neighbour.
    pub open spec fn link_right(self, cell: int) -> Constraint {
        Constraint {
            a: cell as usize,
            b: (cell + 1) as usize,
            rest_length: self.spacing,
            break_threshold: self.threshold_in(self.row_of(cell)),
        }
    }

    /// The link from `cell` to the neighbour below it.
    pub open spec fn link_down(self, cell: int) -> Constraint {
        Constraint {
            a: cell as usize,
            b: (cell + self.cols) as usize,
            rest_length: self.spacing,
            break_threshold: self.threshold_in(self.row_of(cell)),
        }
    }

    /// The links that start at `cell`: the one to the right, if its row is
    /// threaded and it has a right neighbour, then the one downward, if its
    /// column is threaded and it has a neighbour below.
    pub open spec fn cell_links(self, cell: int) -> Seq<Constraint> {
        let right = if self.links_right(cell) {
            seq![self.link_right(cell)]
        } else {
            Seq::empty()
        };
        let down = if self.links_down(cell) {
            seq![self.link_down(cell)]
        } else {
            Seq::empty()
        };
        right + down
    }

    /// The links that start at the first `cells` cells, cell by cell.
    pub open spec fn links_before(self, cells: nat) -> Seq<Constraint>
        decreases cells,
    {
        if cells == 0 {
            Seq::empty()
        } else {
            self.links_before((cells - 1) as nat) + self.cell_links(cells - 1)
        }
    }

    /// All links of the cloth.
    pub open spec fn links(self) -> Seq<Constraint> {
        self.links_before(self.cells())
    }

    /// The horizontal position of the first column that centres the cloth
    /// on a screen of the given width.
    pub open spec fn left_edge(self, screen_width: i64) -> i64 {
        fixed::spec_minus(
            fixed::spec_times(screen_width, fixed::HALF),
            fixed::spec_times(fixed::spec_repeat(self.spacing, self.cols), fixed::HALF),
        )
    }

    /// Where the node of `cell` hangs when the first column is at `left`.
    pub open spec fn position(self, cell: int, left: i64) -> Vec2 {
        Vec2 {
            x: fixed::spec_plus(fixed::spec_repeat(self.spacing, self.col_of(cell) as usize), left),
            y: fixed::spec_repeat(self.spacing, self.row_of(cell) as usize),
        }
    }

    /// `cell` has a right neighbour and a link to it.
    pub open spec fn links_right(self, cell: int) -> bool {
        self.threaded_row(self.row_of(cell)) && self.col_of(cell) != self.cols - 1
    }

    /// `cell` has a neighbour below it and a link to it.
    pub open spec fn links_down(self, cell: int) -> bool {
        self.threaded_col(self.col_of(cell)) && self.row_of(cell) != self.rows - 1
    }

    /// `cell` lies on a threaded row that is more than one cell long, or on
    /// such a column.
    pub open spec fn joined(self, cell: int) -> bool {
        ||| self.threaded_row(self.row_of(cell)) && self.cols > 1
        ||| self.threaded_col(self.col_of(cell)) && self.rows > 1
    }

    /// The node of `cell` is one of the pins that hold the cloth.
    pub open spec fn pinned(self, cell: int) -> bool {
        self.row_of(cell) == 0 && self.col_of(cell) % self.pin_every as int == 0
    }

    /// The node of `cell`: at rest at its position, fixed if it is a pin.
    /// A node that no link touches is fixed and put away at `parking`.
    pub open spec fn node(self, cell: int, left: i64) -> NodeView {
        let hung = NodeView {
            fixed: self.pinned(cell),
            ..NodeView::at_rest(self.position(cell, left), self.mass)
        };
        if touched(self.links(), cell) {
            hung
        } else {
            NodeView { fixed: true, pos: self.parking, ..hung }
        }
    }

    /// All nodes of the cloth, in cell order.
    pub open spec fn nodes(self, left: i64) -> Seq<NodeView> {
        Seq::new(self.cells(), |cell: int| self.node(cell, left))
    }
}

impl Default for Grid {
    fn default() -> (r: Grid)
        ensures
            r == Grid::cloth(),
    {
        Grid {
            rows: 50,
            cols: 100,
            spacing: 8 * fixed::ONE,
            mass: fixed::ONE,
            pin_every: 3,
            thread_every: 3,
            top_break_threshold: Some(80 * fixed::ONE),
            break_threshold: Some(40 * fixed::ONE),
            parking: Vec2 { x: -100 * fixed::ONE, y: -100 * fixed::ONE },
        }
    }
}

/// Where a cell of a grid of `rows` by `cols` cells lies, and which of its
/// neighbours are cells too.
pub proof fn lemma_cell_place(rows: int, cols: int, cell: int)
    requires
        0 < rows,
        0 < cols,
        0 <= cell < rows * cols,
    ensures
        0 <= cell / cols < rows,
        0 <= cell % cols < cols,
        cell % cols != cols - 1 ==> cell + 1 < rows * cols,
        cell / cols != rows - 1 ==> cell + cols < rows * cols,
{
    let i = cell / cols;
    let j = cell % cols;
    vstd::arithmetic::div_mod::lemma_fundamental_div_mod(cell, cols);
    assert(0 <= i < rows) by (nonlinear_arith)
        requires
            cell == cols * i + j,
            0 <= j < cols,
            0 <= cell < rows * cols,
            0 < cols,
    ;
    if j != cols - 1 {
        assert(cell + 1 < rows * cols) by (nonlinear_arith)
            requires
                cell == cols * i + j,
                0 <= j < cols - 1,
                0 <= i < rows,
        ;
    }
    if i != rows - 1 {
        assert(cell + cols < rows * cols) by (nonlinear_arith)
            requires
                cell == cols * i + j,
                0 <= j < cols,
                0 <= i < rows - 1,
        ;
    }
}

/// Appending links adds the nodes that they touch to the touched ones.
pub proof fn lemma_touched_append(front: Seq<Constraint>, back: Seq<Constraint>, k: int)
    ensures
        touched(front + back, k) <==> touched(front, k) || touched(back, k),
{
    let all = front + back;
    if touched(front, k) {
        let m = choose|m: int| 0 <= m < front.len() && touches(#[trigger] front[m], k);
        assert(all[m] == front[m]);
    }
    if touched(back, k) {
        let m = choose|m: int| 0 <= m < back.len() && touches(#[trigger] back[m], k);
        assert(all[front.len() + m] == back[m]);
    }
    if touched(all, k) {
        let m = choose|m: int| 0 <= m < all.len() && touches(#[trigger] all[m], k);
        if m < front.len() {
            assert(front[m] == all[m]);
        } else {
            assert(back[m - front.len()] == all[m]);
        }
    }
}

/// The cells to the right of and below a cell lie in the same row and in the
/// same column as it.
pub proof fn lemma_neighbours(rows: int, cols: int, cell: int)
    requires
        0 < rows,
        0 < cols,
        0 <= cell < rows * cols,
    ensures
        cell % cols != cols - 1 ==> (cell + 1) / cols == cell / cols && (cell + 1) % cols == cell
            % cols + 1,
        (cell + cols) / cols == cell / cols + 1,
        (cell + cols) % cols == cell % cols,
{
    let i = cell / cols;
    let j = cell % cols;
    vstd::arithmetic::div_mod::lemma_fundamental_div_mod(cell, cols);
    assert(cell == i * cols + j) by (nonlinear_arith)
        requires
            cell == cols * i + j,
    ;
    if j != cols - 1 {
        vstd::arithmetic::div_mod::lemma_fundamental_div_mod_converse(cell + 1, cols, i, j + 1);
    }
    assert(cell + cols == (i + 1) * cols + j) by (nonlinear_arith)
        requires
            cell == i * cols + j,
    ;
    vstd::arithmetic::div_mod::lemma_fundamental_div_mod_converse(cell + cols, cols, i + 1, j);
}

/// The links that start at a cell touch that cell, its right neighbour if
/// it links to it, its neighbour below if it links to it, and no other.
pub proof fn lemma_cell_links_touch(grid: Grid, cell: int, k: int)
    requires
        grid.fault() is None,
        0 <= cell < grid.cells(),
    ensures
        touched(grid.cell_links(cell), k) <==> {
            ||| grid.links_right(cell) && (k == cell || k == cell + 1)
            ||| grid.links_down(cell) && (k == cell || k == cell + grid.cols)
        },
{
    lemma_cell_place(grid.rows as int, grid.cols as int, cell);
    let links = grid.cell_links(cell);
    if grid.links_right(cell) {
        assert(links[0] == grid.link_right(cell));
    }
    if grid.links_down(cell) {
        assert(links[links.len() - 1] == grid.link_down(cell));
    }
    if touched(links, k) {
        let m = choose|m: int| 0 <= m < links.len() && touches(#[trigger] links[m], k);
        assert(links[m] == grid.link_right(cell) || links[m] == grid.link_down(cell));
    }
}

/// A node is touched by the links of the first `cells` cells exactly when
/// it is touched by the links of one of them.
pub proof fn lemma_touched_before(grid: Grid, cells: nat, k: int)
    ensures
        touched(grid.links_before(cells), k) <==> exists|c: int|
            0 <= c < cells && touched(#[trigger] grid.cell_links(c), k),
    decreases cells,
{
    if cells > 0 {
        lemma_touched_before(grid, (cells - 1) as nat, k);
        lemma_touched_append(grid.links_before((cells - 1) as nat), grid.cell_links(cells - 1), k);
        if touched(grid.links_before((cells - 1) as nat), k) {
            let c = choose|c: int| 0 <= c < cells - 1 && touched(#[trigger] grid.cell_links(c), k);
            assert(0 <= c < cells && touched(grid.cell_links(c), k));
        }
        if exists|c: int| 0 <= c < cells && touched(#[trigger] grid.cell_links(c), k) {
            let c = choose|c: int| 0 <= c < cells && touched(#[trigger] grid.cell_links(c), k);
            if c < cells - 1 {
                assert(touched(grid.links_before((cells - 1) as nat), k));
            }
        }
    } else {
        assert(grid.links_before(0).len() == 0);
    }
}

/// The nodes that some link touches are those on the threaded rows and
/// columns that are more than one cell long. All others are put away.
pub proof fn lemma_touched_is_joined(grid: Grid, k: int)
    requires
        grid.fault() is None,
        0 <= k < grid.cells(),
    ensures
        touched(grid.links(), k) <==> grid.joined(k),
{
    let rows = grid.rows as int;
    let cols = grid.cols as int;
    lemma_touched_before(grid, grid.cells(), k);
    lemma_cell_place(rows, cols, k);
    if touched(grid.links(), k) {
        let c = choose|c: int| 0 <= c < grid.cells() && touched(#[trigger] grid.cell_links(c), k);
        lemma_cell_links_touch(grid, c, k);
        lemma_cell_place(rows, cols, c);
        lemma_neighbours(rows, cols, c);
    }
    if grid.joined(k) {
        if grid.links_right(k) || grid.links_down(k) {
            lemma_cell_links_touch(grid, k, k);
            assert(touched(grid.cell_links(k), k));
        } else if grid.threaded_row(grid.row_of(k)) && grid.cols > 1 {
            let c = k - 1;
            if k == 0 {
                vstd::arithmetic::div_mod::lemma_small_mod(0, cols as nat);
            }
            lemma_cell_place(rows, cols, c);
            vstd::arithmetic::div_mod::lemma_fundamental_div_mod(k, cols);
            assert(c == (k / cols) * cols + (cols - 2)) by (nonlinear_arith)
                requires
                    k == cols * (k / cols) + (cols - 1),
                    c == k - 1,
            ;
            vstd::arithmetic::div_mod::lemma_fundamental_div_mod_converse(
                c,
                cols,
                k / cols,
                cols - 2,
            );
            lemma_cell_links_touch(grid, c, k);
            assert(touched(grid.cell_links(c), k));
        } else {
            let c = k - cols;
            vstd::arithmetic::div_mod::lemma_fundamental_div_mod(k, cols);
            assert(c == (k / cols - 1) * cols + k % cols && c >= 0) by (nonlinear_arith)
                requires
                    k == cols * (k / cols) + k % cols,
                    c == k - cols,
                    k / cols == rows - 1,
                    rows > 1,
                    cols > 0,
                    0 <= k % cols,
            ;
            vstd::arithmetic::div_mod::lemma_fundamental_div_mod_converse(
                c,
                cols,
                k / cols - 1,
                k % cols,
            );
            lemma_cell_links_touch(grid, c, k);
            assert(touched(grid.cell_links(c), k));
        }
    }
}

impl Grid {
    /// Checks that the grid can be built.
    pub fn check(&self) -> (r: Result<(), SimError>)
        ensures
            match self.fault() {
                Some(fault) => r == Err::<(), SimError>(SimError::InvalidConfiguration(fault)),
                None => r is Ok,
            },
    {
        if self.rows == 0 || self.cols == 0 {
            return Err(SimError::InvalidConfiguration(ConfigFault::EmptyTopology));
        }
        if self.rows.checked_mul(self.cols).is_none() {
            return Err(SimError::InvalidConfiguration(ConfigFault::TooManyNodes));
        }
        if self.mass <= 0 {
            return Err(SimError::InvalidConfiguration(ConfigFault::NonPositiveMass));
        }
        if self.pin_every == 0 || self.thread_every == 0 {
            return Err(SimError::InvalidConfiguration(ConfigFault::ZeroStride));
        }
        Ok(())
    }

    /// The horizontal position of the first column that centres the cloth
    /// on a screen of the given width.
    pub fn centered_left_edge(&self, screen_width: i64) -> (r: i64)
        ensures
            r == self.left_edge(screen_width),
    {
        fixed::minus(
            fixed::times(screen_width, fixed::HALF),
            fixed::times(fixed::repeat(self.spacing, self.cols), fixed::HALF),
        )
    }

    /// Builds the links of the cloth.
    fn build_links(&self) -> (r: Vec<Constraint>)
        requires
            self.fault() is None,
        ensures
            r@ == self.links(),
            links_fit(r@, self.cells()),
    {
        let total: usize = self.rows * self.cols;
        let mut links: Vec<Constraint> = Vec::new();
        let mut cell: usize = 0;
        while cell < total
            invariant
                self.fault() is None,
                total == self.cells(),
                cell <= total,
                links@ == self.links_before(cell as nat),
                links_fit(links@, total as nat),
            decreases total - cell,
        {
            proof {
                lemma_cell_place(self.rows as int, self.cols as int, cell as int);
            }
            let row: usize = cell / self.cols;
            let col: usize = cell % self.cols;
            let break_threshold: Option<i64> = if row == 0 {
                self.top_break_threshold
            } else {
                self.break_threshold
            };
            let ghost before: Seq<Constraint> = links@;
            if (row % self.thread_every == 0 || row == self.rows - 1) && col != self.cols - 1 {
                links.push(Constraint::new(cell, cell + 1, self.spacing, break_threshold));
            }
            if (col % self.thread_every == 0 || col == self.cols - 1) && row != self.rows - 1 {
                links.push(Constraint::new(cell, cell + self.cols, self.spacing, break_threshold));
            }
            assert(links@ =~= before + self.cell_links(cell as int));
            cell += 1;
        }
        links
    }

    /// Builds the nodes of the cloth, given its links.
    fn build_nodes(&self, left: i64, links: &Vec<Constraint>) -> (r: Result<Vec<Node>, SimError>)
        requires
            self.fault() is None,
            links@ == self.links(),
        ensures
            r is Ok,
            views(r->Ok_0@) == self.nodes(left),
    {
        broadcast use vstd::std_specs::hash::group_hash_axioms;

        let mut ends: HashSet<usize> = HashSet::new();
        let count: usize = links.len();
        let mut m: usize = 0;
        while m < count
            invariant
                m <= count,
                count == links@.len(),
                forall|k: usize| ends@.contains(k) <==> touched(links@.take(m as int), k as int),
            decreases count - m,
        {
            let link: Constraint = links[m];
            ends.insert(link.a);
            ends.insert(link.b);
            proof {
                let front = links@.take(m as int);
                let back = seq![link];
                assert(links@.take(m + 1) =~= front + back);
                assert forall|k: usize| ends@.contains(k) <==> touched(front + back, k as int) by {
                    lemma_touched_append(front, back, k as int);
                    assert(back[0] == link);
                }
            }
            m += 1;
        }
        assert(links@.take(count as int) =~= links@);
        let total: usize = self.rows * self.cols;
        let mut nodes: Vec<Node> = Vec::new();
        let mut cell: usize = 0;
        while cell < total
            invariant
                self.fault() is None,
                total == self.cells(),
                cell <= total,
                links@ == self.links(),
                forall|k: usize| ends@.contains(k) <==> touched(links@, k as int),
                views(nodes@) == Seq::new(cell as nat, |c: int| self.node(c, left)),
            decreases total - cell,
        {
            proof {
                lemma_cell_place(self.rows as int, self.cols as int, cell as int);
            }
            let row: usize = cell / self.cols;
            let col: usize = cell % self.cols;
            let pos: Vec2 = Vec2::new(
                fixed::plus(fixed::repeat(self.spacing, col), left),
                fixed::repeat(self.spacing, row),
            );
            let mut node: Node = match Node::with_pos_and_mass(pos, self.mass) {
                Ok(node) => node,
                Err(e) => {
                    return Err(e);
                },
            };
            if row == 0 && col % self.pin_every == 0 {
                node.set_fixed(true);
            }
            if !ends.contains(&cell) {
                node.set_fixed(true);
                node.set_pos(self.parking);
            }
            let ghost before: Seq<NodeView> = views(nodes@);
            nodes.push(node);
            assert(views(nodes@) =~= before.push(node@));
            assert(views(nodes@) =~= Seq::new((cell + 1) as nat, |c: int| self.node(c, left)));
            cell += 1;
        }
        Ok(nodes)
    }

    /// Builds the nodes and links of the cloth with its first column at
    /// `left`, or says what is wrong with the grid.
    pub fn build(&self, left: i64) -> (r: Result<(Vec<Node>, Vec<Constraint>), SimError>)
        ensures
            match self.fault() {
                Some(fault) => r is Err && r->Err_0 == SimError::InvalidConfiguration(fault),
                None => {
                    &&& r is Ok
                    &&& views(r->Ok_0.0@) == self.nodes(left)
                    &&& r->Ok_0.1@ == self.links()
                    &&& links_fit(r->Ok_0.1@, self.cells())
                },
            },
    {
        match self.check() {
            Ok(()) => {},
            Err(e) => {
                return Err(e);
            },
        }
        let links: Vec<Constraint> = self.build_links();
        match self.build_nodes(left, &links) {
            Ok(nodes) => Ok((nodes, links)),
            Err(e) => Err(e),
        }
    }
}

} // verus!
