use vstd::prelude::*;
use vstd::string::StringExecFns;

verus! {

/// A row-major grid of `width * height` values.
#[derive(Clone)]
pub struct Buffer<T: Copy> {
    pub values: Vec<T>,
    pub height: usize,
    pub width: usize,
}

impl<T: Copy> Buffer<T> {
    /// The grid is well formed when it holds exactly one value per cell.
    pub open spec fn wf(&self) -> bool {
        self.values@.len() == self.width * self.height
    }

    /// The value of cell (x, y).
    pub open spec fn cell(&self, x: int, y: int) -> T {
        self.values@[self.width * y + x]
    }

    /// Whether (x, y) names a cell of the grid.
    pub open spec fn in_bounds(&self, x: int, y: int) -> bool {
        0 <= x < self.width && 0 <= y < self.height
    }

    /// Position of cell (x, y) in `cells()`.
    pub open spec fn index_of(&self, x: int, y: int) -> int {
        self.width * y + x
    }

    /// A `width` by `height` grid with every cell set to `fill_value`.
    pub fn new(width: usize, height: usize, fill_value: T) -> (r: Self)
        requires
            width * height <= usize::MAX,
        ensures
            r.wf(),
            r.width == width,
            r.height == height,
            r.values@ == Seq::new((width * height) as nat, |i: int| fill_value),
    {
        let n: usize = width * height;
        let mut values: Vec<T> = Vec::with_capacity(n);
        let mut i: usize = 0;
        while i < n
            invariant
                i <= n,
                values@ == Seq::new(i as nat, |k: int| fill_value),
            decreases n - i,
        {
            values.push(fill_value);
            i = i + 1;
        }
        Buffer { values, width, height }
    }

    /// The value of cell (x, y), or `None` where (x, y) lies outside the grid.
    pub fn get(&self, x: usize, y: usize) -> (r: Option<T>)
        requires
            self.wf(),
        ensures
            self.in_bounds(x as int, y as int) ==> r == Some(self.cell(x as int, y as int)),
            !self.in_bounds(x as int, y as int) ==> r is None,
    {
        match self.get_index(x, y) {
            None => None,
            Some(index) => Some(self.values[index]),
        }
    }

    /// Writes `value` into cell (x, y); a cell outside the grid is an error and
    /// leaves the grid as it was.
    pub fn set(&mut self, x: usize, y: usize, value: T) -> (r: Result<(), String>)
        requires
            old(self).wf(),
        ensures
            final(self).wf(),
            final(self).width == old(self).width,
            final(self).height == old(self).height,
            r is Ok <==> old(self).in_bounds(x as int, y as int),
            r is Ok ==> final(self).values@ == old(self).values@.update(
                old(self).index_of(x as int, y as int),
                value,
            ),
            r is Err ==> *final(self) == *old(self),
    {
        match self.get_index(x, y) {
            None => Err(String::from_str("x and y point to a value outside of the buffer")),
            Some(index) => {
                self.values.set(index, value);
                Ok(())
            },
        }
    }

    /// Position of cell (x, y) in `values`, or `None` where it lies outside the grid.
    fn get_index(&self, x: usize, y: usize) -> (r: Option<usize>)
        requires
            self.wf(),
        ensures
            self.in_bounds(x as int, y as int) <==> r is Some,
            r matches Some(i) ==> i == self.index_of(x as int, y as int) && i < self.values@.len(),
    {
        if x >= self.width || y >= self.height {
            return None;
        }
        let len = self.values.len();
        proof {
            lemma_cell_index_in_range(self.width as int, self.height as int, x as int, y as int);
        }
        let index = self.width * y + x;
        Some(index)
    }
}

/// A cell inside a `width` by `height` grid has its row-major position inside the grid.
proof fn lemma_cell_index_in_range(width: int, height: int, x: int, y: int)
    requires
        0 <= x < width,
        0 <= y < height,
    ensures
        0 <= width * y + x < width * height,
{
    assert(width * y + x < width * height) by (nonlinear_arith)
        requires
            0 <= x < width,
            0 <= y < height,
    ;
    assert(0 <= width * y) by (nonlinear_arith)
        requires
            0 <= x < width,
            0 <= y,
    ;
}

} // verus!
