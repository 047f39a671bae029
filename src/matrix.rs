use vstd::prelude::*;

verus! {

/// Why a matrix could not be built or combined.
#[derive(Debug, Clone, Copy, PartialEq, Eq)]
pub enum MatrixError {
    /// The shapes of the operands do not fit the operation.
    ShapeMismatch,
    /// A grid without rows.
    Empty,
    /// A grid whose rows differ in length.
    Ragged,
}

/// A dense matrix, stored row by row. The arithmetic on the elements is
/// handed in by the caller, so the matrix only decides which elements meet.
#[derive(Clone, Debug)]
pub struct Matrix<T> {
    pub rows: usize,
    pub cols: usize,
    pub data: Vec<Vec<T>>,
}

/// One step of a dot product: `next` is `acc` plus the product of `x` and `y`.
pub open spec fn dot_step<T, F: Fn(T, T) -> T, G: Fn(T, T) -> T>(
    times: F,
    plus: G,
    x: T,
    y: T,
    acc: T,
    next: T,
) -> bool {
    exists|p: T| #[trigger] times.ensures((x, y), p) && plus.ensures((acc, p), next)
}

/// `sums` are the running sums of the products of `a` and `b`, from `zero`.
pub open spec fn dot_sums<T, F: Fn(T, T) -> T, G: Fn(T, T) -> T>(
    times: F,
    plus: G,
    zero: T,
    a: Seq<T>,
    b: Seq<T>,
    sums: Seq<T>,
) -> bool {
    &&& sums.len() == a.len() + 1
    &&& sums[0] == zero
    &&& forall|k: int|
        0 <= k < a.len() ==> #[trigger] dot_step(times, plus, a[k], b[k], sums[k], sums[k + 1])
}

/// `r` is the dot product of `a` and `b`, summed from the left starting at `zero`.
pub open spec fn is_dot<T, F: Fn(T, T) -> T, G: Fn(T, T) -> T>(
    times: F,
    plus: G,
    zero: T,
    a: Seq<T>,
    b: Seq<T>,
    r: T,
) -> bool {
    exists|sums: Seq<T>| #[trigger] dot_sums(times, plus, zero, a, b, sums) && sums.last() == r
}

fn filled_row<T: Copy>(n: usize, value: T) -> (r: Vec<T>)
    ensures
        r@.len() == n,
        forall|j: int| 0 <= j < n ==> r@[j] == value,
{
    let mut r: Vec<T> = Vec::with_capacity(n);
    let mut j: usize = 0;
    while j < n
        invariant
            j <= n,
            r@.len() == j,
            forall|k: int| 0 <= k < j ==> r@[k] == value,
        decreases n - j,
    {
        r.push(value);
        j = j + 1;
    }
    r
}

impl<T: Copy> Matrix<T> {
    /// Every row holds `cols` elements, and there are `rows` of them.
    pub open spec fn wf(&self) -> bool {
        &&& self.data@.len() == self.rows
        &&& forall|i: int| 0 <= i < self.rows ==> (#[trigger] self.data@[i])@.len() == self.cols
    }

    /// The element at row `i`, column `j`.
    pub open spec fn at(&self, i: int, j: int) -> T {
        self.data@[i]@[j]
    }

    /// Column `j`, top to bottom.
    pub open spec fn column(&self, j: int) -> Seq<T> {
        Seq::new(self.rows as nat, |k: int| self.at(k, j))
    }

    pub open spec fn same_shape(&self, o: &Self) -> bool {
        self.rows == o.rows && self.cols == o.cols
    }

    /// `m` is the product of this matrix and `other`: each element is the dot
    /// product of a row of this matrix with a column of `other`.
    pub open spec fn is_product<F: Fn(T, T) -> T, G: Fn(T, T) -> T>(
        &self,
        other: &Self,
        zero: T,
        times: F,
        plus: G,
        m: &Self,
    ) -> bool {
        &&& m.wf()
        &&& m.rows == self.rows
        &&& m.cols == other.cols
        &&& forall|i: int, j: int|
            0 <= i < self.rows && 0 <= j < other.cols ==> is_dot(
                times,
                plus,
                zero,
                self.data@[i]@,
                other.column(j),
                #[trigger] m.at(i, j),
            )
    }

    /// `t` is the transpose of this matrix.
    pub open spec fn is_transpose(&self, t: &Self) -> bool {
        &&& t.wf()
        &&& t.rows == self.cols
        &&& t.cols == self.rows
        &&& forall|i: int, j: int|
            0 <= i < self.rows && 0 <= j < self.cols ==> #[trigger] t.at(j, i) == self.at(i, j)
    }

    /// A `rows` by `cols` matrix with `value` everywhere.
    pub fn filled(rows: usize, cols: usize, value: T) -> (r: Self)
        ensures
            r.wf(),
            r.rows == rows,
            r.cols == cols,
            forall|i: int, j: int| 0 <= i < rows && 0 <= j < cols ==> #[trigger] r.at(i, j) == value,
    {
        let mut data: Vec<Vec<T>> = Vec::with_capacity(rows);
        let mut i: usize = 0;
        while i < rows
            invariant
                i <= rows,
                data@.len() == i,
                forall|k: int| 0 <= k < i ==> (#[trigger] data@[k])@.len() == cols,
                forall|k: int, j: int| 0 <= k < i && 0 <= j < cols ==> #[trigger] data@[k]@[j] == value,
            decreases rows - i,
        {
            data.push(filled_row(cols, value));
            i = i + 1;
        }
        Matrix { rows, cols, data }
    }

    /// The matrix whose rows are those of `data`; its width is that of the first row.
    pub fn from(data: Vec<Vec<T>>) -> (r: Result<Self, MatrixError>)
        ensures
            match r {
                Ok(m) => {
                    &&& data@.len() > 0
                    &&& m.wf()
                    &&& m.rows == data@.len()
                    &&& m.cols == data@[0]@.len()
                    &&& m.data@ == data@
                },
                Err(MatrixError::Empty) => data@.len() == 0,
                Err(MatrixError::Ragged) => data@.len() > 0 && exists|i: int|
                    0 <= i < data@.len() && (#[trigger] data@[i])@.len() != data@[0]@.len(),
                Err(_) => false,
            },
    {
        if data.len() == 0 {
            return Err(MatrixError::Empty);
        }
        let cols = data[0].len();
        let mut i: usize = 1;
        while i < data.len()
            invariant
                1 <= i <= data@.len(),
                cols == data@[0]@.len(),
                forall|k: int| 0 <= k < i ==> (#[trigger] data@[k])@.len() == cols,
            decreases data@.len() - i,
        {
            if data[i].len() != cols {
                return Err(MatrixError::Ragged);
            }
            i = i + 1;
        }
        Ok(Matrix { rows: data.len(), cols, data })
    }

    /// The transpose: row `i`, column `j` moves to row `j`, column `i`.
    pub fn transpose(&self) -> (r: Self)
        requires
            self.wf(),
        ensures
            self.is_transpose(&r),
    {
        let mut data: Vec<Vec<T>> = Vec::with_capacity(self.cols);
        let mut j: usize = 0;
        while j < self.cols
            invariant
                self.wf(),
                j <= self.cols,
                data@.len() == j,
                forall|k: int| 0 <= k < j ==> (#[trigger] data@[k])@.len() == self.rows,
                forall|k: int, i: int|
                    0 <= k < j && 0 <= i < self.rows ==> #[trigger] data@[k]@[i] == self.at(i, k),
            decreases self.cols - j,
        {
            let mut row: Vec<T> = Vec::with_capacity(self.rows);
            let mut i: usize = 0;
            while i < self.rows
                invariant
                    self.wf(),
                    j < self.cols,
                    i <= self.rows,
                    row@.len() == i,
                    forall|k: int| 0 <= k < i ==> #[trigger] row@[k] == self.at(k, j as int),
                decreases self.rows - i,
            {
                row.push(self.data[i][j]);
                i = i + 1;
            }
            data.push(row);
            j = j + 1;
        }
        Matrix { rows: self.cols, cols: self.rows, data }
    }

    /// Applies `f` to every element.
    pub fn map<F: Fn(T) -> T>(&self, f: F) -> (r: Self)
        requires
            self.wf(),
            forall|x: T| f.requires((x,)),
        ensures
            r.wf(),
            r.same_shape(self),
            forall|i: int, j: int|
                0 <= i < self.rows && 0 <= j < self.cols ==> f.ensures(
                    (self.at(i, j),),
                    #[trigger] r.at(i, j),
                ),
    {
        let mut data: Vec<Vec<T>> = Vec::with_capacity(self.rows);
        let mut i: usize = 0;
        while i < self.rows
            invariant
                self.wf(),
                forall|x: T| f.requires((x,)),
                i <= self.rows,
                data@.len() == i,
                forall|k: int| 0 <= k < i ==> (#[trigger] data@[k])@.len() == self.cols,
                forall|k: int, j: int|
                    0 <= k < i && 0 <= j < self.cols ==> f.ensures(
                        (self.at(k, j),),
                        #[trigger] data@[k]@[j],
                    ),
            decreases self.rows - i,
        {
            let mut row: Vec<T> = Vec::with_capacity(self.cols);
            let mut j: usize = 0;
            while j < self.cols
                invariant
                    self.wf(),
                    forall|x: T| f.requires((x,)),
                    i < self.rows,
                    j <= self.cols,
                    row@.len() == j,
                    forall|k: int|
                        0 <= k < j ==> f.ensures((self.at(i as int, k),), #[trigger] row@[k]),
                decreases self.cols - j,
            {
                let v = f(self.data[i][j]);
                row.push(v);
                j = j + 1;
            }
            data.push(row);
            i = i + 1;
        }
        Matrix { rows: self.rows, cols: self.cols, data }
    }

    /// Combines the elements at the same place with `f`; both have this shape.
    fn zip_with<F: Fn(T, T) -> T>(&self, other: &Self, f: F) -> (r: Self)
        requires
            self.wf(),
            other.wf(),
            self.same_shape(other),
            forall|x: T, y: T| f.requires((x, y)),
        ensures
            r.wf(),
            r.same_shape(self),
            forall|i: int, j: int|
                0 <= i < self.rows && 0 <= j < self.cols ==> f.ensures(
                    (self.at(i, j), other.at(i, j)),
                    #[trigger] r.at(i, j),
                ),
    {
        let mut data: Vec<Vec<T>> = Vec::with_capacity(self.rows);
        let mut i: usize = 0;
        while i < self.rows
            invariant
                self.wf(),
                other.wf(),
                self.same_shape(other),
                forall|x: T, y: T| f.requires((x, y)),
                i <= self.rows,
                data@.len() == i,
                forall|k: int| 0 <= k < i ==> (#[trigger] data@[k])@.len() == self.cols,
                forall|k: int, j: int|
                    0 <= k < i && 0 <= j < self.cols ==> f.ensures(
                        (self.at(k, j), other.at(k, j)),
                        #[trigger] data@[k]@[j],
                    ),
            decreases self.rows - i,
        {
            let mut row: Vec<T> = Vec::with_capacity(self.cols);
            let mut j: usize = 0;
            while j < self.cols
                invariant
                    self.wf(),
                    other.wf(),
                    self.same_shape(other),
                    forall|x: T, y: T| f.requires((x, y)),
                    i < self.rows,
                    j <= self.cols,
                    row@.len() == j,
                    forall|k: int|
                        0 <= k < j ==> f.ensures(
                            (self.at(i as int, k), other.at(i as int, k)),
                            #[trigger] row@[k],
                        ),
                decreases self.cols - j,
            {
                let v = f(self.data[i][j], other.data[i][j]);
                row.push(v);
                j = j + 1;
            }
            data.push(row);
            i = i + 1;
        }
        Matrix { rows: self.rows, cols: self.cols, data }
    }

    /// The elementwise sum, with `plus` adding two elements; the shapes must agree.
    pub fn add<F: Fn(T, T) -> T>(&self, other: &Self, plus: F) -> (r: Result<Self, MatrixError>)
        requires
            self.wf(),
            other.wf(),
            forall|x: T, y: T| plus.requires((x, y)),
        ensures
            match r {
                Ok(m) => self.same_shape(other) && is_elementwise(*self, *other, plus, m),
                Err(e) => e == MatrixError::ShapeMismatch && !self.same_shape(other),
            },
    {
        if self.rows != other.rows || self.cols != other.cols {
            return Err(MatrixError::ShapeMismatch);
        }
        Ok(self.zip_with(other, plus))
    }

    /// The elementwise difference, with `minus` subtracting two elements; the
    /// shapes must agree.
    pub fn substract<F: Fn(T, T) -> T>(&self, other: &Self, minus: F) -> (r: Result<
        Self,
        MatrixError,
    >)
        requires
            self.wf(),
            other.wf(),
            forall|x: T, y: T| minus.requires((x, y)),
        ensures
            match r {
                Ok(m) => self.same_shape(other) && is_elementwise(*self, *other, minus, m),
                Err(e) => e == MatrixError::ShapeMismatch && !self.same_shape(other),
            },
    {
        if self.rows != other.rows || self.cols != other.cols {
            return Err(MatrixError::ShapeMismatch);
        }
        Ok(self.zip_with(other, minus))
    }

    /// The matrix product: the element at row `i`, column `j` is the dot
    /// product of row `i` of this matrix with column `j` of `other`, summed
    /// from the left starting at `zero`. The width of this matrix must be
    /// the height of `other`.
    pub fn multiply<F: Fn(T, T) -> T, G: Fn(T, T) -> T>(
        &self,
        other: &Self,
        zero: T,
        times: F,
        plus: G,
    ) -> (r: Result<Self, MatrixError>)
        requires
            self.wf(),
            other.wf(),
            forall|x: T, y: T| times.requires((x, y)),
            forall|x: T, y: T| plus.requires((x, y)),
        ensures
            match r {
                Ok(m) => self.cols == other.rows && self.is_product(other, zero, times, plus, &m),
                Err(e) => e == MatrixError::ShapeMismatch && self.cols != other.rows,
            },
    {
        if self.cols != other.rows {
            return Err(MatrixError::ShapeMismatch);
        }
        let mut data: Vec<Vec<T>> = Vec::with_capacity(self.rows);
        let mut i: usize = 0;
        while i < self.rows
            invariant
                self.wf(),
                other.wf(),
                self.cols == other.rows,
                forall|x: T, y: T| times.requires((x, y)),
                forall|x: T, y: T| plus.requires((x, y)),
                i <= self.rows,
                data@.len() == i,
                forall|k: int| 0 <= k < i ==> (#[trigger] data@[k])@.len() == other.cols,
                forall|k: int, j: int|
                    0 <= k < i && 0 <= j < other.cols ==> is_dot(
                        times,
                        plus,
                        zero,
                        self.data@[k]@,
                        other.column(j),
                        #[trigger] data@[k]@[j],
                    ),
            decreases self.rows - i,
        {
            let mut row: Vec<T> = Vec::with_capacity(other.cols);
            let mut j: usize = 0;
            while j < other.cols
                invariant
                    self.wf(),
                    other.wf(),
                    self.cols == other.rows,
                    forall|x: T, y: T| times.requires((x, y)),
                    forall|x: T, y: T| plus.requires((x, y)),
                    i < self.rows,
                    j <= other.cols,
                    row@.len() == j,
                    forall|k: int|
                        0 <= k < j ==> is_dot(
                            times,
                            plus,
                            zero,
                            self.data@[i as int]@,
                            other.column(k),
                            #[trigger] row@[k],
                        ),
                decreases other.cols - j,
            {
                let ghost a = self.data@[i as int]@;
                let ghost b = other.column(j as int);
                let mut sum = zero;
                let ghost mut sums = seq![zero];
                let mut k: usize = 0;
                while k < self.cols
                    invariant
                        self.wf(),
                        other.wf(),
                        self.cols == other.rows,
                        forall|x: T, y: T| times.requires((x, y)),
                        forall|x: T, y: T| plus.requires((x, y)),
                        i < self.rows,
                        j < other.cols,
                        a == self.data@[i as int]@,
                        b == other.column(j as int),
                        k <= self.cols,
                        sums.len() == k + 1,
                        sums[0] == zero,
                        sums.last() == sum,
                        forall|q: int|
                            0 <= q < k ==> #[trigger] dot_step(
                                times,
                                plus,
                                a[q],
                                b[q],
                                sums[q],
                                sums[q + 1],
                            ),
                    decreases self.cols - k,
                {
                    let p = times(self.data[i][k], other.data[k][j]);
                    let next = plus(sum, p);
                    proof {
                        assert(times.ensures((a[k as int], b[k as int]), p));
                        let old_sums = sums;
                        sums = sums.push(next);
                        assert(dot_step(times, plus, a[k as int], b[k as int], sum, next));
                        assert forall|q: int| 0 <= q < k + 1 implies #[trigger] dot_step(
                            times,
                            plus,
                            a[q],
                            b[q],
                            sums[q],
                            sums[q + 1],
                        ) by {
                            if q < k {
                                assert(sums[q] == old_sums[q] && sums[q + 1] == old_sums[q + 1]);
                            }
                        }
                    }
                    sum = next;
                    k = k + 1;
                }
                proof {
                    assert(dot_sums(times, plus, zero, a, b, sums));
                }
                row.push(sum);
                j = j + 1;
            }
            data.push(row);
            i = i + 1;
        }
        Ok(Matrix { rows: self.rows, cols: other.cols, data })
    }
}

/// `m` holds `f` applied to the elements of `a` and `b` at each place.
pub open spec fn is_elementwise<T: Copy, F: Fn(T, T) -> T>(
    a: Matrix<T>,
    b: Matrix<T>,
    f: F,
    m: Matrix<T>,
) -> bool {
    &&& m.wf()
    &&& m.same_shape(&a)
    &&& forall|i: int, j: int|
        0 <= i < a.rows && 0 <= j < a.cols ==> f.ensures((a.at(i, j), b.at(i, j)), #[trigger] m.at(i, j))
}

/// Adding `b` then taking it away gives back `a`, wherever taking `y` away
/// from `x` plus `y` gives `x` for the element operations.
pub proof fn lemma_add_then_substract<T: Copy, F: Fn(T, T) -> T, G: Fn(T, T) -> T>(
    a: Matrix<T>,
    b: Matrix<T>,
    sum: Matrix<T>,
    back: Matrix<T>,
    plus: F,
    minus: G,
)
    requires
        a.wf(),
        b.wf(),
        a.same_shape(&b),
        forall|x: T, y: T, s: T, d: T|
            #[trigger] plus.ensures((x, y), s) && #[trigger] minus.ensures((s, y), d) ==> d == x,
        is_elementwise(a, b, plus, sum),
        is_elementwise(sum, b, minus, back),
    ensures
        back.wf(),
        back.same_shape(&a),
        forall|i: int, j: int| 0 <= i < a.rows && 0 <= j < a.cols ==> #[trigger] back.at(i, j) == a.at(i, j),
{
    assert forall|i: int, j: int| 0 <= i < a.rows && 0 <= j < a.cols implies #[trigger] back.at(i, j)
        == a.at(i, j) by {
        assert(plus.ensures((a.at(i, j), b.at(i, j)), sum.at(i, j)));
        assert(minus.ensures((sum.at(i, j), b.at(i, j)), back.at(i, j)));
    }
}

/// `id` is the `n` by `n` identity: `one` on the diagonal, `zero` elsewhere.
pub open spec fn is_identity<T: Copy>(id: Matrix<T>, n: int, zero: T, one: T) -> bool {
    &&& id.wf()
    &&& id.rows == n && id.cols == n
    &&& forall|i: int, j: int| 0 <= i < n && 0 <= j < n ==> #[trigger] id.at(i, j) == if i == j {
        one
    } else {
        zero
    }
}

/// Element operations under which an identity matrix is neutral: `one` is
/// neutral for the product on either side, a product with `zero` on either
/// side is `zero`, and `zero` is neutral for the sum on either side.
pub open spec fn unit_laws<T, F: Fn(T, T) -> T, G: Fn(T, T) -> T>(
    times: F,
    plus: G,
    zero: T,
    one: T,
) -> bool {
    &&& forall|x: T, p: T| #[trigger] times.ensures((x, one), p) ==> p == x
    &&& forall|x: T, p: T| #[trigger] times.ensures((one, x), p) ==> p == x
    &&& forall|x: T, p: T| #[trigger] times.ensures((x, zero), p) ==> p == zero
    &&& forall|x: T, p: T| #[trigger] times.ensures((zero, x), p) ==> p == zero
    &&& forall|x: T, p: T| #[trigger] plus.ensures((x, zero), p) ==> p == x
    &&& forall|x: T, p: T| #[trigger] plus.ensures((zero, x), p) ==> p == x
}

/// A dot product with a vector that is `one` at `t` and `zero` elsewhere
/// picks the element at `t`.
proof fn lemma_dot_unit<T, F: Fn(T, T) -> T, G: Fn(T, T) -> T>(
    times: F,
    plus: G,
    zero: T,
    one: T,
    a: Seq<T>,
    b: Seq<T>,
    t: int,
    sums: Seq<T>,
    k: int,
    unit_left: bool,
)
    requires
        unit_laws(times, plus, zero, one),
        a.len() == b.len(),
        0 <= t < a.len(),
        unit_left ==> forall|q: int| 0 <= q < a.len() ==> a[q] == if q == t { one } else { zero },
        !unit_left ==> forall|q: int| 0 <= q < b.len() ==> b[q] == if q == t { one } else { zero },
        dot_sums(times, plus, zero, a, b, sums),
        0 <= k <= a.len(),
    ensures
        sums[k] == if k <= t {
            zero
        } else if unit_left {
            b[t]
        } else {
            a[t]
        },
    decreases k,
{
    if k > 0 {
        let q = k - 1;
        lemma_dot_unit(times, plus, zero, one, a, b, t, sums, q, unit_left);
        assert(dot_step(times, plus, a[q], b[q], sums[q], sums[q + 1]));
        let p = choose|p: T| #[trigger]
            times.ensures((a[q], b[q]), p) && plus.ensures((sums[q], p), sums[q + 1]);
        if q == t {
            assert(p == if unit_left { b[t] } else { a[t] });
        } else {
            assert(p == zero);
        }
    }
}

/// An identity matrix is neutral for the product on either side, wherever
/// the element operations obey the unit laws.
pub proof fn lemma_identity_neutral<T: Copy, F: Fn(T, T) -> T, G: Fn(T, T) -> T>(
    a: Matrix<T>,
    id_left: Matrix<T>,
    id_right: Matrix<T>,
    left: Matrix<T>,
    right: Matrix<T>,
    zero: T,
    one: T,
    times: F,
    plus: G,
)
    requires
        a.wf(),
        unit_laws(times, plus, zero, one),
        is_identity(id_left, a.rows as int, zero, one),
        is_identity(id_right, a.cols as int, zero, one),
        id_left.is_product(&a, zero, times, plus, &left),
        a.is_product(&id_right, zero, times, plus, &right),
    ensures
        left.same_shape(&a),
        right.same_shape(&a),
        forall|i: int, j: int|
            0 <= i < a.rows && 0 <= j < a.cols ==> #[trigger] left.at(i, j) == a.at(i, j)
                && right.at(i, j) == a.at(i, j),
{
    assert forall|i: int, j: int| 0 <= i < a.rows && 0 <= j < a.cols implies #[trigger] left.at(
        i,
        j,
    ) == a.at(i, j) && right.at(i, j) == a.at(i, j) by {
        let row_id = id_left.data@[i]@;
        let col_a = a.column(j);
        assert(is_dot(times, plus, zero, row_id, col_a, left.at(i, j)));
        let s1 = choose|s: Seq<T>| #[trigger]
            dot_sums(times, plus, zero, row_id, col_a, s) && s.last() == left.at(i, j);
        assert forall|q: int| 0 <= q < row_id.len() implies row_id[q] == if q == i {
            one
        } else {
            zero
        } by {
            assert(id_left.at(i, q) == if i == q { one } else { zero });
        }
        lemma_dot_unit(times, plus, zero, one, row_id, col_a, i, s1, row_id.len() as int, true);
        let row_a = a.data@[i]@;
        let col_id = id_right.column(j);
        assert(is_dot(times, plus, zero, row_a, col_id, right.at(i, j)));
        let s2 = choose|s: Seq<T>| #[trigger]
            dot_sums(times, plus, zero, row_a, col_id, s) && s.last() == right.at(i, j);
        assert forall|q: int| 0 <= q < col_id.len() implies col_id[q] == if q == j {
            one
        } else {
            zero
        } by {
            assert(id_right.at(q, j) == if q == j { one } else { zero });
        }
        lemma_dot_unit(times, plus, zero, one, row_a, col_id, j, s2, row_a.len() as int, false);
    }
}

/// Transposing twice gives back the matrix: the same shape, and the same
/// element at every place.
pub proof fn lemma_transpose_involution<T: Copy>(m: Matrix<T>, t: Matrix<T>, tt: Matrix<T>)
    requires
        m.wf(),
        m.is_transpose(&t),
        t.is_transpose(&tt),
    ensures
        tt.wf(),
        tt.same_shape(&m),
        forall|i: int, j: int| 0 <= i < m.rows && 0 <= j < m.cols ==> #[trigger] tt.at(i, j) == m.at(i, j),
{
    assert forall|i: int, j: int| 0 <= i < m.rows && 0 <= j < m.cols implies #[trigger] tt.at(i, j) == m.at(i, j) by {
        assert(tt.at(i, j) == t.at(j, i));
    }
}

/// `f` gives at most one result for each pair of arguments.
pub open spec fn deterministic<T, F: Fn(T, T) -> T>(f: F) -> bool {
    forall|x: T, y: T, p: T, q: T| f.ensures((x, y), p) && f.ensures((x, y), q) ==> p == q
}

/// `f` gives the same result with its arguments swapped.
pub open spec fn commutes<T, F: Fn(T, T) -> T>(f: F) -> bool {
    forall|x: T, y: T, p: T| #[trigger] f.ensures((x, y), p) ==> f.ensures((y, x), p)
}

proof fn lemma_sums_agree<T, F: Fn(T, T) -> T, G: Fn(T, T) -> T>(
    times: F,
    plus: G,
    zero: T,
    a: Seq<T>,
    b: Seq<T>,
    s1: Seq<T>,
    s2: Seq<T>,
    k: int,
)
    requires
        deterministic(times),
        commutes(times),
        deterministic(plus),
        a.len() == b.len(),
        dot_sums(times, plus, zero, a, b, s1),
        dot_sums(times, plus, zero, b, a, s2),
        0 <= k <= a.len(),
    ensures
        s1[k] == s2[k],
    decreases k,
{
    if k > 0 {
        let q = k - 1;
        lemma_sums_agree(times, plus, zero, a, b, s1, s2, q);
        assert(dot_step(times, plus, a[q], b[q], s1[q], s1[q + 1]));
        assert(dot_step(times, plus, b[q], a[q], s2[q], s2[q + 1]));
        let pa = choose|p: T| #[trigger]
            times.ensures((a[q], b[q]), p) && plus.ensures((s1[q], p), s1[q + 1]);
        let pb = choose|p: T| #[trigger]
            times.ensures((b[q], a[q]), p) && plus.ensures((s2[q], p), s2[q + 1]);
        assert(times.ensures((a[q], b[q]), pb));
        assert(pa == pb);
    }
}

/// With a commutative product and single-valued operations, the dot product
/// of `a` with `b` is that of `b` with `a`.
proof fn lemma_dot_symmetric<T, F: Fn(T, T) -> T, G: Fn(T, T) -> T>(
    times: F,
    plus: G,
    zero: T,
    a: Seq<T>,
    b: Seq<T>,
    r1: T,
    r2: T,
)
    requires
        deterministic(times),
        commutes(times),
        deterministic(plus),
        a.len() == b.len(),
        is_dot(times, plus, zero, a, b, r1),
        is_dot(times, plus, zero, b, a, r2),
    ensures
        r1 == r2,
{
    let s1 = choose|s: Seq<T>| #[trigger] dot_sums(times, plus, zero, a, b, s) && s.last() == r1;
    let s2 = choose|s: Seq<T>| #[trigger] dot_sums(times, plus, zero, b, a, s) && s.last() == r2;
    lemma_sums_agree(times, plus, zero, a, b, s1, s2, a.len() as int);
}

/// The transpose of a product is the product of the transposes in the other
/// order, `(A B)^T = B^T A^T`, wherever the element product commutes and
/// both operations give one result for each pair of arguments.
pub proof fn lemma_transpose_of_product<T: Copy, F: Fn(T, T) -> T, G: Fn(T, T) -> T>(
    a: Matrix<T>,
    b: Matrix<T>,
    ab: Matrix<T>,
    ab_t: Matrix<T>,
    a_t: Matrix<T>,
    b_t: Matrix<T>,
    bt_at: Matrix<T>,
    zero: T,
    times: F,
    plus: G,
)
    requires
        a.wf(),
        b.wf(),
        a.cols == b.rows,
        deterministic(times),
        commutes(times),
        deterministic(plus),
        a.is_product(&b, zero, times, plus, &ab),
        ab.is_transpose(&ab_t),
        a.is_transpose(&a_t),
        b.is_transpose(&b_t),
        b_t.is_product(&a_t, zero, times, plus, &bt_at),
    ensures
        ab_t.wf(),
        bt_at.wf(),
        ab_t.same_shape(&bt_at),
        forall|i: int, j: int|
            0 <= i < ab_t.rows && 0 <= j < ab_t.cols ==> #[trigger] ab_t.at(i, j) == bt_at.at(i, j),
{
    assert forall|i: int, j: int| 0 <= i < ab_t.rows && 0 <= j < ab_t.cols implies #[trigger] ab_t.at(
        i,
        j,
    ) == bt_at.at(i, j) by {
        let row_a = a.data@[j]@;
        let col_b = b.column(i);
        assert(ab_t.at(i, j) == ab.at(j, i));
        assert(is_dot(times, plus, zero, row_a, col_b, ab.at(j, i)));
        assert(b_t.data@[i]@ =~= col_b) by {
            assert forall|k: int| 0 <= k < b.rows implies b_t.data@[i]@[k] == col_b[k] by {
                assert(b_t.at(i, k) == b.at(k, i));
            }
        }
        assert(a_t.column(j) =~= row_a) by {
            assert forall|k: int| 0 <= k < a.cols implies a_t.column(j)[k] == row_a[k] by {
                assert(a_t.at(k, j) == a.at(j, k));
            }
        }
        assert(is_dot(times, plus, zero, col_b, row_a, bt_at.at(i, j)));
        lemma_dot_symmetric(times, plus, zero, row_a, col_b, ab.at(j, i), bt_at.at(i, j));
    }
}

} // verus!
