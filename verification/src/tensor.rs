//! The dense tensor: an owned element buffer plus an explicit shape.

use vstd::prelude::*;
use crate::TensorError;

verus! {

/// The number of elements a shape describes: the product of its dimensions.
pub open spec fn shape_product(dims: Seq<usize>) -> nat
    decreases dims.len(),
{
    if dims.len() == 0 {
        1
    } else {
        (dims[0] as nat) * shape_product(dims.drop_first())
    }
}

/// A shape with a zero dimension describes no elements at all.
proof fn lemma_product_zero(s: Seq<usize>, i: int)
    requires
        0 <= i < s.len(),
        s[i] == 0,
    ensures
        shape_product(s) == 0,
    decreases i,
{
    if i == 0 {
        assert(s.len() != 0);
        assert(shape_product(s) == (s[0] as nat) * shape_product(s.drop_first()));
        assert((s[0] as nat) * shape_product(s.drop_first()) == 0);
    } else {
        lemma_product_zero(s.drop_first(), i - 1);
        assert(shape_product(s) == (s[0] as nat) * shape_product(s.drop_first()));
    }
}

/// Extending a prefix of a shape by one dimension multiplies its product by it.
proof fn lemma_product_take_step(s: Seq<usize>, i: int)
    requires
        0 <= i < s.len(),
    ensures
        shape_product(s.take(i + 1)) == shape_product(s.take(i)) * (s[i] as nat),
    decreases i,
{
    if i == 0 {
        assert(s.take(1).drop_first() =~= Seq::<usize>::empty());
        assert(s.take(0) =~= Seq::<usize>::empty());
        assert(s.take(1)[0] == s[0]);
        assert(shape_product(s.take(1)) == (s[0] as nat) * shape_product(s.take(1).drop_first()));
        assert(shape_product(s.take(1)) == (s[0] as nat));
        assert(shape_product(s.take(0)) == 1);
    } else {
        lemma_product_take_step(s.drop_first(), i - 1);
        let d = s.drop_first();
        assert(s.take(i + 1).drop_first() =~= d.take(i));
        assert(s.take(i).drop_first() =~= d.take(i - 1));
        assert(s.take(i + 1)[0] == s[0]);
        assert(s.take(i)[0] == s[0]);
        assert(d[i - 1] == s[i]);
        let a = s[0] as nat;
        let b = shape_product(d.take(i - 1));
        let c = s[i] as nat;
        assert(shape_product(s.take(i + 1)) == a * shape_product(d.take(i)));
        assert(shape_product(d.take(i)) == b * c);
        assert(shape_product(s.take(i)) == a * b);
        assert(a * (b * c) == (a * b) * c) by (nonlinear_arith);
        assert(shape_product(s.take(i + 1)) == (a * b) * c);
    }
}

/// A shape all of whose dimensions are positive describes at least one element.
proof fn lemma_product_all_pos(s: Seq<usize>)
    requires
        forall|j: int| 0 <= j < s.len() ==> s[j] >= 1,
    ensures
        shape_product(s) >= 1,
    decreases s.len(),
{
    if s.len() > 0 {
        assert(forall|j: int| 0 <= j < s.drop_first().len() ==> s.drop_first()[j] == s[j + 1]);
        lemma_product_all_pos(s.drop_first());
        let a = s[0] as nat;
        let b = shape_product(s.drop_first());
        assert(a >= 1 && b >= 1 ==> a * b >= 1) by (nonlinear_arith);
    }
}

/// The product of a shape splits at any point into the product of the prefix
/// and the product of the rest.
proof fn lemma_product_split(s: Seq<usize>, i: int)
    requires
        0 <= i <= s.len(),
    ensures
        shape_product(s) == shape_product(s.take(i)) * shape_product(s.skip(i)),
    decreases i,
{
    if i == 0 {
        assert(s.take(0) =~= Seq::<usize>::empty());
        assert(s.skip(0) =~= s);
        assert(shape_product(s.take(0)) == 1);
    } else {
        lemma_product_split(s.drop_first(), i - 1);
        let d = s.drop_first();
        assert(s.take(i).drop_first() =~= d.take(i - 1));
        assert(s.skip(i) =~= d.skip(i - 1));
        assert(s.take(i)[0] == s[0]);
        let a = s[0] as nat;
        let b = shape_product(d.take(i - 1));
        let c = shape_product(d.skip(i - 1));
        assert(shape_product(s) == a * shape_product(d));
        assert(shape_product(d) == b * c);
        assert(shape_product(s.take(i)) == a * b);
        assert(a * (b * c) == (a * b) * c) by (nonlinear_arith);
        assert(shape_product(s) == (a * b) * c);
    }
}

/// The element count a shape describes, where it fits in a machine word.
pub fn checked_product(dims: &Vec<usize>) -> (r: Option<usize>)
    ensures
        match r {
            Some(p) => p == shape_product(dims@),
            None => shape_product(dims@) > usize::MAX,
        },
{
    let n = dims.len();
    let mut i: usize = 0;
    while i < n
        invariant
            0 <= i <= n,
            n == dims@.len(),
            forall|j: int| 0 <= j < i ==> dims@[j] >= 1,
        decreases n - i,
    {
        if dims[i] == 0 {
            proof {
                lemma_product_zero(dims@, i as int);
            }
            return Some(0);
        }
        i += 1;
    }
    let mut acc: usize = 1;
    let mut k: usize = 0;
    while k < n
        invariant
            0 <= k <= n,
            n == dims@.len(),
            forall|j: int| 0 <= j < n ==> dims@[j] >= 1,
            acc == shape_product(dims@.take(k as int)),
        decreases n - k,
    {
        match acc.checked_mul(dims[k]) {
            Some(a) => {
                proof {
                    lemma_product_take_step(dims@, k as int);
                }
                acc = a;
            },
            None => {
                proof {
                    lemma_product_split(dims@, k as int);
                    assert(dims@.skip(k as int).drop_first() =~= dims@.skip(k as int + 1));
                    assert(forall|j: int|
                        0 <= j < dims@.skip(k as int + 1).len() ==> #[trigger] dims@.skip(
                            k as int + 1,
                        )[j] == dims@[j + k + 1]);
                    lemma_product_all_pos(dims@.skip(k as int + 1));
                    let a = shape_product(dims@.take(k as int));
                    let c = dims@[k as int] as nat;
                    let d = shape_product(dims@.skip(k as int + 1));
                    assert(d >= 1 && a * c > usize::MAX ==> a * (c * d) > usize::MAX)
                        by (nonlinear_arith);
                }
                return None;
            },
        }
        k += 1;
    }
    proof {
        assert(dims@.take(n as int) =~= dims@);
    }
    Some(acc)
}

/// Whether the buffer `r` is, element for element, a possible result of
/// mapping `f` over the buffer `a`.
pub open spec fn map_rel<T, F: Fn(T) -> T>(f: F, a: Seq<T>, r: Seq<T>) -> bool {
    &&& r.len() == a.len()
    &&& forall|i: int| 0 <= i < a.len() ==> call_ensures(f, (a[i],), #[trigger] r[i])
}

/// Whether the buffer `r` is, element for element, a possible result of
/// combining the buffers `a` and `b` pointwise with `f`.
pub open spec fn zip_rel<T, F: Fn(T, T) -> T>(f: F, a: Seq<T>, b: Seq<T>, r: Seq<T>) -> bool {
    &&& a.len() == b.len()
    &&& r.len() == a.len()
    &&& forall|i: int| 0 <= i < a.len() ==> call_ensures(f, (a[i], b[i]), #[trigger] r[i])
}

/// Row `i` of a row-major matrix buffer with `cols` columns.
pub open spec fn mat_row<T>(m: Seq<T>, cols: nat, i: nat) -> Seq<T> {
    Seq::new(cols, |k: int| m[i * cols + k])
}

/// Column `j` of a row-major matrix buffer with `rows` rows and `cols`
/// columns.
pub open spec fn mat_col<T>(m: Seq<T>, cols: nat, rows: nat, j: nat) -> Seq<T> {
    Seq::new(rows, |k: int| m[k * cols + j])
}

/// Whether `r` is a possible left-to-right fold of the products of the
/// corresponding elements of `a` and `b`, starting from `acc`: the
/// sum-of-products contraction of a matrix multiplication, stated over the
/// contracts of the supplied addition and multiplication.
pub open spec fn dot_rel<T, FA: Fn(T, T) -> T, FM: Fn(T, T) -> T>(
    addf: FA,
    mulf: FM,
    a: Seq<T>,
    b: Seq<T>,
    acc: T,
    r: T,
) -> bool
    decreases a.len(),
{
    if a.len() == 0 {
        r == acc
    } else {
        exists|p: T, acc2: T|
            #![trigger call_ensures(mulf, (a[0], b[0]), p), call_ensures(addf, (acc, p), acc2)]
            call_ensures(mulf, (a[0], b[0]), p) && call_ensures(addf, (acc, p), acc2) && dot_rel(
                addf,
                mulf,
                a.drop_first(),
                b.drop_first(),
                acc2,
                r,
            )
    }
}

/// Whether the row-major buffer `r` is a possible result of multiplying the
/// `rows`-by-`inner` matrix `a` by the `inner`-by-`cols` matrix `b`, each
/// entry a fold of products along the shared dimension starting from `zero`.
pub open spec fn matmul_rel<T, FA: Fn(T, T) -> T, FM: Fn(T, T) -> T>(
    addf: FA,
    mulf: FM,
    zero: T,
    a: Seq<T>,
    b: Seq<T>,
    rows: nat,
    inner: nat,
    cols: nat,
    r: Seq<T>,
) -> bool {
    &&& r.len() == rows * cols
    &&& forall|i: int, j: int|
        #![trigger mat_row(a, inner, i as nat), mat_col(b, cols, inner, j as nat)]
        0 <= i < rows && 0 <= j < cols ==> dot_rel(
            addf,
            mulf,
            mat_row(a, inner, i as nat),
            mat_col(b, cols, inner, j as nat),
            zero,
            r[i * cols + j],
        )
}

/// A row-major position lies inside the buffer of its matrix.
proof fn lemma_row_major_index(i: int, j: int, rows: int, cols: int)
    requires
        0 <= i < rows,
        0 <= j < cols,
    ensures
        0 <= i * cols + j < rows * cols,
{
    assert(i * cols + j < rows * cols) by (nonlinear_arith)
        requires
            0 <= i < rows,
            0 <= j < cols,
    ;
}

/// Positions of earlier rows come strictly before the start of row `i`.
proof fn lemma_row_major_earlier(i2: int, j2: int, i: int, cols: int)
    requires
        0 <= i2 < i,
        0 <= j2 < cols,
    ensures
        i2 * cols + j2 < i * cols,
{
    assert(i2 * cols + j2 < i * cols) by (nonlinear_arith)
        requires
            0 <= i2 < i,
            0 <= j2 < cols,
    ;
}

/// The product of a two-dimensional shape is the product of its two sizes.
pub proof fn lemma_product_pair(s: Seq<usize>)
    requires
        s.len() == 2,
    ensures
        shape_product(s) == (s[0] as nat) * (s[1] as nat),
{
    assert(s.drop_first().drop_first() =~= Seq::<usize>::empty());
    assert(shape_product(s.drop_first().drop_first()) == 1);
    assert(s.drop_first()[0] == s[1]);
    assert(shape_product(s.drop_first()) == (s[1] as nat) * 1);
    assert(shape_product(s) == (s[0] as nat) * shape_product(s.drop_first()));
}

/// Whether two dimension vectors hold the same sizes in the same order.
fn shapes_equal(a: &Vec<usize>, b: &Vec<usize>) -> (r: bool)
    ensures
        r <==> a@ == b@,
{
    if a.len() != b.len() {
        return false;
    }
    let n = a.len();
    let mut i: usize = 0;
    while i < n
        invariant
            0 <= i <= n,
            n == a@.len(),
            a@.len() == b@.len(),
            forall|j: int| 0 <= j < i ==> a@[j] == b@[j],
        decreases n - i,
    {
        if a[i] != b[i] {
            return false;
        }
        i += 1;
    }
    proof {
        assert(a@ =~= b@);
    }
    true
}

/// A dense, owned, multi-dimensional array: a flat row-major element buffer
/// together with an ordered sequence of dimension sizes.
#[derive(Debug)]
pub struct Tensor<T> {
    elems: Vec<T>,
    dims: Vec<usize>,
}

/// The mathematical value of a tensor: its dimension sizes and its elements,
/// the latter flat in row-major order.
pub struct TensorView<T> {
    pub dims: Seq<usize>,
    pub elems: Seq<T>,
}

impl<T> View for Tensor<T> {
    type V = TensorView<T>;

    closed spec fn view(&self) -> TensorView<T> {
        (TensorView { dims: self.dims@, elems: self.elems@ })
    }
}

impl<T> Tensor<T> {
    /// A tensor is well formed when its buffer holds exactly as many elements
    /// as the product of its dimension sizes.
    pub open spec fn wf(&self) -> bool {
        self@.elems.len() == shape_product(self@.dims)
    }

    /// Builds a tensor from a flat row-major buffer and a shape; the buffer
    /// must hold exactly as many elements as the shape describes.
    pub fn from_data(elems: Vec<T>, dims: Vec<usize>) -> (r: Result<Tensor<T>, TensorError>)
        ensures
            match r {
                Ok(t) => t.wf() && t@.dims == dims@ && t@.elems == elems@,
                Err(e) => e == TensorError::ShapeMismatch && elems@.len() != shape_product(
                    dims@,
                ),
            },
    {
        let n = elems.len();
        match checked_product(&dims) {
            Some(p) => {
                if n == p {
                    Ok(Tensor { elems, dims })
                } else {
                    Err(TensorError::ShapeMismatch)
                }
            },
            None => Err(TensorError::ShapeMismatch),
        }
    }

    /// The number of elements the tensor holds.
    pub fn len(&self) -> (n: usize)
        ensures
            n == self@.elems.len(),
    {
        self.elems.len()
    }

    /// The shape, as an owned copy of the dimension sizes.
    pub fn shape(&self) -> (s: Vec<usize>)
        ensures
            s@ == self@.dims,
    {
        let n = self.dims.len();
        let mut s: Vec<usize> = Vec::new();
        let mut i: usize = 0;
        while i < n
            invariant
                0 <= i <= n,
                n == self@.dims.len(),
                s@.len() == i,
                forall|j: int| 0 <= j < i ==> s@[j] == self@.dims[j],
            decreases n - i,
        {
            s.push(self.dims[i]);
            i += 1;
        }
        proof {
            assert(s@ =~= self@.dims);
        }
        s
    }
}

impl<T: Copy> Tensor<T> {
    /// The element at a flat row-major position.
    pub fn get(&self, i: usize) -> (x: T)
        requires
            i < self@.elems.len(),
        ensures
            x == self@.elems[i as int],
    {
        self.elems[i]
    }

    /// A tensor of the given shape with every element equal to `value`.
    pub fn filled(dims: Vec<usize>, value: T) -> (t: Tensor<T>)
        requires
            shape_product(dims@) <= usize::MAX,
        ensures
            t.wf(),
            t@.dims == dims@,
            t@.elems.len() == shape_product(dims@),
            forall|i: int| 0 <= i < t@.elems.len() ==> t@.elems[i] == value,
    {
        let n: usize = match checked_product(&dims) {
            Some(p) => p,
            None => 0,
        };
        let mut elems: Vec<T> = Vec::new();
        let mut i: usize = 0;
        while i < n
            invariant
                0 <= i <= n,
                elems@.len() == i,
                forall|j: int| 0 <= j < i ==> elems@[j] == value,
            decreases n - i,
        {
            elems.push(value);
            i += 1;
        }
        Tensor { elems, dims }
    }

    /// A new tensor of the same shape, with `f` applied independently to
    /// every element.
    pub fn apply<F: Fn(T) -> T>(&self, f: F) -> (r: Tensor<T>)
        requires
            self.wf(),
            forall|i: int| 0 <= i < self@.elems.len() ==> call_requires(f, (self@.elems[i],)),
        ensures
            r.wf(),
            r@.dims == self@.dims,
            map_rel(f, self@.elems, r@.elems),
    {
        let n = self.elems.len();
        let mut out: Vec<T> = Vec::new();
        let mut i: usize = 0;
        while i < n
            invariant
                0 <= i <= n,
                n == self@.elems.len(),
                forall|j: int| 0 <= j < n ==> call_requires(f, (self@.elems[j],)),
                out@.len() == i,
                forall|j: int| 0 <= j < i ==> call_ensures(f, (self@.elems[j],), #[trigger] out@[j]),
            decreases n - i,
        {
            out.push(f(self.elems[i]));
            i += 1;
        }
        Tensor { elems: out, dims: self.shape() }
    }

    /// A new tensor built by combining corresponding elements of `self` and
    /// `other` with `f`; the shapes must agree exactly.
    pub fn zip_with<F: Fn(T, T) -> T>(&self, other: &Tensor<T>, f: F) -> (r: Result<
        Tensor<T>,
        TensorError,
    >)
        requires
            self.wf(),
            other.wf(),
            self@.dims == other@.dims ==> forall|i: int|
                0 <= i < self@.elems.len() ==> call_requires(
                    f,
                    (self@.elems[i], other@.elems[i]),
                ),
        ensures
            match r {
                Ok(t) => {
                    &&& self@.dims == other@.dims
                    &&& t.wf()
                    &&& t@.dims == self@.dims
                    &&& zip_rel(f, self@.elems, other@.elems, t@.elems)
                },
                Err(e) => e == TensorError::ShapeMismatch && self@.dims != other@.dims,
            },
    {
        if !shapes_equal(&self.dims, &other.dims) {
            return Err(TensorError::ShapeMismatch);
        }
        let n = self.elems.len();
        let mut out: Vec<T> = Vec::new();
        let mut i: usize = 0;
        while i < n
            invariant
                0 <= i <= n,
                n == self@.elems.len(),
                self@.elems.len() == other@.elems.len(),
                forall|j: int|
                    0 <= j < n ==> call_requires(f, (self@.elems[j], other@.elems[j])),
                out@.len() == i,
                forall|j: int|
                    0 <= j < i ==> call_ensures(
                        f,
                        (self@.elems[j], other@.elems[j]),
                        #[trigger] out@[j],
                    ),
            decreases n - i,
        {
            out.push(f(self.elems[i], other.elems[i]));
            i += 1;
        }
        Ok(Tensor { elems: out, dims: self.shape() })
    }

    /// Standard two-dimensional matrix multiplication. Both operands must be
    /// exactly two-dimensional and share the inner dimension; each entry of
    /// the result folds the products of a row of `self` and a column of
    /// `other` with the supplied addition, starting from `zero`.
    #[verifier::loop_isolation(false)]
    pub fn matmul<FA: Fn(T, T) -> T, FM: Fn(T, T) -> T>(
        &self,
        other: &Tensor<T>,
        zero: T,
        addf: FA,
        mulf: FM,
    ) -> (r: Result<Tensor<T>, TensorError>)
        requires
            self.wf(),
            other.wf(),
            forall|x: T, y: T| call_requires(addf, (x, y)),
            forall|x: T, y: T| call_requires(mulf, (x, y)),
            (self@.dims.len() == 2 && other@.dims.len() == 2 && self@.dims[1] == other@.dims[0])
                ==> (self@.dims[0] as nat) * (other@.dims[1] as nat) <= usize::MAX,
        ensures
            match r {
                Ok(t) => {
                    &&& self@.dims.len() == 2
                    &&& other@.dims.len() == 2
                    &&& self@.dims[1] == other@.dims[0]
                    &&& t.wf()
                    &&& t@.dims.len() == 2
                    &&& t@.dims[0] == self@.dims[0]
                    &&& t@.dims[1] == other@.dims[1]
                    &&& matmul_rel(
                        addf,
                        mulf,
                        zero,
                        self@.elems,
                        other@.elems,
                        self@.dims[0] as nat,
                        self@.dims[1] as nat,
                        other@.dims[1] as nat,
                        t@.elems,
                    )
                },
                Err(e) => {
                    &&& e == TensorError::DimensionError
                    &&& !(self@.dims.len() == 2 && other@.dims.len() == 2 && self@.dims[1]
                        == other@.dims[0])
                },
            },
    {
        if self.dims.len() != 2 || other.dims.len() != 2 {
            return Err(TensorError::DimensionError);
        }
        let rows = self.dims[0];
        let inner = self.dims[1];
        let cols = other.dims[1];
        if inner != other.dims[0] {
            return Err(TensorError::DimensionError);
        }
        let lhs_len = self.elems.len();
        let rhs_len = other.elems.len();
        proof {
            lemma_product_pair(self@.dims);
            lemma_product_pair(other@.dims);
            assert(lhs_len == (rows as nat) * (inner as nat));
            assert(rhs_len == (inner as nat) * (cols as nat));
        }
        let mut out: Vec<T> = Vec::new();
        let mut i: usize = 0;
        while i < rows
            invariant
                0 <= i <= rows,
                out@.len() == i * cols,
                forall|i2: int, j2: int|
                    #![trigger mat_row(self@.elems, inner as nat, i2 as nat), mat_col(other@.elems, cols as nat, inner as nat, j2 as nat)]
                    0 <= i2 < i && 0 <= j2 < cols ==> dot_rel(
                        addf,
                        mulf,
                        mat_row(self@.elems, inner as nat, i2 as nat),
                        mat_col(other@.elems, cols as nat, inner as nat, j2 as nat),
                        zero,
                        out@[i2 * cols + j2],
                    ),
            decreases rows - i,
        {
            let mut j: usize = 0;
            while j < cols
                invariant
                    0 <= j <= cols,
                    out@.len() == i * cols + j,
                    forall|i2: int, j2: int|
                        #![trigger mat_row(self@.elems, inner as nat, i2 as nat), mat_col(other@.elems, cols as nat, inner as nat, j2 as nat)]
                        (0 <= i2 < i && 0 <= j2 < cols) || (i2 == i && 0 <= j2 < j) ==> dot_rel(
                            addf,
                            mulf,
                            mat_row(self@.elems, inner as nat, i2 as nat),
                            mat_col(other@.elems, cols as nat, inner as nat, j2 as nat),
                            zero,
                            out@[i2 * cols + j2],
                        ),
                decreases cols - j,
            {
                let mut acc: T = zero;
                proof {
                    let row = mat_row(self@.elems, inner as nat, i as nat);
                    let col = mat_col(other@.elems, cols as nat, inner as nat, j as nat);
                    assert(row.skip(0) =~= row);
                    assert(col.skip(0) =~= col);
                }
                let mut k: usize = 0;
                while k < inner
                    invariant
                        0 <= k <= inner,
                        forall|rf: T|
                            dot_rel(
                                addf,
                                mulf,
                                mat_row(self@.elems, inner as nat, i as nat).skip(k as int),
                                mat_col(other@.elems, cols as nat, inner as nat, j as nat).skip(
                                    k as int,
                                ),
                                acc,
                                rf,
                            ) ==> dot_rel(
                                addf,
                                mulf,
                                mat_row(self@.elems, inner as nat, i as nat),
                                mat_col(other@.elems, cols as nat, inner as nat, j as nat),
                                zero,
                                rf,
                            ),
                    decreases inner - k,
                {
                    proof {
                        lemma_row_major_index(i as int, k as int, rows as int, inner as int);
                        lemma_row_major_index(k as int, j as int, inner as int, cols as int);
                    }
                    let av = self.elems[i * inner + k];
                    let bv = other.elems[k * cols + j];
                    let p = mulf(av, bv);
                    let acc2 = addf(acc, p);
                    proof {
                        let row = mat_row(self@.elems, inner as nat, i as nat);
                        let col = mat_col(other@.elems, cols as nat, inner as nat, j as nat);
                        assert(row.skip(k as int).drop_first() =~= row.skip(k as int + 1));
                        assert(col.skip(k as int).drop_first() =~= col.skip(k as int + 1));
                        assert(row.skip(k as int)[0] == av);
                        assert(col.skip(k as int)[0] == bv);
                        assert forall|rf: T|
                            dot_rel(
                                addf,
                                mulf,
                                row.skip(k as int + 1),
                                col.skip(k as int + 1),
                                acc2,
                                rf,
                            ) implies dot_rel(
                            addf,
                            mulf,
                            row.skip(k as int),
                            col.skip(k as int),
                            acc,
                            rf,
                        ) by {
                            assert(call_ensures(mulf, (row.skip(k as int)[0], col.skip(k as int)[0]), p));
                            assert(call_ensures(addf, (acc, p), acc2));
                            assert(dot_rel(addf, mulf, row.skip(k as int), col.skip(k as int), acc, rf));
                        }
                    }
                    acc = acc2;
                    k += 1;
                }
                proof {
                    let row = mat_row(self@.elems, inner as nat, i as nat);
                    let col = mat_col(other@.elems, cols as nat, inner as nat, j as nat);
                    assert(row.skip(inner as int) =~= Seq::<T>::empty());
                    assert(col.skip(inner as int) =~= Seq::<T>::empty());
                    assert(dot_rel(addf, mulf, row.skip(inner as int), col.skip(inner as int), acc, acc));
                    assert(dot_rel(addf, mulf, row, col, zero, acc));
                    lemma_row_major_index(i as int, j as int, rows as int, cols as int);
                }
                out.push(acc);
                proof {
                    assert forall|i2: int, j2: int|
                        (0 <= i2 < i && 0 <= j2 < cols) || (i2 == i && 0 <= j2 < j + 1) implies dot_rel(
                        addf,
                        mulf,
                        #[trigger] mat_row(self@.elems, inner as nat, i2 as nat),
                        #[trigger] mat_col(other@.elems, cols as nat, inner as nat, j2 as nat),
                        zero,
                        out@[i2 * cols + j2],
                    ) by {
                        if i2 < i {
                            lemma_row_major_earlier(i2, j2, i as int, cols as int);
                        }
                    }
                }
                j += 1;
            }
            proof {
                assert((i + 1) * cols == i * cols + cols) by (nonlinear_arith);
            }
            i += 1;
        }
        let mut rdims: Vec<usize> = Vec::new();
        rdims.push(rows);
        rdims.push(cols);
        proof {
            lemma_product_pair(rdims@);
            assert(out@.len() == rows * cols);
        }
        Ok(Tensor { elems: out, dims: rdims })
    }
}

/// Law: a tensor whose elements all equal a value that `f` can only send to
/// itself keeps that value at every position when mapped through `f`, and the
/// result holds exactly as many elements as the product of the shape's
/// dimensions.
pub proof fn lemma_apply_uniform<T, F: Fn(T) -> T>(z: Tensor<T>, r: Tensor<T>, f: F, v: T)
    requires
        z.wf(),
        forall|i: int| 0 <= i < z@.elems.len() ==> z@.elems[i] == v,
        map_rel(f, z@.elems, r@.elems),
        forall|y: T| call_ensures(f, (v,), y) ==> y == v,
    ensures
        r@.elems.len() == shape_product(z@.dims),
        forall|i: int| 0 <= i < r@.elems.len() ==> r@.elems[i] == v,
{
    assert forall|i: int| 0 <= i < r@.elems.len() implies r@.elems[i] == v by {
        assert(call_ensures(f, (z@.elems[i],), r@.elems[i]));
    }
}

/// Law: combining two tensors whose elements all equal a value that `f` can
/// only send back to itself yields that value at every position; with the
/// fill value one and elementwise multiplication, multiplying a tensor of
/// ones by a tensor of ones gives the tensor of ones again.
pub proof fn lemma_zip_uniform<T, F: Fn(T, T) -> T>(
    a: Tensor<T>,
    b: Tensor<T>,
    r: Tensor<T>,
    f: F,
    v: T,
)
    requires
        forall|i: int| 0 <= i < a@.elems.len() ==> a@.elems[i] == v,
        forall|i: int| 0 <= i < b@.elems.len() ==> b@.elems[i] == v,
        zip_rel(f, a@.elems, b@.elems, r@.elems),
        forall|y: T| call_ensures(f, (v, v), y) ==> y == v,
    ensures
        r@.elems.len() == a@.elems.len(),
        forall|i: int| 0 <= i < r@.elems.len() ==> r@.elems[i] == v,
{
    assert forall|i: int| 0 <= i < r@.elems.len() implies r@.elems[i] == v by {
        assert(call_ensures(f, (a@.elems[i], b@.elems[i]), r@.elems[i]));
    }
}

/// Law: elementwise combination with a function that is deterministic and
/// commutative in its two arguments does not depend on the operand order:
/// any result of combining `a` with `b` equals any result of combining `b`
/// with `a`, element for element.
pub proof fn lemma_zip_commutative<T, F: Fn(T, T) -> T>(
    a: Tensor<T>,
    b: Tensor<T>,
    r1: Tensor<T>,
    r2: Tensor<T>,
    f: F,
)
    requires
        a@.elems.len() == b@.elems.len(),
        zip_rel(f, a@.elems, b@.elems, r1@.elems),
        zip_rel(f, b@.elems, a@.elems, r2@.elems),
        forall|x: T, y: T, z1: T, z2: T|
            call_ensures(f, (x, y), z1) && call_ensures(f, (y, x), z2) ==> z1 == z2,
    ensures
        r1@.elems == r2@.elems,
{
    assert forall|i: int| 0 <= i < r1@.elems.len() implies r1@.elems[i] == r2@.elems[i] by {
        assert(call_ensures(f, (a@.elems[i], b@.elems[i]), r1@.elems[i]));
        assert(call_ensures(f, (b@.elems[i], a@.elems[i]), r2@.elems[i]));
    }
    assert(r1@.elems =~= r2@.elems);
}

/// Whether a unary function's contract relates each argument to at most one
/// result.
pub open spec fn deterministic1<T, F: Fn(T) -> T>(f: F) -> bool {
    forall|x: T, z1: T, z2: T| call_ensures(f, (x,), z1) && call_ensures(f, (x,), z2) ==> z1 == z2
}

/// Whether a binary function's contract relates each pair of arguments to at
/// most one result.
pub open spec fn deterministic2<T, F: Fn(T, T) -> T>(f: F) -> bool {
    forall|x: T, y: T, z1: T, z2: T|
        call_ensures(f, (x, y), z1) && call_ensures(f, (x, y), z2) ==> z1 == z2
}

/// Law: a mapped buffer is unique when the function is deterministic — any
/// two results of mapping `f` over the same buffer agree.
pub proof fn lemma_map_deterministic<T, F: Fn(T) -> T>(f: F, a: Seq<T>, r1: Seq<T>, r2: Seq<T>)
    requires
        map_rel(f, a, r1),
        map_rel(f, a, r2),
        deterministic1(f),
    ensures
        r1 == r2,
{
    assert forall|i: int| 0 <= i < r1.len() implies r1[i] == r2[i] by {
        assert(call_ensures(f, (a[i],), r1[i]));
        assert(call_ensures(f, (a[i],), r2[i]));
    }
    assert(r1 =~= r2);
}

/// Law: an elementwise combination is unique when the function is
/// deterministic — any two results of combining the same buffers agree.
pub proof fn lemma_zip_deterministic<T, F: Fn(T, T) -> T>(
    f: F,
    a: Seq<T>,
    b: Seq<T>,
    r1: Seq<T>,
    r2: Seq<T>,
)
    requires
        zip_rel(f, a, b, r1),
        zip_rel(f, a, b, r2),
        deterministic2(f),
    ensures
        r1 == r2,
{
    assert forall|i: int| 0 <= i < r1.len() implies r1[i] == r2[i] by {
        assert(call_ensures(f, (a[i], b[i]), r1[i]));
        assert(call_ensures(f, (a[i], b[i]), r2[i]));
    }
    assert(r1 =~= r2);
}

/// The fold of a dot product is unique when the addition and the
/// multiplication are deterministic.
proof fn lemma_dot_deterministic<T, FA: Fn(T, T) -> T, FM: Fn(T, T) -> T>(
    addf: FA,
    mulf: FM,
    a: Seq<T>,
    b: Seq<T>,
    acc: T,
    r1: T,
    r2: T,
)
    requires
        dot_rel(addf, mulf, a, b, acc, r1),
        dot_rel(addf, mulf, a, b, acc, r2),
        deterministic2(addf),
        deterministic2(mulf),
    ensures
        r1 == r2,
    decreases a.len(),
{
    if a.len() > 0 {
        let (pa, acca) = choose|p: T, acc2: T|
            #![trigger call_ensures(mulf, (a[0], b[0]), p), call_ensures(addf, (acc, p), acc2)]
            call_ensures(mulf, (a[0], b[0]), p) && call_ensures(addf, (acc, p), acc2) && dot_rel(
                addf,
                mulf,
                a.drop_first(),
                b.drop_first(),
                acc2,
                r1,
            );
        let (pb, accb) = choose|p: T, acc2: T|
            #![trigger call_ensures(mulf, (a[0], b[0]), p), call_ensures(addf, (acc, p), acc2)]
            call_ensures(mulf, (a[0], b[0]), p) && call_ensures(addf, (acc, p), acc2) && dot_rel(
                addf,
                mulf,
                a.drop_first(),
                b.drop_first(),
                acc2,
                r2,
            );
        assert(pa == pb);
        assert(acca == accb);
        lemma_dot_deterministic(addf, mulf, a.drop_first(), b.drop_first(), acca, r1, r2);
    }
}

/// Law: a matrix product is unique when the addition and the multiplication
/// are deterministic — the contract admits exactly one result buffer.
pub proof fn lemma_matmul_deterministic<T, FA: Fn(T, T) -> T, FM: Fn(T, T) -> T>(
    addf: FA,
    mulf: FM,
    zero: T,
    a: Seq<T>,
    b: Seq<T>,
    rows: nat,
    inner: nat,
    cols: nat,
    r1: Seq<T>,
    r2: Seq<T>,
)
    requires
        matmul_rel(addf, mulf, zero, a, b, rows, inner, cols, r1),
        matmul_rel(addf, mulf, zero, a, b, rows, inner, cols, r2),
        deterministic2(addf),
        deterministic2(mulf),
    ensures
        r1 == r2,
{
    assert forall|idx: int| 0 <= idx < r1.len() implies r1[idx] == r2[idx] by {
        assert(rows * cols > 0);
        assert(cols > 0) by (nonlinear_arith)
            requires
                rows * cols > 0,
        ;
        let i = idx / (cols as int);
        let j = idx % (cols as int);
        vstd::arithmetic::div_mod::lemma_fundamental_div_mod(idx, cols as int);
        assert(0 <= j < cols);
        assert(i < rows) by (nonlinear_arith)
            requires
                idx < rows * cols,
                idx == (cols as int) * i + j,
                0 <= j < cols,
                0 <= idx,
                cols > 0,
        ;
        assert(0 <= i) by (nonlinear_arith)
            requires
                idx == (cols as int) * i + j,
                0 <= j < cols,
                0 <= idx,
                cols > 0,
        ;
        let row = mat_row(a, inner, i as nat);
        let col = mat_col(b, cols, inner, j as nat);
        assert(dot_rel(addf, mulf, row, col, zero, r1[i * (cols as int) + j]));
        assert(dot_rel(addf, mulf, row, col, zero, r2[i * (cols as int) + j]));
        lemma_dot_deterministic(
            addf,
            mulf,
            row,
            col,
            zero,
            r1[i * (cols as int) + j],
            r2[i * (cols as int) + j],
        );
        assert(idx == i * (cols as int) + j);
    }
    assert(r1 =~= r2);
}

/// Whether `a` is the row-major buffer of the `n`-by-`n` identity matrix:
/// `one` on the diagonal and `zerov` everywhere else.
pub open spec fn is_identity<T>(a: Seq<T>, n: nat, one: T, zerov: T) -> bool {
    &&& a.len() == n * n
    &&& forall|i: int, j: int|
        0 <= i < n && 0 <= j < n ==> #[trigger] a[i * n + j] == if i == j {
            one
        } else {
            zerov
        }
}

/// Whether the supplied arithmetic treats `one` as a left identity of the
/// multiplication, `zerov` as a left absorber of the multiplication, and
/// `zerov` as a neutral element of the addition on either side.
pub open spec fn arith_identity_laws<T, FA: Fn(T, T) -> T, FM: Fn(T, T) -> T>(
    addf: FA,
    mulf: FM,
    zerov: T,
    one: T,
) -> bool {
    &&& forall|x: T, y: T| call_ensures(mulf, (one, x), y) ==> y == x
    &&& forall|x: T, y: T| call_ensures(mulf, (zerov, x), y) ==> y == zerov
    &&& forall|x: T, y: T| call_ensures(addf, (x, zerov), y) ==> y == x
    &&& forall|x: T, y: T| call_ensures(addf, (zerov, x), y) ==> y == x
}

/// Folding a row of `zerov`s leaves the accumulator unchanged, when `zerov`
/// absorbs the multiplication on the left and is neutral for the addition.
proof fn lemma_dot_zero_row<T, FA: Fn(T, T) -> T, FM: Fn(T, T) -> T>(
    addf: FA,
    mulf: FM,
    zerov: T,
    one: T,
    a: Seq<T>,
    b: Seq<T>,
    acc: T,
    r: T,
)
    requires
        a.len() == b.len(),
        dot_rel(addf, mulf, a, b, acc, r),
        forall|k: int| 0 <= k < a.len() ==> a[k] == zerov,
        arith_identity_laws(addf, mulf, zerov, one),
    ensures
        r == acc,
    decreases a.len(),
{
    if a.len() > 0 {
        let (p, acc2) = choose|p: T, acc2: T|
            #![trigger call_ensures(mulf, (a[0], b[0]), p), call_ensures(addf, (acc, p), acc2)]
            call_ensures(mulf, (a[0], b[0]), p) && call_ensures(addf, (acc, p), acc2) && dot_rel(
                addf,
                mulf,
                a.drop_first(),
                b.drop_first(),
                acc2,
                r,
            );
        assert(p == zerov);
        assert(acc2 == acc);
        lemma_dot_zero_row(addf, mulf, zerov, one, a.drop_first(), b.drop_first(), acc2, r);
    }
}

/// Folding a unit row — `one` at position `pos`, `zerov` elsewhere — against
/// a column picks out the column's entry at `pos`.
proof fn lemma_dot_unit_row<T, FA: Fn(T, T) -> T, FM: Fn(T, T) -> T>(
    addf: FA,
    mulf: FM,
    zerov: T,
    one: T,
    a: Seq<T>,
    b: Seq<T>,
    r: T,
    pos: int,
)
    requires
        a.len() == b.len(),
        dot_rel(addf, mulf, a, b, zerov, r),
        0 <= pos < a.len(),
        a[pos] == one,
        forall|k: int| 0 <= k < a.len() && k != pos ==> a[k] == zerov,
        arith_identity_laws(addf, mulf, zerov, one),
    ensures
        r == b[pos],
    decreases a.len(),
{
    let (p, acc2) = choose|p: T, acc2: T|
        #![trigger call_ensures(mulf, (a[0], b[0]), p), call_ensures(addf, (zerov, p), acc2)]
        call_ensures(mulf, (a[0], b[0]), p) && call_ensures(addf, (zerov, p), acc2) && dot_rel(
            addf,
            mulf,
            a.drop_first(),
            b.drop_first(),
            acc2,
            r,
        );
    if pos == 0 {
        assert(p == b[0]);
        assert(acc2 == b[0]);
        assert(forall|k: int|
            0 <= k < a.drop_first().len() ==> #[trigger] a.drop_first()[k] == zerov);
        lemma_dot_zero_row(addf, mulf, zerov, one, a.drop_first(), b.drop_first(), acc2, r);
    } else {
        assert(a[0] == zerov);
        assert(p == zerov);
        assert(acc2 == zerov);
        assert(a.drop_first()[pos - 1] == one);
        assert(forall|k: int|
            0 <= k < a.drop_first().len() && k != pos - 1 ==> #[trigger] a.drop_first()[k]
                == zerov);
        lemma_dot_unit_row(
            addf,
            mulf,
            zerov,
            one,
            a.drop_first(),
            b.drop_first(),
            r,
            pos - 1,
        );
        assert(b.drop_first()[pos - 1] == b[pos]);
    }
}

/// Law: multiplying by the identity matrix returns the operand unchanged —
/// any result of a matrix multiplication whose left operand is the identity,
/// under an arithmetic for which `one` is a left multiplicative identity and
/// `zerov` a left multiplicative absorber and additive neutral element,
/// equals the right operand element for element.
pub proof fn lemma_identity_matmul<T, FA: Fn(T, T) -> T, FM: Fn(T, T) -> T>(
    addf: FA,
    mulf: FM,
    zerov: T,
    one: T,
    idbuf: Seq<T>,
    m: Seq<T>,
    n: nat,
    cols: nat,
    r: Seq<T>,
)
    requires
        is_identity(idbuf, n, one, zerov),
        m.len() == n * cols,
        matmul_rel(addf, mulf, zerov, idbuf, m, n, n, cols, r),
        arith_identity_laws(addf, mulf, zerov, one),
    ensures
        r.len() == m.len(),
        forall|i: int, j: int| 0 <= i < n && 0 <= j < cols ==> #[trigger] r[i * cols + j] == m[i
            * cols + j],
{
    assert forall|i: int, j: int| 0 <= i < n && 0 <= j < cols implies #[trigger] r[i * cols + j]
        == m[i * cols + j] by {
        let row = mat_row(idbuf, n, i as nat);
        let col = mat_col(m, cols, n, j as nat);
        assert(dot_rel(addf, mulf, row, col, zerov, r[i * cols + j]));
        assert(row[i] == idbuf[i * n + i]);
        assert(row[i] == one);
        assert forall|k: int| 0 <= k < n && k != i implies #[trigger] row[k] == zerov by {
            assert(row[k] == idbuf[i * n + k]);
        }
        lemma_dot_unit_row(addf, mulf, zerov, one, row, col, r[i * cols + j], i);
        assert(col[i] == m[i * cols + j]);
    }
}


} // verus!
