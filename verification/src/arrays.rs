//! The arrays that hold what a parse produces. They are arrays of the
//! `ndarray` crate; the verifier sees each through two names, one for its
//! shape and one for its elements in row-major order.

use vstd::prelude::*;
use crate::number::Number;
use crate::result::{ErrorKind, ParseError};

verus! {

/// A complex value as a file writes it: two real literals. Which two
/// quantities they are (real and imaginary part, magnitude and angle, decibels
/// and angle) is for the options of the file to say.
#[derive(Debug)]
pub struct RawComplex {
    pub re: Number,
    pub im: Number,
}

impl DeepView for RawComplex {
    type V = (Seq<u8>, Seq<u8>);

    open spec fn deep_view(&self) -> (Seq<u8>, Seq<u8>) {
        (self.re@, self.im@)
    }
}

impl Clone for RawComplex {
    fn clone(&self) -> (r: Self)
        ensures
            r.deep_view() == self.deep_view(),
    {
        RawComplex { re: self.re.clone(), im: self.im.clone() }
    }
}

/// An axis length as `ndarray` counts it when it bounds a shape: an empty
/// axis counts as one.
pub open spec fn axis_weight(d: nat) -> nat {
    if d == 0 {
        1
    } else {
        d
    }
}

/// Whether `ndarray` takes a shape: the product of its axis lengths that are
/// not zero must not exceed `isize::MAX`.
pub open spec fn shape_fits(a: nat, b: nat, c: nat) -> bool {
    axis_weight(a) * axis_weight(b) * axis_weight(c) <= isize::MAX
}

/// The failure that `ndarray` reports for a shape that does not match.
#[verifier::external_type_specification]
#[verifier::external_body]
pub struct ExShapeError(ndarray::ShapeError);

/// A three-dimensional array of complex values.
#[verifier::external_body]
#[derive(Debug)]
pub struct Tensor {
    cells: ndarray::Array3<RawComplex>,
}

/// The axis lengths of a tensor.
pub uninterp spec fn tensor_shape(t: Tensor) -> (nat, nat, nat);

/// The elements of a tensor in row-major order, each as its two literals.
pub uninterp spec fn tensor_cells(t: Tensor) -> Seq<(Seq<u8>, Seq<u8>)>;

/// `ndarray::Array3::from_shape_vec` with a plain shape. The source takes the
/// vector exactly when the shape fits and the product of the axis lengths is
/// the length of the vector; the array then has that shape and holds the
/// elements of the vector in row-major order.
#[verifier::external_body]
fn array3_from_shape_vec(a: usize, b: usize, c: usize, v: Vec<RawComplex>) -> (r: Result<
    Tensor,
    ndarray::ShapeError,
>)
    ensures
        r is Ok <==> (shape_fits(a as nat, b as nat, c as nat) && v@.len() == a * b * c),
        r is Ok ==> tensor_shape(r->Ok_0) == (a as nat, b as nat, c as nat) && tensor_cells(
            r->Ok_0,
        ) == v.deep_view(),
{
    match ndarray::Array3::from_shape_vec((a, b, c), v) {
        Ok(cells) => Ok(Tensor { cells }),
        Err(e) => Err(e),
    }
}

/// `ndarray::ArrayBase::dim` on a three-dimensional array: its axis lengths.
#[verifier::external_body]
fn array3_dim(t: &Tensor) -> (d: (usize, usize, usize))
    ensures
        tensor_shape(*t) == (d.0 as nat, d.1 as nat, d.2 as nat),
{
    t.cells.dim()
}

/// Indexing of a three-dimensional array by `[i, j, k]`. The source panics
/// outside the shape; inside it, the element is the one at the row-major
/// position.
#[verifier::external_body]
fn array3_index(t: &Tensor, i: usize, j: usize, k: usize) -> (e: &RawComplex)
    requires
        i < tensor_shape(*t).0,
        j < tensor_shape(*t).1,
        k < tensor_shape(*t).2,
    ensures
        e.deep_view() == tensor_cells(*t)[(i * tensor_shape(*t).1 + j) * tensor_shape(*t).2 + k],
{
    &t.cells[[i, j, k]]
}

/// `Clone::clone` of a three-dimensional array: the same shape, and a clone
/// of each element in its place.
#[verifier::external_body]
fn array3_clone(t: &Tensor) -> (c: Tensor)
    ensures
        tensor_shape(c) == tensor_shape(*t),
        tensor_cells(c) == tensor_cells(*t),
{
    Tensor { cells: t.cells.clone() }
}

impl Tensor {
    /// The axis lengths.
    pub open spec fn shape(self) -> (nat, nat, nat) {
        tensor_shape(self)
    }

    /// The elements in row-major order.
    pub open spec fn cells(self) -> Seq<(Seq<u8>, Seq<u8>)> {
        tensor_cells(self)
    }

    /// A tensor holds as many elements as its shape says, and its shape fits.
    pub open spec fn wf(self) -> bool {
        &&& self.cells().len() == self.shape().0 * self.shape().1 * self.shape().2
        &&& shape_fits(self.shape().0, self.shape().1, self.shape().2)
    }

    /// The element at `[i, j, k]`.
    pub open spec fn at(self, i: int, j: int, k: int) -> (Seq<u8>, Seq<u8>) {
        self.cells()[(i * self.shape().1 + j) * self.shape().2 + k]
    }

    /// Shapes a flat, row-major run of values into an `a` by `b` by `c`
    /// tensor. The values must fill the shape exactly, and the shape must fit.
    pub fn from_values(a: usize, b: usize, c: usize, values: Vec<RawComplex>) -> (r: Result<
        Tensor,
        ParseError,
    >)
        ensures
            r is Ok <==> (shape_fits(a as nat, b as nat, c as nat) && values@.len() == a * b * c),
            r is Ok ==> r->Ok_0.wf() && r->Ok_0.shape() == (a as nat, b as nat, c as nat)
                && r->Ok_0.cells() == values.deep_view(),
            r is Err ==> r->Err_0.kind == ErrorKind::ShapeMismatch,
    {
        match array3_from_shape_vec(a, b, c, values) {
            Ok(t) => Ok(t),
            Err(_) => Err(ParseError::new(ErrorKind::ShapeMismatch)),
        }
    }

    /// The axis lengths.
    pub fn dim(&self) -> (d: (usize, usize, usize))
        ensures
            self.shape() == (d.0 as nat, d.1 as nat, d.2 as nat),
    {
        array3_dim(self)
    }

    /// The element at `[i, j, k]`, if the index lies inside the shape.
    pub fn get(&self, i: usize, j: usize, k: usize) -> (e: Option<&RawComplex>)
        ensures
            e is Some <==> (i < self.shape().0 && j < self.shape().1 && k < self.shape().2),
            e is Some ==> e->0.deep_view() == self.at(i as int, j as int, k as int),
    {
        let d = array3_dim(self);
        if i < d.0 && j < d.1 && k < d.2 {
            Some(array3_index(self, i, j, k))
        } else {
            None
        }
    }
}

impl Clone for Tensor {
    fn clone(&self) -> (c: Self)
        ensures
            c.shape() == self.shape(),
            c.cells() == self.cells(),
    {
        array3_clone(self)
    }
}

/// A two-dimensional array of complex values.
#[verifier::external_body]
#[derive(Debug)]
pub struct Matrix {
    cells: ndarray::Array2<RawComplex>,
}

/// The axis lengths of a matrix.
pub uninterp spec fn matrix_shape(m: Matrix) -> (nat, nat);

/// The elements of a matrix in row-major order, each as its two literals.
pub uninterp spec fn matrix_cells(m: Matrix) -> Seq<(Seq<u8>, Seq<u8>)>;

/// `ndarray::Array2::from_elem` with a plain shape. The source panics where
/// the shape does not fit; otherwise the array has that shape and holds a
/// clone of the element in every place.
#[verifier::external_body]
fn array2_from_elem(rows: usize, cols: usize, elem: RawComplex) -> (m: Matrix)
    requires
        shape_fits(rows as nat, cols as nat, 1),
    ensures
        matrix_shape(m) == (rows as nat, cols as nat),
        matrix_cells(m) == Seq::new((rows * cols) as nat, |i: int| elem.deep_view()),
{
    Matrix { cells: ndarray::Array2::from_elem((rows, cols), elem) }
}

/// `ndarray::ArrayBase::dim` on a two-dimensional array: its axis lengths.
#[verifier::external_body]
fn array2_dim(m: &Matrix) -> (d: (usize, usize))
    ensures
        matrix_shape(*m) == (d.0 as nat, d.1 as nat),
{
    m.cells.dim()
}

/// Indexing of a two-dimensional array by `[i, j]`. The source panics outside
/// the shape; inside it, the element is the one at the row-major position.
#[verifier::external_body]
fn array2_index(m: &Matrix, i: usize, j: usize) -> (e: &RawComplex)
    requires
        i < matrix_shape(*m).0,
        j < matrix_shape(*m).1,
    ensures
        e.deep_view() == matrix_cells(*m)[i * matrix_shape(*m).1 + j],
{
    &m.cells[[i, j]]
}

impl Matrix {
    /// The axis lengths.
    pub open spec fn shape(self) -> (nat, nat) {
        matrix_shape(self)
    }

    /// The elements in row-major order.
    pub open spec fn cells(self) -> Seq<(Seq<u8>, Seq<u8>)> {
        matrix_cells(self)
    }

    /// The element at `[i, j]`.
    pub open spec fn at(self, i: int, j: int) -> (Seq<u8>, Seq<u8>) {
        self.cells()[i * self.shape().1 + j]
    }

    /// A `rows` by `cols` matrix with `elem` in every place. The shape must
    /// fit.
    pub fn filled(rows: usize, cols: usize, elem: RawComplex) -> (r: Result<Matrix, ParseError>)
        ensures
            r is Ok <==> shape_fits(rows as nat, cols as nat, 1),
            r is Ok ==> r->Ok_0.shape() == (rows as nat, cols as nat) && r->Ok_0.cells()
                == Seq::new((rows * cols) as nat, |i: int| elem.deep_view()),
            r is Err ==> r->Err_0.kind == ErrorKind::ShapeMismatch,
    {
        let a: usize = if rows == 0 {
            1
        } else {
            rows
        };
        let b: usize = if cols == 0 {
            1
        } else {
            cols
        };
        assert(a * b * 1 == a * b) by (nonlinear_arith);
        let fits = match a.checked_mul(b) {
            Some(p) => p <= isize::MAX as usize,
            None => false,
        };
        if fits {
            Ok(array2_from_elem(rows, cols, elem))
        } else {
            Err(ParseError::new(ErrorKind::ShapeMismatch))
        }
    }

    /// The axis lengths.
    pub fn dim(&self) -> (d: (usize, usize))
        ensures
            self.shape() == (d.0 as nat, d.1 as nat),
    {
        array2_dim(self)
    }

    /// The element at `[i, j]`, if the index lies inside the shape.
    pub fn get(&self, i: usize, j: usize) -> (e: Option<&RawComplex>)
        ensures
            e is Some <==> (i < self.shape().0 && j < self.shape().1),
            e is Some ==> e->0.deep_view() == self.at(i as int, j as int),
    {
        let d = array2_dim(self);
        if i < d.0 && j < d.1 {
            Some(array2_index(self, i, j))
        } else {
            None
        }
    }
}

/// A one-dimensional array of real numbers.
#[verifier::external_body]
#[derive(Debug)]
pub struct Samples {
    items: ndarray::Array1<Number>,
}

/// The elements of a one-dimensional array in order, each as its literal.
pub uninterp spec fn samples_items(s: Samples) -> Seq<Seq<u8>>;

/// `ndarray::Array1::from_vec`. The source takes the vector as it is and
/// checks its length only for elements of size zero, which a number is not;
/// the array holds the elements of the vector in order.
#[verifier::external_body]
fn array1_from_vec(v: Vec<Number>) -> (s: Samples)
    ensures
        samples_items(s) == v.deep_view(),
{
    Samples { items: ndarray::Array1::from_vec(v) }
}

/// `ndarray::ArrayBase::dim` on a one-dimensional array: its length.
#[verifier::external_body]
fn array1_dim(s: &Samples) -> (n: usize)
    ensures
        n == samples_items(*s).len(),
{
    s.items.dim()
}

/// Indexing of a one-dimensional array by position. The source panics
/// outside the array.
#[verifier::external_body]
fn array1_index(s: &Samples, i: usize) -> (e: &Number)
    requires
        i < samples_items(*s).len(),
    ensures
        e@ == samples_items(*s)[i as int],
{
    &s.items[i]
}

impl View for Samples {
    type V = Seq<Seq<u8>>;

    open spec fn view(&self) -> Seq<Seq<u8>> {
        samples_items(*self)
    }
}

impl Samples {
    /// An array of the given numbers, in order.
    pub fn from_numbers(v: Vec<Number>) -> (s: Samples)
        ensures
            s@ == v.deep_view(),
    {
        array1_from_vec(v)
    }

    /// How many numbers the array holds.
    pub fn len(&self) -> (n: usize)
        ensures
            n == self@.len(),
    {
        array1_dim(self)
    }

    /// The number at position `i`, if there is one.
    pub fn get(&self, i: usize) -> (e: Option<&Number>)
        ensures
            e is Some <==> i < self@.len(),
            e is Some ==> e->0@ == self@[i as int],
    {
        if i < array1_dim(self) {
            Some(array1_index(self, i))
        } else {
            None
        }
    }
}

/// `num::pow` with the exponent two. The source multiplies the base by itself
/// once, so the square must fit.
#[verifier::external_body]
fn pow2(base: usize) -> (r: usize)
    requires
        base * base <= usize::MAX,
    ensures
        r == base * base,
{
    num::pow(base, 2)
}

/// The square of `base`, where it fits the machine word.
pub fn square(base: usize) -> (r: Option<usize>)
    ensures
        match r {
            Some(v) => v == base * base,
            None => base * base > usize::MAX,
        },
{
    if base == 0 || base <= usize::MAX / base {
        assert(base * base <= usize::MAX) by (nonlinear_arith)
            requires
                base == 0 || base <= usize::MAX / base,
        ;
        Some(pow2(base))
    } else {
        assert(base * base > usize::MAX) by (nonlinear_arith)
            requires
                base > 0,
                base > usize::MAX / base,
        ;
        None
    }
}

} // verus!
