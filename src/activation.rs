use vstd::prelude::*;
use crate::matrix::Grid;
use crate::scalar::Scalar;

verus! {

/// An activation function applied entry-wise after each layer, with its
/// derivative.
///
/// The derivative is expressed in terms of the already-activated output
/// `y = f(x)` (for the sigmoid, `y * (1 - y)`): the backward pass hands it
/// the outputs cached by the forward pass, never the raw sums.
pub trait Activation<T>: Sized {
    spec fn apply_spec(&self, x: T) -> T;

    spec fn derivative_spec(&self, y: T) -> T;

    fn apply(&self, x: T) -> (r: T)
        ensures
            r == self.apply_spec(x),
    ;

    fn derivative_of(&self, y: T) -> (r: T)
        ensures
            r == self.derivative_spec(y),
    ;
}

/// The activation applied to every entry of `g`.
pub open spec fn activated<T, A: Activation<T>>(act: A, g: Grid<T>) -> Grid<T> {
    Grid { rows: g.rows, cols: g.cols, cells: Seq::new(g.cells.len(), |p: int| act.apply_spec(g.cells[p])) }
}

/// The derivative applied to every entry of `g`.
pub open spec fn derived<T, A: Activation<T>>(act: A, g: Grid<T>) -> Grid<T> {
    Grid {
        rows: g.rows,
        cols: g.cols,
        cells: Seq::new(g.cells.len(), |p: int| act.derivative_spec(g.cells[p])),
    }
}

/// The linear activation `f(x) = x`, whose derivative is one everywhere.
#[derive(Clone, Copy, Debug)]
pub struct Identity;

impl<T: Scalar> Activation<T> for Identity {
    open spec fn apply_spec(&self, x: T) -> T {
        x
    }

    open spec fn derivative_spec(&self, y: T) -> T {
        T::one_spec()
    }

    fn apply(&self, x: T) -> (r: T) {
        x
    }

    fn derivative_of(&self, y: T) -> (r: T) {
        T::one()
    }
}

} // verus!
