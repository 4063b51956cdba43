use vstd::prelude::*;
use crate::activation::{activated, derived, Activation};
use crate::matrix::{copy_values, Grid, Matrix};
use crate::scalar::Scalar;

verus! {

/// The views of a sequence of matrices.
pub open spec fn grids<T>(ms: Seq<Matrix<T>>) -> Seq<Grid<T>> {
    ms.map_values(|m: Matrix<T>| m@)
}

/// The values of a sequence of vectors.
pub open spec fn values_of<T>(vs: Seq<Vec<T>>) -> Seq<Seq<T>> {
    vs.map_values(|v: Vec<T>| v@)
}

/// The mathematical state of a network: its topology, its parameters, the
/// per-layer outputs cached by the last forward pass, its activation and its
/// learning rate.
pub struct NetworkModel<T, A> {
    pub layers: Seq<usize>,
    pub weights: Seq<Grid<T>>,
    pub biases: Seq<Grid<T>>,
    pub trace: Seq<Grid<T>>,
    pub activation: A,
    pub learning_rate: T,
}

/// `weights[i]` is `layers[i+1]` by `layers[i]` and `biases[i]` is a column of
/// `layers[i+1]` entries, for each of the `layers.len() - 1` transitions.
pub open spec fn parameters_fit<T>(layers: Seq<usize>, weights: Seq<Grid<T>>, biases: Seq<Grid<T>>) -> bool {
    &&& layers.len() >= 2
    &&& weights.len() == layers.len() - 1
    &&& biases.len() == layers.len() - 1
    &&& forall|i: int|
        0 <= i < weights.len() ==> {
            &&& (#[trigger] weights[i]).wf()
            &&& weights[i].rows == layers[i + 1]
            &&& weights[i].cols == layers[i]
            &&& biases[i].wf()
            &&& biases[i].rows == layers[i + 1]
            &&& biases[i].cols == 1
        }
}

/// `g` is a well-formed column of `n` entries.
pub open spec fn is_column<T>(g: Grid<T>, n: nat) -> bool {
    g.wf() && g.rows == n && g.cols == 1
}

impl<T: Scalar, A: Activation<T>> NetworkModel<T, A> {
    pub open spec fn wf(self) -> bool {
        parameters_fit(self.layers, self.weights, self.biases)
    }

    /// The cache holds one column per layer, sized as that layer.
    pub open spec fn trace_fits(self) -> bool {
        &&& self.trace.len() == self.layers.len()
        &&& forall|i: int| 0 <= i < self.trace.len() ==> is_column(#[trigger] self.trace[i], self.layers[i] as nat)
    }

    /// Output of transition `i` on `x`: `f(biases[i] + weights[i] * x)`.
    pub open spec fn layer(self, i: int, x: Grid<T>) -> Grid<T> {
        activated(self.activation, self.biases[i].sum(self.weights[i].product(x)))
    }

    /// The input followed by the outputs of the first `n` transitions.
    pub open spec fn forward(self, input: Grid<T>, n: nat) -> Seq<Grid<T>>
        decreases n,
    {
        if n == 0 {
            seq![input]
        } else {
            let prev = self.forward(input, (n - 1) as nat);
            prev.push(self.layer(n - 1, prev.last()))
        }
    }

    /// Every layer's output on `input`, the input first.
    pub open spec fn outputs(self, input: Grid<T>) -> Seq<Grid<T>> {
        self.forward(input, (self.layers.len() - 1) as nat)
    }

    /// The prediction of the network on `input`.
    pub open spec fn predict(self, input: Grid<T>) -> Grid<T> {
        self.outputs(input).last()
    }

    /// The state after a forward pass on `input`: the cache is rebuilt.
    pub open spec fn fed(self, input: Grid<T>) -> Self {
        NetworkModel {
            layers: self.layers,
            weights: self.weights,
            biases: self.biases,
            trace: self.outputs(input),
            activation: self.activation,
            learning_rate: self.learning_rate,
        }
    }

    /// Weights, biases, error and derivative reference after the backward
    /// pass has handled `s` transitions, from the output layer down.
    pub open spec fn backward(self, predicted: Grid<T>, target: Grid<T>, s: nat) -> (
        Seq<Grid<T>>,
        Seq<Grid<T>>,
        Grid<T>,
        Grid<T>,
    )
        decreases s,
    {
        if s == 0 {
            (self.weights, self.biases, target.difference(predicted), derived(self.activation, predicted))
        } else {
            let prev = self.backward(predicted, target, (s - 1) as nat);
            let i = self.weights.len() - s;
            let gradient = prev.2.hadamard(prev.3).scaled(self.learning_rate);
            let w = prev.0[i].sum(gradient.product(self.trace[i].transposed()));
            let b = prev.1[i].sum(gradient);
            (prev.0.update(i, w), prev.1.update(i, b), w.transposed().product(prev.2), derived(self.activation, self.trace[i]))
        }
    }

    /// The state after one backward pass from `predicted` towards `target`.
    pub open spec fn corrected(self, predicted: Grid<T>, target: Grid<T>) -> Self {
        let done = self.backward(predicted, target, self.weights.len());
        NetworkModel {
            layers: self.layers,
            weights: done.0,
            biases: done.1,
            trace: self.trace,
            activation: self.activation,
            learning_rate: self.learning_rate,
        }
    }

    /// One training example: a forward pass, then a backward pass from its prediction.
    pub open spec fn step(self, input: Seq<T>, target: Seq<T>) -> Self {
        let fed = self.fed(Grid::column(input));
        fed.corrected(fed.trace.last(), Grid::column(target))
    }

    /// The state after the first `j` examples, in order.
    pub open spec fn epoch(self, inputs: Seq<Seq<T>>, targets: Seq<Seq<T>>, j: nat) -> Self
        decreases j,
    {
        if j == 0 {
            self
        } else {
            self.epoch(inputs, targets, (j - 1) as nat).step(inputs[j - 1], targets[j - 1])
        }
    }

    /// The state after `epochs` passes over all the examples.
    pub open spec fn trained(self, inputs: Seq<Seq<T>>, targets: Seq<Seq<T>>, epochs: nat) -> Self
        decreases epochs,
    {
        if epochs == 0 {
            self
        } else {
            self.trained(inputs, targets, (epochs - 1) as nat).epoch(inputs, targets, inputs.len())
        }
    }
}

/// Whatever its parameters, the forward pass yields one column per layer, each
/// sized as its layer; in particular the prediction has as many rows as the
/// output layer and one column.
pub proof fn lemma_forward_shape<T: Scalar, A: Activation<T>>(
    net: NetworkModel<T, A>,
    input: Grid<T>,
    n: nat,
)
    requires
        net.wf(),
        is_column(input, net.layers[0] as nat),
        n < net.layers.len(),
    ensures
        net.forward(input, n).len() == n + 1,
        forall|i: int| 0 <= i <= n ==> is_column(#[trigger] net.forward(input, n)[i], net.layers[i] as nat),
    decreases n,
{
    if n > 0 {
        lemma_forward_shape(net, input, (n - 1) as nat);
        let prev = net.forward(input, (n - 1) as nat);
        let i = n - 1;
        assert(net.weights[i].wf());
        let z = net.weights[i].product(prev.last());
        assert(z.cells.len() == z.rows * z.cols);
        let s = net.biases[i].sum(z);
        assert(s.wf());
        assert(is_column(net.layer(i, prev.last()), net.layers[n as int] as nat));
        assert(forall|k: int| 0 <= k < n ==> net.forward(input, n)[k] == prev[k]);
    }
}

/// A fully-connected feed-forward network trained by backpropagation.
pub struct Network<T, A> {
    layers: Vec<usize>,
    weights: Vec<Matrix<T>>,
    biases: Vec<Matrix<T>>,
    data: Vec<Matrix<T>>,
    activation: A,
    learning_rate: T,
}

impl<T, A: Copy> View for Network<T, A> {
    type V = NetworkModel<T, A>;

    closed spec fn view(&self) -> NetworkModel<T, A> {
        NetworkModel {
            layers: self.layers@,
            weights: grids(self.weights@),
            biases: grids(self.biases@),
            trace: grids(self.data@),
            activation: self.activation,
            learning_rate: self.learning_rate,
        }
    }
}

/// The activation applied to every entry of `m`.
fn activate<T: Scalar, A: Activation<T>>(m: &Matrix<T>, act: &A) -> (r: Matrix<T>)
    requires
        m@.wf(),
    ensures
        r@ == activated(*act, m@),
        r@.wf(),
{
    let r = m.map(|x: T| -> (y: T)
        ensures
            y == act.apply_spec(x),
        { act.apply(x) });
    assert(r.data@ =~= activated(*act, m@).cells);
    r
}

/// The derivative applied to every entry of `m`.
fn derive<T: Scalar, A: Activation<T>>(m: &Matrix<T>, act: &A) -> (r: Matrix<T>)
    requires
        m@.wf(),
    ensures
        r@ == derived(*act, m@),
        r@.wf(),
{
    let r = m.map(|x: T| -> (y: T)
        ensures
            y == act.derivative_spec(x),
        { act.derivative_of(x) });
    assert(r.data@ =~= derived(*act, m@).cells);
    r
}

/// Every entry of `m` multiplied by `k` on the right.
fn scale<T: Scalar>(m: &Matrix<T>, k: T) -> (r: Matrix<T>)
    requires
        m@.wf(),
    ensures
        r@ == m@.scaled(k),
        r@.wf(),
{
    let r = m.map(|x: T| -> (y: T)
        ensures
            y == T::times_spec(x, k),
        { T::times(x, k) });
    assert(r.data@ =~= m@.scaled(k).cells);
    r
}

impl<T: Scalar, A: Activation<T> + Copy> Network<T, A> {
    /// A network with the given topology, activation and learning rate.
    /// For each transition `i`, `draw(layers[i+1], layers[i])` gives the
    /// initial weights and `draw(layers[i+1], 1)` the initial biases, in
    /// that order. The learning rate is kept as given. The cache starts empty.
    pub fn new<F: Fn(usize, usize) -> Matrix<T>>(
        layers: Vec<usize>,
        activation: A,
        learning_rate: T,
        draw: F,
    ) -> (r: Self)
        requires
            layers.len() >= 2,
            forall|i: int|
                0 <= i < layers.len() - 1 ==> draw.requires((layers[i + 1], #[trigger] layers[i]))
                    && draw.requires((layers[i + 1], 1usize)),
            forall|rows: usize, cols: usize, m: Matrix<T>|
                draw.ensures((rows, cols), m) ==> m@.wf() && m.rows == rows && m.cols == cols,
        ensures
            r@.wf(),
            r@.layers == layers@,
            r@.activation == activation,
            r@.learning_rate == learning_rate,
            r@.trace.len() == 0,
    {
        let mut weights: Vec<Matrix<T>> = Vec::new();
        let mut biases: Vec<Matrix<T>> = Vec::new();
        let mut i: usize = 0;
        while i < layers.len() - 1
            invariant
                layers.len() >= 2,
                i <= layers.len() - 1,
                weights.len() == i,
                biases.len() == i,
                forall|k: int|
                    0 <= k < layers.len() - 1 ==> draw.requires((layers[k + 1], #[trigger] layers[k]))
                        && draw.requires((layers[k + 1], 1usize)),
                forall|rows: usize, cols: usize, m: Matrix<T>|
                    draw.ensures((rows, cols), m) ==> m@.wf() && m.rows == rows && m.cols == cols,
                forall|k: int|
                    0 <= k < i ==> draw.ensures((layers[k + 1], layers[k]), #[trigger] weights@[k])
                        && draw.ensures((layers[k + 1], 1usize), biases@[k]),
            decreases layers.len() - 1 - i,
        {
            let w = draw(layers[i + 1], layers[i]);
            let b = draw(layers[i + 1], 1);
            weights.push(w);
            biases.push(b);
            i = i + 1;
        }
        let r = Network { layers, weights, biases, data: Vec::new(), activation, learning_rate };
        assert(r@.trace =~= Seq::<Grid<T>>::empty());
        r
    }

    /// The forward pass: feeds `input` through every transition in order,
    /// rebuilds the cache of per-layer outputs, and returns the prediction.
    pub fn feed_forward(&mut self, input: Matrix<T>) -> (r: Matrix<T>)
        requires
            old(self)@.wf(),
            is_column(input@, old(self)@.layers[0] as nat),
        ensures
            r@ == old(self)@.predict(input@),
            is_column(r@, old(self)@.layers.last() as nat),
            final(self)@ == old(self)@.fed(input@),
            final(self)@.wf(),
            final(self)@.trace_fits(),
    {
        let ghost net = self@;
        proof {
            lemma_forward_shape(net, input@, (net.layers.len() - 1) as nat);
        }
        let mut trace: Vec<Matrix<T>> = Vec::new();
        trace.push(input.duplicate());
        let mut current = input;
        let mut i: usize = 0;
        assert(grids(trace@) =~= net.forward(input@, 0));
        while i < self.weights.len()
            invariant
                self@ == net,
                net.wf(),
                is_column(input@, net.layers[0] as nat),
                i <= self.weights.len(),
                net.weights.len() == self.weights.len(),
                grids(trace@) == net.forward(input@, i as nat),
                current@ == net.forward(input@, i as nat).last(),
                forall|k: int| 0 <= k <= net.weights.len() ==> is_column(#[trigger] net.forward(input@, (net.layers.len() - 1) as nat)[k], net.layers[k] as nat),
            decreases self.weights.len() - i,
        {
            proof {
                lemma_forward_shape(net, input@, i as nat);
                assert(self.weights@[i as int]@ == net.weights[i as int]);
                assert(self.biases@[i as int]@ == net.biases[i as int]);
            }
            let z = self.weights[i].dot_multiply(&current);
            let s = self.biases[i].add(&z);
            current = activate(&s, &self.activation);
            trace.push(current.duplicate());
            i = i + 1;
            assert(grids(trace@) =~= net.forward(input@, i as nat));
        }
        self.data = trace;
        assert(self@ == net.fed(input@));
        current
    }

    /// The backward pass for one example: compares `predicted` (the latest
    /// forward pass's prediction) with `target`, and updates the weights and
    /// biases of every transition from the output layer down, using the
    /// outputs cached by that forward pass.
    pub fn back_propogate(&mut self, predicted: Matrix<T>, target: Matrix<T>)
        requires
            old(self)@.wf(),
            old(self)@.trace_fits(),
            is_column(predicted@, old(self)@.layers.last() as nat),
            is_column(target@, old(self)@.layers.last() as nat),
        ensures
            final(self)@ == old(self)@.corrected(predicted@, target@),
            final(self)@.wf(),
            final(self)@.trace_fits(),
    {
        let ghost net = self@;
        let mut errors = target.subtract(&predicted);
        let mut base = derive(&predicted, &self.activation);
        let mut i: usize = self.weights.len();
        assert(net.backward(predicted@, target@, 0) == (grids(self.weights@), grids(self.biases@), errors@, base@));
        while i > 0
            invariant
                net.wf(),
                net.trace_fits(),
                i <= self.weights.len(),
                self.weights.len() == net.weights.len(),
                self@.layers == net.layers,
                self@.trace == net.trace,
                self@.activation == net.activation,
                self@.learning_rate == net.learning_rate,
                self@.wf(),
                is_column(errors@, net.layers[i as int] as nat),
                is_column(base@, net.layers[i as int] as nat),
                net.backward(predicted@, target@, (net.weights.len() - i) as nat)
                    == (self@.weights, self@.biases, errors@, base@),
            decreases i,
        {
            i = i - 1;
            let ghost s = (net.weights.len() - i) as nat;
            proof {
                assert(self.data@[i as int]@ == net.trace[i as int]);
                assert(self.weights@[i as int]@ == self@.weights[i as int]);
                assert(self.biases@[i as int]@ == self@.biases[i as int]);
                assert(is_column(net.trace[i as int], net.layers[i as int] as nat));
                assert(self@.weights[i as int].wf());
            }
            let product = errors.elementwise_multiply(&base);
            let gradient = scale(&product, self.learning_rate);
            let entering = self.data[i].transpose();
            proof {
                assert(self.weights@[i as int].data.len() == gradient.rows * entering.cols);
            }
            let delta = gradient.dot_multiply(&entering);
            let weight = self.weights[i].add(&delta);
            let bias = self.biases[i].add(&gradient);
            let turned = weight.transpose();
            proof {
                assert(turned@.cols == errors@.rows);
                assert(turned@.rows * 1 == turned@.rows);
            }
            errors = turned.dot_multiply(&errors);
            let ghost before = self@;
            self.weights.set(i, weight);
            self.biases.set(i, bias);
            proof {
                assert(self@.weights =~= before.weights.update(i as int, weight@));
                assert(self@.biases =~= before.biases.update(i as int, bias@));
            }
            base = derive(&self.data[i], &self.activation);
            proof {
                assert(s > 0);
                assert((s - 1) as nat == (net.weights.len() - (i + 1)) as nat);
            }
        }
        assert(self@ == net.corrected(predicted@, target@));
    }

    /// Trains for `epochs` passes over the examples: on each pass, each
    /// example in order gets a forward pass on `inputs[j]` followed by a
    /// backward pass towards `targets[j]`.
    pub fn train(&mut self, inputs: Vec<Vec<T>>, targets: Vec<Vec<T>>, epochs: u32)
        requires
            old(self)@.wf(),
            inputs.len() == targets.len(),
            forall|j: int| 0 <= j < inputs.len() ==> (#[trigger] inputs@[j]).len() == old(self)@.layers[0],
            forall|j: int| 0 <= j < targets.len() ==> (#[trigger] targets@[j]).len() == old(self)@.layers.last(),
        ensures
            final(self)@ == old(self)@.trained(values_of(inputs@), values_of(targets@), epochs as nat),
            final(self)@.wf(),
    {
        let ghost net = self@;
        let ghost ins = values_of(inputs@);
        let ghost tgs = values_of(targets@);
        let mut e: u32 = 0;
        while e < epochs
            invariant
                e <= epochs,
                inputs.len() == targets.len(),
                forall|j: int| 0 <= j < inputs.len() ==> (#[trigger] inputs@[j]).len() == net.layers[0],
                forall|j: int| 0 <= j < targets.len() ==> (#[trigger] targets@[j]).len() == net.layers.last(),
                ins == values_of(inputs@),
                tgs == values_of(targets@),
                self@ == net.trained(ins, tgs, e as nat),
                self@.wf(),
                self@.layers == net.layers,
            decreases epochs - e,
        {
            let ghost start = self@;
            let mut j: usize = 0;
            while j < inputs.len()
                invariant
                    j <= inputs.len(),
                    inputs.len() == targets.len(),
                    forall|k: int| 0 <= k < inputs.len() ==> (#[trigger] inputs@[k]).len() == net.layers[0],
                    forall|k: int| 0 <= k < targets.len() ==> (#[trigger] targets@[k]).len() == net.layers.last(),
                    ins == values_of(inputs@),
                    tgs == values_of(targets@),
                    self@ == start.epoch(ins, tgs, j as nat),
                    self@.wf(),
                    self@.layers == net.layers,
                decreases inputs.len() - j,
            {
                let input = Matrix::from_vector(copy_values(&inputs[j]));
                let target = Matrix::from_vector(copy_values(&targets[j]));
                let ghost before = self@;
                assert(input@ == Grid::column(ins[j as int]));
                assert(target@ == Grid::column(tgs[j as int]));
                let outputs = self.feed_forward(input);
                self.back_propogate(outputs, target);
                j = j + 1;
            }
            assert(ins.len() == inputs.len());
            e = e + 1;
        }
    }
}

} // verus!
