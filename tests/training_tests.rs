use neural_network::activation::Activation;
use neural_network::matrix::Matrix;
use neural_network::network::Network;
use neural_network::scalar::Scalar;

#[derive(Clone, Copy, Debug, PartialEq)]
struct Real(f64);

// Outside the verifier the model functions of the traits are ordinary
// functions; here they state the same arithmetic as the operations.
impl Scalar for Real {
    fn zero_spec() -> Real {
        Real(0.0)
    }

    fn one_spec() -> Real {
        Real(1.0)
    }

    fn plus_spec(a: Real, b: Real) -> Real {
        Real(a.0 + b.0)
    }

    fn minus_spec(a: Real, b: Real) -> Real {
        Real(a.0 - b.0)
    }

    fn times_spec(a: Real, b: Real) -> Real {
        Real(a.0 * b.0)
    }

    fn same_spec(a: Real, b: Real) -> bool {
        a.0 == b.0
    }

    fn zero() -> Real {
        Real(0.0)
    }

    fn one() -> Real {
        Real(1.0)
    }

    fn plus(a: Real, b: Real) -> Real {
        Real(a.0 + b.0)
    }

    fn minus(a: Real, b: Real) -> Real {
        Real(a.0 - b.0)
    }

    fn times(a: Real, b: Real) -> Real {
        Real(a.0 * b.0)
    }

    fn same(a: Real, b: Real) -> bool {
        a.0 == b.0
    }
}

#[derive(Clone, Copy, Debug)]
struct Sigmoid;

impl Activation<Real> for Sigmoid {
    fn apply_spec(&self, x: Real) -> Real {
        self.apply(x)
    }

    fn derivative_spec(&self, y: Real) -> Real {
        self.derivative_of(y)
    }

    fn apply(&self, x: Real) -> Real {
        Real(1.0 / (1.0 + (-x.0).exp()))
    }

    fn derivative_of(&self, y: Real) -> Real {
        Real(y.0 * (1.0 - y.0))
    }
}

fn seeded(rows: usize, cols: usize) -> Matrix<Real> {
    // a fixed spread of starting values in [0, 1)
    let mut data = Vec::new();
    for p in 0..rows * cols {
        data.push(Real(((p * 37 + rows * 11 + cols * 5) % 100) as f64 / 100.0));
    }
    Matrix::new(rows, cols, data)
}

fn mean_squared_error(net: &mut Network<Real, Sigmoid>, inputs: &[Vec<Real>], targets: &[Vec<Real>]) -> f64 {
    let mut total = 0.0;
    for j in 0..inputs.len() {
        let out = net.feed_forward(Matrix::from_vector(inputs[j].clone()));
        let d = out.data[0].0 - targets[j][0].0;
        total += d * d;
    }
    total / inputs.len() as f64
}

#[test]
fn training_reduces_error() {
    let r = |v: &[f64]| v.iter().map(|x| Real(*x)).collect::<Vec<Real>>();
    let inputs = vec![r(&[0.0, 0.0]), r(&[0.0, 1.0]), r(&[1.0, 0.0]), r(&[1.0, 1.0])];
    let targets = vec![r(&[0.0]), r(&[1.0]), r(&[0.0]), r(&[1.0])];
    let mut net = Network::new(vec![2, 3, 1], Sigmoid, Real(0.5), seeded);
    let before = mean_squared_error(&mut net, &inputs, &targets);
    net.train(inputs.clone(), targets.clone(), 100000);
    let after = mean_squared_error(&mut net, &inputs, &targets);
    assert!(after < before, "error went from {} to {}", before, after);
}
