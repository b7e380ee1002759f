use rust_micrograd::Arena;
use rust_micrograd::Coeff;
use rust_micrograd::GradStep;
use rust_micrograd::Value;
use rust_micrograd::ValueFactory;

fn factory() -> ValueFactory {
    let (guard, token) = Arena::build();
    ValueFactory::new(guard, token)
}

fn data(vf: &ValueFactory, v: Value) -> f64 {
    f64::from_bits(vf.get_data(v))
}

fn grad(vf: &ValueFactory, v: Value) -> f64 {
    f64::from_bits(vf.get_grad(v))
}

fn leaf(vf: &mut ValueFactory, x: f64) -> Value {
    vf.value(x.to_bits())
}

fn add_v(vf: &mut ValueFactory, a: Value, b: Value) -> Value {
    let s = data(vf, a) + data(vf, b);
    vf.add(a, b, s.to_bits())
}

fn mul_v(vf: &mut ValueFactory, a: Value, b: Value) -> Value {
    let p = data(vf, a) * data(vf, b);
    vf.mul(a, b, p.to_bits())
}

fn neg_v(vf: &mut ValueFactory, a: Value) -> Value {
    let n = data(vf, a) * -1.0;
    vf.neg(a, n.to_bits())
}

fn sub_v(vf: &mut ValueFactory, a: Value, b: Value) -> Value {
    let n = data(vf, b) * -1.0;
    let s = data(vf, a) + n;
    vf.sub(a, b, n.to_bits(), s.to_bits())
}

fn div_v(vf: &mut ValueFactory, a: Value, b: Value) -> Value {
    let inv = data(vf, b).powi(-1);
    let q = data(vf, a) * inv;
    vf.div(a, b, inv.to_bits(), q.to_bits())
}

fn powi_v(vf: &mut ValueFactory, a: Value, n: i32) -> Value {
    let p = data(vf, a).powi(n);
    vf.powi(a, n, p.to_bits())
}

fn powf_v(vf: &mut ValueFactory, a: Value, e: f64) -> Value {
    let p = data(vf, a).powf(e);
    vf.powf(a, e.to_bits(), p.to_bits())
}

fn relu_v(vf: &mut ValueFactory, a: Value) -> Value {
    vf.relu(a)
}

fn tanh_v(vf: &mut ValueFactory, a: Value) -> Value {
    let x = data(vf, a);
    let t = ((2.0 * x).exp() - 1.0) / ((2.0 * x).exp() + 1.0);
    vf.tanh(a, t.to_bits())
}

fn exp_v(vf: &mut ValueFactory, a: Value) -> Value {
    let e = data(vf, a).exp();
    vf.exp(a, e.to_bits())
}

fn apply(vf: &mut ValueFactory, plan: &[GradStep]) {
    for step in plan {
        let g = f64::from_bits(vf.get_grad(step.out));
        let delta = match step.coeff {
            Coeff::One => g,
            Coeff::Zero => 0.0,
            Coeff::Scale(b) => f64::from_bits(b) * g,
            Coeff::PowDerivI(base, n) => (n as f64) * f64::from_bits(base).powi(n - 1) * g,
            Coeff::PowDerivF(base, p) => {
                let pf = f64::from_bits(p);
                pf * f64::from_bits(base).powf(pf - 1.0) * g
            }
            Coeff::OneMinusSq(t) => {
                let tf = f64::from_bits(t);
                (1.0 - tf.powi(2)) * g
            }
        };
        let updated = f64::from_bits(vf.get_grad(step.target)) + delta;
        vf.set_grad(step.target, updated.to_bits());
    }
}

fn backward(vf: &mut ValueFactory, root: Value) {
    let (_order, plan) = vf.backward(root);
    apply(vf, &plan);
}

#[test]
fn add() {
    let mut vf = factory();

    let a = leaf(&mut vf, 2.5);
    let b = leaf(&mut vf, 3.2);
    let c = add_v(&mut vf, a, b);
    let ab = add_v(&mut vf, a, b);
    let d = add_v(&mut vf, ab, c);
    assert_eq!(data(&vf, c), 5.7);
    assert_eq!(data(&vf, d), 11.4);
}

#[test]
fn add_grad() {
    let mut vf = factory();

    // value + value
    let a = leaf(&mut vf, 2.5);
    let b = leaf(&mut vf, 3.2);
    let c = add_v(&mut vf, a, b);
    assert_eq!(data(&vf, c), 5.7);

    assert_eq!(grad(&vf, a), 0.0);
    assert_eq!(grad(&vf, b), 0.0);
    backward(&mut vf, c);
    assert_eq!(grad(&vf, a), 1.0);
    assert_eq!(grad(&vf, b), 1.0);

    // value + bare scalar: the scalar is lifted into a fresh leaf
    let a = leaf(&mut vf, 2.5);
    let b = leaf(&mut vf, 3.2);
    let c = add_v(&mut vf, a, b);
    assert_eq!(data(&vf, c), 5.7);

    assert_eq!(grad(&vf, a), 0.0);
    backward(&mut vf, c);
    assert_eq!(grad(&vf, a), 1.0);

    // bare scalar + value
    let a = leaf(&mut vf, 2.5);
    let b = leaf(&mut vf, 3.2);
    let c = add_v(&mut vf, a, b);
    assert_eq!(data(&vf, c), 5.7);

    assert_eq!(grad(&vf, b), 0.0);
    backward(&mut vf, c);
    assert_eq!(grad(&vf, b), 1.0);
}

#[test]
fn sub() {
    let mut vf = factory();

    // value - value
    let a = leaf(&mut vf, 2.5);
    let b = leaf(&mut vf, 5.0);
    let c = sub_v(&mut vf, a, b);
    assert_eq!(data(&vf, c), -2.5);

    assert_eq!(grad(&vf, a), 0.0);
    assert_eq!(grad(&vf, b), 0.0);
    backward(&mut vf, c);
    assert_eq!(grad(&vf, a), 1.0);
    assert_eq!(grad(&vf, b), -1.0);

    // value - bare scalar
    let a = leaf(&mut vf, 2.5);
    let b = leaf(&mut vf, 5.0);
    let c = sub_v(&mut vf, a, b);
    assert_eq!(data(&vf, c), -2.5);

    assert_eq!(grad(&vf, a), 0.0);
    backward(&mut vf, c);
    assert_eq!(grad(&vf, a), 1.0);

    // bare scalar - value
    let a = leaf(&mut vf, 2.5);
    let b = leaf(&mut vf, 5.0);
    let c = sub_v(&mut vf, a, b);
    assert_eq!(data(&vf, c), -2.5);

    assert_eq!(grad(&vf, b), 0.0);
    backward(&mut vf, c);
    assert_eq!(grad(&vf, b), -1.0);
}

#[test]
fn mul() {
    let mut vf = factory();

    // value mul with other values
    let a = leaf(&mut vf, 2.5);
    let b = leaf(&mut vf, 3.0);
    let c = mul_v(&mut vf, a, b);
    let ab = mul_v(&mut vf, a, b);
    let d = mul_v(&mut vf, ab, c);
    assert_eq!(data(&vf, c), 7.5);
    assert_eq!(data(&vf, d), 56.25);

    // bare scalar mul with value
    let two = leaf(&mut vf, 2.0);
    let e = mul_v(&mut vf, two, d);
    assert_eq!(data(&vf, e), 112.5);

    // value mul with bare scalar
    let two = leaf(&mut vf, 2.0);
    let f = mul_v(&mut vf, e, two);
    assert_eq!(data(&vf, f), 225.0);
}

#[test]
fn mul_grad() {
    let mut vf = factory();

    // value * value
    let a = leaf(&mut vf, 2.5);
    let b = leaf(&mut vf, 3.0);
    let c = mul_v(&mut vf, a, b);
    assert_eq!(data(&vf, c), 7.5);

    assert_eq!(grad(&vf, a), 0.0);
    assert_eq!(grad(&vf, b), 0.0);
    backward(&mut vf, c);
    assert_eq!(grad(&vf, a), 3.0);
    assert_eq!(grad(&vf, b), 2.5);

    // value * bare scalar
    let e = leaf(&mut vf, 2.5);
    let three = leaf(&mut vf, 3.0);
    let f = mul_v(&mut vf, e, three);
    assert_eq!(data(&vf, f), 7.5);

    assert_eq!(grad(&vf, e), 0.0);
    backward(&mut vf, f);
    assert_eq!(grad(&vf, e), 3.0);

    // bare scalar * value
    let g = leaf(&mut vf, 3.0);
    let half = leaf(&mut vf, 2.5);
    let h = mul_v(&mut vf, half, g);
    assert_eq!(data(&vf, h), 7.5);

    assert_eq!(grad(&vf, g), 0.0);
    backward(&mut vf, h);
    assert_eq!(grad(&vf, h), 1.0);
    assert_eq!(grad(&vf, g), 2.5);
    assert_eq!(data(&vf, g), 3.0);
}

#[test]
fn pow() {
    let mut vf = factory();

    // pow with int
    let a = leaf(&mut vf, 2.0);
    let b = powi_v(&mut vf, a, 2);
    assert_eq!(data(&vf, b), 4.0);

    // test grad as well
    backward(&mut vf, b);
    assert_eq!(grad(&vf, b), 1.0);
    assert_eq!(grad(&vf, a), 4.0);

    // pow with float works the same as pow with int
    let a = leaf(&mut vf, 2.0);
    let b = powf_v(&mut vf, a, 2.0);
    assert_eq!(data(&vf, b), 4.0);

    // test grad as well
    backward(&mut vf, b);
    assert_eq!(grad(&vf, b), 1.0);
    assert_eq!(grad(&vf, a), 4.0);
}

#[test]
fn neg() {
    let mut vf = factory();

    let a = leaf(&mut vf, 2.0);
    let b = neg_v(&mut vf, a);
    assert_eq!(data(&vf, b), -2.0);

    // test grad as well
    backward(&mut vf, b);
    assert_eq!(grad(&vf, b), 1.0);
    assert_eq!(grad(&vf, a), -1.0);
}

#[test]
fn div() {
    let mut vf = factory();

    // value / value
    let a = leaf(&mut vf, 2.5);
    let b = leaf(&mut vf, 1.0 / 3.0);
    let c = div_v(&mut vf, a, b);
    assert_eq!(data(&vf, c), 7.5);

    assert_eq!(grad(&vf, a), 0.0);
    assert_eq!(grad(&vf, b), 0.0);
    backward(&mut vf, c);
    assert_eq!(grad(&vf, a), 3.0);
    assert_eq!(grad(&vf, b), -22.5);

    // value / bare scalar
    let e = leaf(&mut vf, 2.5);
    let third = leaf(&mut vf, 1.0 / 3.0);
    let f = div_v(&mut vf, e, third);
    assert_eq!(data(&vf, f), 7.5);

    assert_eq!(grad(&vf, e), 0.0);
    backward(&mut vf, f);
    assert_eq!(grad(&vf, e), 3.0);

    // bare scalar / value
    let g = leaf(&mut vf, 1.0 / 3.0);
    let half = leaf(&mut vf, 2.5);
    let h = div_v(&mut vf, half, g);
    assert_eq!(data(&vf, h), 7.5);

    assert_eq!(grad(&vf, g), 0.0);
    backward(&mut vf, h);
    assert_eq!(grad(&vf, h), 1.0);
    assert_eq!(grad(&vf, g), -22.5);
    assert_eq!(data(&vf, g), 1.0 / 3.0);
}

#[test]
fn relu() {
    let mut vf = factory();

    let a = leaf(&mut vf, 2.0);
    let b = relu_v(&mut vf, a);
    assert_eq!(data(&vf, b), 2.0);

    // test grad as well
    backward(&mut vf, b);
    assert_eq!(grad(&vf, b), 1.0);
    assert_eq!(grad(&vf, a), 1.0);

    // less than 0 case
    let c = leaf(&mut vf, -2.0);
    let d = relu_v(&mut vf, c);
    assert_eq!(data(&vf, d), 0.0);

    // test grad as well
    backward(&mut vf, d);
    assert_eq!(grad(&vf, d), 1.0);
    assert_eq!(grad(&vf, c), 0.0);
}

#[test]
fn tanh() {
    let mut vf = factory();

    let a = leaf(&mut vf, 2.0);
    let b = tanh_v(&mut vf, a);

    let expected_data = 2.0_f64.tanh();
    assert!((data(&vf, b) - expected_data).abs() < 1e-12);

    // test grad as well
    backward(&mut vf, b);

    let expected_grad = 1.0 - expected_data * expected_data;
    assert!((grad(&vf, a) - expected_grad).abs() < 1e-12);

    assert_eq!(grad(&vf, b), 1.0);
}

#[test]
fn exp() {
    let mut vf = factory();

    let a = leaf(&mut vf, 2.0);
    let b = exp_v(&mut vf, a);

    let expected_data = 2.0_f64.exp();
    assert!((data(&vf, b) - expected_data).abs() < 1e-12);

    // test grad as well
    backward(&mut vf, b);

    let expected_grad = expected_data;
    assert!((grad(&vf, a) - expected_grad).abs() < 1e-12);

    assert_eq!(grad(&vf, b), 1.0);
}
