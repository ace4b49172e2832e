//! End-to-end scenarios for the affine-normalization operator: forward
//! values, backward gradients, broadcast accumulation, tape ordering across
//! chained operators, pass-through mode, and finite-difference checks.

use gradtape::affine_normalize::TryAffineNormalize;
use gradtape::store::Gradients;
use gradtape::tape::Tape;
use gradtape::tensor::Cpu;
use gradtape::tensor::Tensor;
use gradtape::Error;

fn b(x: f32) -> u16 {
    half::bf16::from_f32(x).to_bits()
}

fn f(bits: u16) -> f32 {
    half::bf16::from_bits(bits).to_f32()
}

fn vec_b(xs: &[f32]) -> Vec<u16> {
    xs.iter().map(|&x| b(x)).collect()
}

fn close(a: f32, bv: f32, tol: f32) -> bool {
    (a - bv).abs() <= tol
}

/// The concrete scenario: x = [1, 2, 3], mean a broadcast scalar 2, var,
/// scale ones, bias a broadcast zero, epsilon = 1e-5. Forward gives
/// y ~ [-1, 0, 1]; backward with grad_y of ones gives grad_scale ~ [-1, 0, 1]
/// per element and grad_bias = [3] in its broadcast accumulator slot.
#[test]
fn concrete_broadcast_scenario() {
    let mut dev = Cpu::new();
    let eps = b(1e-5);
    let x = dev.tensor_from_vec(vec_b(&[1.0, 2.0, 3.0]), vec![3]);
    let x_id = x.id;
    let mean = dev.broadcast_scalar(b(2.0), vec![3]);
    let var = dev.tensor_from_vec(vec_b(&[1.0, 1.0, 1.0]), vec![3]);
    let scale = dev.tensor_from_vec(vec_b(&[1.0, 1.0, 1.0]), vec![3]);
    let scale_id = scale.id;
    let bias = dev.broadcast_scalar(b(0.0), vec![3]);
    let bias_id = bias.id;

    let y = x
        .traced()
        .try_affine_normalize(
            &mut dev,
            Some(mean.put_tape(Tape::new(false))),
            var.put_tape(Tape::new(false)),
            scale.put_tape(Tape::new(false)),
            bias.put_tape(Tape::new(false)),
            eps,
        )
        .unwrap();
    assert_eq!(y.tape.job_count(), 1);
    let expected_y = [-1.0f32, 0.0, 1.0];
    for i in 0..3 {
        assert!(close(f(y.tensor.read(i)), expected_y[i], 1e-4));
    }

    let grads = y.backward(&dev).unwrap();
    let gs = grads.get(scale_id);
    let expected_gs = [-1.0f32, 0.0, 1.0];
    for i in 0..3 {
        assert!(close(f(gs[i]), expected_gs[i], 1e-4));
    }
    let gb = grads.get(bias_id);
    assert_eq!(gb.len(), 1);
    assert!(close(f(gb[0]), 3.0, 1e-4));
    let gx = grads.get(x_id);
    for i in 0..3 {
        assert!(close(f(gx[i]), 1.0, 1e-4));
    }
}

/// Absent-mean scenario: the same inputs with mean = None leave x uncentered
/// (y uses x directly), and no mean gradient slot is ever allocated.
#[test]
fn absent_mean_scenario() {
    let mut dev = Cpu::new();
    let eps = b(1e-5);
    let x = dev.tensor_from_vec(vec_b(&[1.0, 2.0, 3.0]), vec![3]);
    let var = dev.tensor_from_vec(vec_b(&[1.0, 1.0, 1.0]), vec![3]);
    let scale = dev.tensor_from_vec(vec_b(&[1.0, 1.0, 1.0]), vec![3]);
    let bias = dev.broadcast_scalar(b(0.0), vec![3]);

    let y = x
        .traced()
        .try_affine_normalize(
            &mut dev,
            None,
            var.put_tape(Tape::new(false)),
            scale.put_tape(Tape::new(false)),
            bias.put_tape(Tape::new(false)),
            eps,
        )
        .unwrap();
    let expected_y = [1.0f32, 2.0, 3.0];
    for i in 0..3 {
        assert!(close(f(y.tensor.read(i)), expected_y[i], 1e-4));
    }

    let grads = y.backward(&dev).unwrap();
    // Slots exist only for x, var, scale, bias, and the output seed: five,
    // and none for a mean.
    assert_eq!(grads.slot_count(), 5);
}

/// Pass-through mode: with recording disabled no deferred computation is
/// pushed, the output carries a fresh identity over the transformed buffer,
/// and replaying the (empty) tape leaves a fresh gradient store empty.
#[test]
fn pass_through_mode() {
    let mut dev = Cpu::new();
    let eps = b(1e-5);
    let x = dev.tensor_from_vec(vec_b(&[1.0, 2.0, 3.0]), vec![3]);
    let x_id = x.id;
    let mean = dev.broadcast_scalar(b(2.0), vec![3]);
    let var = dev.tensor_from_vec(vec_b(&[1.0, 1.0, 1.0]), vec![3]);
    let scale = dev.tensor_from_vec(vec_b(&[1.0, 1.0, 1.0]), vec![3]);
    let bias = dev.broadcast_scalar(b(0.0), vec![3]);

    let y = x
        .put_tape(Tape::new(false))
        .try_affine_normalize(
            &mut dev,
            Some(mean.put_tape(Tape::new(false))),
            var.put_tape(Tape::new(false)),
            scale.put_tape(Tape::new(false)),
            bias.put_tape(Tape::new(false)),
            eps,
        )
        .unwrap();
    assert!(!y.tape.is_recording());
    assert_eq!(y.tape.job_count(), 0);
    assert_ne!(y.tensor.id, x_id);
    assert!(close(f(y.tensor.read(0)), -1.0, 1e-4));

    let mut store = Gradients::new();
    y.tape.execute(&dev, &mut store).unwrap();
    assert!(store.is_empty());
}

/// Mismatched operand shapes surface `ShapeMismatch` and push nothing.
#[test]
fn shape_mismatch_error() {
    let mut dev = Cpu::new();
    let eps = b(1e-5);
    let x = dev.tensor_from_vec(vec_b(&[1.0, 2.0, 3.0]), vec![3]);
    let var = dev.tensor_from_vec(vec_b(&[1.0, 1.0]), vec![2]);
    let scale = dev.tensor_from_vec(vec_b(&[1.0, 1.0, 1.0]), vec![3]);
    let bias = dev.broadcast_scalar(b(0.0), vec![3]);

    let r = x.traced().try_affine_normalize(
        &mut dev,
        None,
        var.put_tape(Tape::new(false)),
        scale.put_tape(Tape::new(false)),
        bias.put_tape(Tape::new(false)),
        eps,
    );
    assert_eq!(r.err().unwrap(), Error::ShapeMismatch);
}

fn identity_params(dev: &mut Cpu) -> (Tensor, Tensor, Tensor) {
    let var = dev.broadcast_scalar(b(1.0), vec![3]);
    let scale = dev.broadcast_scalar(b(1.0), vec![3]);
    let bias = dev.broadcast_scalar(b(0.0), vec![3]);
    (var, scale, bias)
}

/// Tape ordering across a chain: three operators recorded in order, each
/// consuming the previous output; the gradient of the original input is
/// exactly the seed, which only reaches it when replay runs the jobs in
/// strict reverse order.
#[test]
fn chained_operators_backward() {
    let mut dev = Cpu::new();
    let eps = b(1e-5);
    let x = dev.tensor_from_vec(vec_b(&[1.0, 2.0, 3.0]), vec![3]);
    let x_id = x.id;

    let mut cur = x.traced();
    for _ in 0..3 {
        let (var, scale, bias) = identity_params(&mut dev);
        cur = cur
            .try_affine_normalize(
                &mut dev,
                None,
                var.put_tape(Tape::new(false)),
                scale.put_tape(Tape::new(false)),
                bias.put_tape(Tape::new(false)),
                eps,
            )
            .unwrap();
    }
    assert_eq!(cur.tape.job_count(), 3);
    // Each normalization with var 1, scale 1, bias 0, no mean is the
    // identity, so y equals x and the seed of ones flows back unchanged.
    for i in 0..3 {
        assert_eq!(f(cur.tensor.read(i)), [1.0f32, 2.0, 3.0][i]);
    }
    let grads = cur.backward(&dev).unwrap();
    let gx = grads.get(x_id);
    for i in 0..3 {
        assert_eq!(f(gx[i]), 1.0);
    }
}

/// Accumulation across two independent paths: one tensor identity feeds two
/// recorded operators (through a clone sharing its identity), and its final
/// gradient is the sum of both paths' contributions.
#[test]
fn two_path_accumulation() {
    let mut dev = Cpu::new();
    let eps = b(1e-5);
    let x = dev.tensor_from_vec(vec_b(&[1.0, 2.0, 3.0]), vec![3]);
    let x_id = x.id;
    let x2 = x.clone();

    let (var_a, scale_a, bias_a) = identity_params(&mut dev);
    let y1 = x
        .traced()
        .try_affine_normalize(
            &mut dev,
            None,
            var_a.put_tape(Tape::new(false)),
            scale_a.put_tape(Tape::new(false)),
            bias_a.put_tape(Tape::new(false)),
            eps,
        )
        .unwrap();
    let (var_b, scale_b, bias_b) = identity_params(&mut dev);
    let y2 = x2
        .traced()
        .try_affine_normalize(
            &mut dev,
            None,
            var_b.put_tape(Tape::new(false)),
            scale_b.put_tape(Tape::new(false)),
            bias_b.put_tape(Tape::new(false)),
            eps,
        )
        .unwrap();
    // y3 = y1 * y2 (var 1, bias 0, no mean, scale = y2), so backward sends
    // y2's values to y1's slot and y1's values to y2's slot; both paths then
    // deposit x's values into x's single gradient buffer.
    let (var_c, _, bias_c) = identity_params(&mut dev);
    let y3 = y1
        .try_affine_normalize(
            &mut dev,
            None,
            var_c.put_tape(Tape::new(false)),
            y2,
            bias_c.put_tape(Tape::new(false)),
            eps,
        )
        .unwrap();
    assert_eq!(y3.tape.job_count(), 3);
    for i in 0..3 {
        assert_eq!(f(y3.tensor.read(i)), [1.0f32, 4.0, 9.0][i]);
    }
    let grads = y3.backward(&dev).unwrap();
    let gx = grads.get(x_id);
    for i in 0..3 {
        assert_eq!(f(gx[i]), [2.0f32, 4.0, 6.0][i]);
    }
}

/// Uncentered scaling with a variance above one: pins the square root in
/// the forward standard deviation and the 1.5 power in the variance
/// gradient to their numeric values.
#[test]
fn variance_scaling_values() {
    let mut dev = Cpu::new();
    let eps = b(1e-5);
    let x = dev.tensor_from_vec(vec_b(&[4.0]), vec![1]);
    let var = dev.tensor_from_vec(vec_b(&[3.0]), vec![1]);
    let var_id = var.id;
    let scale = dev.tensor_from_vec(vec_b(&[1.0]), vec![1]);
    let bias = dev.tensor_from_vec(vec_b(&[0.0]), vec![1]);
    let y = x
        .traced()
        .try_affine_normalize(
            &mut dev,
            None,
            var.put_tape(Tape::new(false)),
            scale.put_tape(Tape::new(false)),
            bias.put_tape(Tape::new(false)),
            eps,
        )
        .unwrap();
    // y = 4 / sqrt(3) ~ 2.309
    assert!(close(f(y.tensor.read(0)), 2.309, 0.02));
    let grads = y.backward(&dev).unwrap();
    // grad_var = -grad_y * centered * scale / (2 * (var + eps)^1.5)
    //          = -4 / (2 * 3^1.5) ~ -0.385
    assert!(close(f(grads.get(var_id)[0]), -0.385, 0.02));
}

fn forward_only(dev: &mut Cpu, x: &[f32], mean: &[f32], var: &[f32], scale: &[f32], bias: &[f32], eps: u16) -> Vec<f32> {
    let xt = dev.tensor_from_vec(vec_b(x), vec![3]);
    let mt = dev.tensor_from_vec(vec_b(mean), vec![3]);
    let vt = dev.tensor_from_vec(vec_b(var), vec![3]);
    let st = dev.tensor_from_vec(vec_b(scale), vec![3]);
    let bt = dev.tensor_from_vec(vec_b(bias), vec![3]);
    let y = xt
        .put_tape(Tape::new(false))
        .try_affine_normalize(
            dev,
            Some(mt.put_tape(Tape::new(false))),
            vt.put_tape(Tape::new(false)),
            st.put_tape(Tape::new(false)),
            bt.put_tape(Tape::new(false)),
            eps,
        )
        .unwrap();
    (0..3).map(|i| f(y.tensor.read(i))).collect()
}

/// Finite-difference check: backward's closed-form partial derivatives for
/// x, mean, var, scale and bias agree with central differences of the
/// forward pass, within the coarse tolerance bfloat16 allows.
#[test]
fn finite_difference_gradients() {
    let mut dev = Cpu::new();
    let eps = b(1e-5);
    let x = [1.0f32, 2.0, 3.0];
    let mean = [0.5f32, 0.5, 0.5];
    let var = [3.0f32, 3.0, 3.0];
    let scale = [1.0f32, 1.0, 1.0];
    let bias = [0.25f32, 0.25, 0.25];

    let xt = dev.tensor_from_vec(vec_b(&x), vec![3]);
    let mt = dev.tensor_from_vec(vec_b(&mean), vec![3]);
    let vt = dev.tensor_from_vec(vec_b(&var), vec![3]);
    let st = dev.tensor_from_vec(vec_b(&scale), vec![3]);
    let bt = dev.tensor_from_vec(vec_b(&bias), vec![3]);
    let ids = [xt.id, mt.id, vt.id, st.id, bt.id];
    let y = xt
        .traced()
        .try_affine_normalize(
            &mut dev,
            Some(mt.put_tape(Tape::new(false))),
            vt.put_tape(Tape::new(false)),
            st.put_tape(Tape::new(false)),
            bt.put_tape(Tape::new(false)),
            eps,
        )
        .unwrap();
    let grads = y.backward(&dev).unwrap();

    let h = 0.125f32;
    let i = 1usize;
    let perturb = |vals: &[f32; 3], delta: f32| {
        let mut out = *vals;
        out[i] += delta;
        out
    };
    // One operand at a time, centered differences at element i.
    let checks: [(usize, Vec<f32>, Vec<f32>); 5] = [
        (0, forward_only(&mut dev, &perturb(&x, h), &mean, &var, &scale, &bias, eps),
            forward_only(&mut dev, &perturb(&x, -h), &mean, &var, &scale, &bias, eps)),
        (1, forward_only(&mut dev, &x, &perturb(&mean, h), &var, &scale, &bias, eps),
            forward_only(&mut dev, &x, &perturb(&mean, -h), &var, &scale, &bias, eps)),
        (2, forward_only(&mut dev, &x, &mean, &perturb(&var, h), &scale, &bias, eps),
            forward_only(&mut dev, &x, &mean, &perturb(&var, -h), &scale, &bias, eps)),
        (3, forward_only(&mut dev, &x, &mean, &var, &perturb(&scale, h), &bias, eps),
            forward_only(&mut dev, &x, &mean, &var, &perturb(&scale, -h), &bias, eps)),
        (4, forward_only(&mut dev, &x, &mean, &var, &scale, &perturb(&bias, h), eps),
            forward_only(&mut dev, &x, &mean, &var, &scale, &perturb(&bias, -h), eps)),
    ];
    for (which, plus, minus) in checks.iter() {
        let numeric = (plus[i] - minus[i]) / (2.0 * h);
        let analytic = f(grads.get(ids[*which])[i]);
        assert!(
            close(numeric, analytic, 0.08),
            "operand {}: numeric {} vs analytic {}",
            which,
            numeric,
            analytic
        );
    }
}
