//! Engine-level tests: the gradient store's lazy idempotent allocation, the
//! strided cursor, and the global pooling modules.

use gradtape::pool::AvgPoolGlobal;
use gradtape::pool::MaxPoolGlobal;
use gradtape::pool::MinPoolGlobal;
use gradtape::shape::NdIndex;
use gradtape::store::Gradients;
use gradtape::tensor::Cpu;
use gradtape::tensor::GhostRef;
use gradtape::DeviceKind;
use gradtape::Error;

fn b(x: f32) -> u16 {
    half::bf16::from_f32(x).to_bits()
}

fn f(bits: u16) -> f32 {
    half::bf16::from_bits(bits).to_f32()
}

fn vec_b(xs: &[f32]) -> Vec<u16> {
    xs.iter().map(|&x| b(x)).collect()
}

/// Allocation is lazy, zero-filled, and idempotent: a second `alloc_for`
/// with the same ghost reference leaves the buffer's contents unchanged.
#[test]
fn alloc_for_is_idempotent() {
    let mut store = Gradients::new();
    assert!(store.is_empty());
    let g = GhostRef { id: 7, len: 3, dev: DeviceKind::Cpu };
    store.alloc_for(&g).unwrap();
    assert!(store.contains(7));
    assert_eq!(store.get(7).as_slice(), &[0u16, 0, 0][..]);

    // Scribble into the buffer, then allocate again: nothing is reset.
    let mut buf = store.take(7);
    buf[1] = b(5.0);
    store.put(7, buf);
    store.alloc_for(&g).unwrap();
    assert_eq!(store.get(7).as_slice(), &[0u16, b(5.0), 0][..]);
}

/// Taking a buffer removes it; putting it back restores it.
#[test]
fn store_take_put_roundtrip() {
    let mut store = Gradients::new();
    let g1 = GhostRef { id: 1, len: 2, dev: DeviceKind::Cpu };
    let g2 = GhostRef { id: 2, len: 1, dev: DeviceKind::Cpu };
    store.alloc_for(&g1).unwrap();
    store.alloc_for(&g2).unwrap();
    let buf = store.take(1);
    assert!(!store.contains(1));
    assert!(store.contains(2));
    store.put(1, buf);
    assert!(store.contains(1));
    assert_eq!(store.get(1).len(), 2);
}

/// The strided cursor yields each logical position's physical offset in
/// row-major order, then `None`; a zero stride broadcasts.
#[test]
fn cursor_yields_row_major_offsets() {
    let shape: Vec<usize> = vec![2, 3];
    let strides: Vec<usize> = vec![3, 1];
    let mut idx = NdIndex::new(&shape, &strides);
    let mut seen: Vec<usize> = Vec::new();
    while let Some(off) = idx.next() {
        seen.push(off);
    }
    assert_eq!(seen, vec![0, 1, 2, 3, 4, 5]);

    let bcast: Vec<usize> = vec![0, 0];
    let mut idx2 = NdIndex::new(&shape, &bcast);
    let mut seen2: Vec<usize> = Vec::new();
    while let Some(off) = idx2.next() {
        seen2.push(off);
    }
    assert_eq!(seen2, vec![0, 0, 0, 0, 0, 0]);
}

/// Average pooling fully reduces the trailing height and width dimensions.
#[test]
fn avg_pool_reduces_image() {
    let mut dev = Cpu::new();
    let t = dev.tensor_from_vec(
        vec_b(&[1.0, 2.0, 3.0, 4.0, 5.0, 6.0, 7.0, 8.0]),
        vec![2, 2, 2],
    );
    let out = AvgPoolGlobal.try_forward(&mut dev, &t).unwrap();
    assert_eq!(out.shape.as_slice(), &[2usize][..]);
    assert_eq!(f(out.read(0)), 2.5);
    assert_eq!(f(out.read(1)), 6.5);
}

/// Max pooling keeps each image's largest element; a 4d input keeps batch
/// and channel dimensions.
#[test]
fn max_pool_reduces_image() {
    let mut dev = Cpu::new();
    let t = dev.tensor_from_vec(
        vec_b(&[1.0, 4.0, 3.0, 2.0, 8.0, 5.0, 7.0, 6.0]),
        vec![2, 1, 2, 2],
    );
    let out = MaxPoolGlobal.try_forward(&mut dev, &t).unwrap();
    assert_eq!(out.shape.as_slice(), &[2usize, 1][..]);
    assert_eq!(f(out.read(0)), 4.0);
    assert_eq!(f(out.read(1)), 8.0);
}

/// Min pooling keeps each image's smallest element.
#[test]
fn min_pool_reduces_image() {
    let mut dev = Cpu::new();
    let t = dev.tensor_from_vec(
        vec_b(&[1.0, 4.0, 3.0, 2.0, 8.0, 5.0, 7.0, 6.0]),
        vec![2, 2, 2],
    );
    let out = MinPoolGlobal.try_forward(&mut dev, &t).unwrap();
    assert_eq!(f(out.read(0)), 1.0);
    assert_eq!(f(out.read(1)), 5.0);
}

/// A rank the pools do not take is rejected, not mangled.
#[test]
fn pool_rank_mismatch_error() {
    let mut dev = Cpu::new();
    let t = dev.tensor_from_vec(vec_b(&[1.0, 2.0]), vec![2]);
    let r = AvgPoolGlobal.try_forward(&mut dev, &t);
    assert_eq!(r.err().unwrap(), Error::ShapeMismatch);
}
