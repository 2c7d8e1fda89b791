use iqdb_quantize::validate::{
    check_code, check_query, check_query_and_code, dim_eq, finite_non_empty, require_trained,
    training_set,
};
use iqdb_quantize::{ConfigReason, QuantizeError, Scheme, Sq8Code, VectorShape};

fn shape(v: &[f32]) -> VectorShape {
    VectorShape { len: v.len(), finite: v.iter().all(|x| x.is_finite()) }
}

fn shapes(vectors: &[&[f32]]) -> Vec<VectorShape> {
    vectors.iter().map(|v| shape(v)).collect()
}

/// The trained dimension of the standard unit `[0, 1, 2]`, `[1, 0, 1]`.
fn trained_unit() -> Option<usize> {
    let a = [0.0_f32, 1.0, 2.0];
    let b = [1.0_f32, 0.0, 1.0];
    Some(training_set(&shapes(&[&a[..], &b[..]])).unwrap())
}

#[test]
fn scalar_quantize_before_train_returns_invalid_config() {
    let err = check_query(None, Scheme::Scalar, &shape(&[0.5_f32, 0.5])).unwrap_err();
    assert!(
        matches!(err, QuantizeError::InvalidConfig { .. }),
        "expected InvalidConfig, got {err:?}",
    );
}

#[test]
fn scalar_distance_before_train_returns_invalid_config() {
    let code = Sq8Code::from_bytes(vec![0, 0, 0]);
    let err = check_query_and_code(None, Scheme::Scalar, &shape(&[0.5_f32, 0.5, 0.5]), code.len())
        .unwrap_err();
    assert!(
        matches!(err, QuantizeError::InvalidConfig { .. }),
        "expected InvalidConfig, got {err:?}",
    );
}

#[test]
fn scalar_dequantize_before_train_returns_invalid_config() {
    let code = Sq8Code::from_bytes(vec![0, 0]);
    let err = check_code(None, Scheme::Scalar, code.len()).unwrap_err();
    assert!(
        matches!(err, QuantizeError::InvalidConfig { .. }),
        "expected InvalidConfig, got {err:?}",
    );
}

#[test]
fn scalar_train_empty_set_returns_invalid_config() {
    let err = training_set(&[]).unwrap_err();
    assert!(
        matches!(err, QuantizeError::InvalidConfig { .. }),
        "expected InvalidConfig, got {err:?}",
    );
}

#[test]
fn scalar_train_inconsistent_dim_returns_dimension_mismatch() {
    let a = [0.0_f32, 1.0, 2.0];
    let b = [1.0_f32, 0.0];
    let err = training_set(&shapes(&[&a[..], &b[..]])).unwrap_err();
    assert_eq!(err, QuantizeError::DimensionMismatch { expected: 3, found: 2 });
}

#[test]
fn scalar_train_non_finite_returns_invalid_vector() {
    let v = [1.0_f32, f32::NAN];
    assert_eq!(training_set(&shapes(&[&v[..]])).unwrap_err(), QuantizeError::InvalidVector);
}

#[test]
fn scalar_quantize_dim_mismatch_returns_dimension_mismatch() {
    let err = check_query(trained_unit(), Scheme::Scalar, &shape(&[0.5_f32, 0.5])).unwrap_err();
    assert_eq!(err, QuantizeError::DimensionMismatch { expected: 3, found: 2 });
}

#[test]
fn scalar_quantize_non_finite_returns_invalid_vector() {
    let err = check_query(trained_unit(), Scheme::Scalar, &shape(&[0.5_f32, f32::INFINITY, 0.5]))
        .unwrap_err();
    assert_eq!(err, QuantizeError::InvalidVector);
}

#[test]
fn sq8_train_rejects_empty_set() {
    let err = training_set(&[]).unwrap_err();
    assert!(
        matches!(err, QuantizeError::InvalidConfig { .. }),
        "expected InvalidConfig, got {err:?}",
    );
}

#[test]
fn sq8_quantize_empty_vector_rejected() {
    let trained = Some(training_set(&shapes(&[&[0.0_f32, 1.0][..]])).unwrap());
    let empty: [f32; 0] = [];
    assert_eq!(
        check_query(trained, Scheme::Scalar, &shape(&empty)).unwrap_err(),
        QuantizeError::InvalidVector,
    );
}

#[test]
fn sq8_quantize_nan_inf_rejected() {
    let trained = Some(training_set(&shapes(&[&[0.0_f32, 1.0][..]])).unwrap());
    for bad in [f32::NAN, f32::INFINITY, f32::NEG_INFINITY] {
        assert_eq!(
            check_query(trained, Scheme::Scalar, &shape(&[1.0, bad])).unwrap_err(),
            QuantizeError::InvalidVector,
        );
    }
}

#[test]
fn sq8_pre_train_methods_return_invalid_config() {
    let err = check_query(None, Scheme::Scalar, &shape(&[0.5_f32, 0.5])).unwrap_err();
    assert!(
        matches!(err, QuantizeError::InvalidConfig { .. }),
        "expected InvalidConfig, got {err:?}",
    );
}

/// Per-dimension `(min, scale)` calibration of a training set, with a zero
/// scale on a zero-range dimension.
fn calibrate(set: &[&[f32]]) -> Vec<(f32, f32)> {
    let dim = set[0].len();
    (0..dim)
        .map(|i| {
            let lo = set.iter().map(|v| v[i]).fold(f32::INFINITY, f32::min);
            let hi = set.iter().map(|v| v[i]).fold(f32::NEG_INFINITY, f32::max);
            let range = hi - lo;
            (lo, if range > 0.0 { range / 255.0 } else { 0.0 })
        })
        .collect()
}

fn sq8_quantize(trained: Option<usize>, cal: &[(f32, f32)], v: &[f32]) -> Result<Sq8Code, QuantizeError> {
    check_query(trained, Scheme::Scalar, &shape(v))?;
    let bytes = v
        .iter()
        .zip(cal)
        .map(|(&x, &(lo, scale))| {
            if scale <= 0.0 {
                0
            } else {
                ((x - lo) / scale).round().clamp(0.0, 255.0) as u8
            }
        })
        .collect();
    Ok(Sq8Code::from_bytes(bytes))
}

fn sq8_dequantize(trained: Option<usize>, cal: &[(f32, f32)], code: &Sq8Code) -> Result<Vec<f32>, QuantizeError> {
    check_code(trained, Scheme::Scalar, code.len())?;
    Ok(code
        .as_bytes()
        .iter()
        .zip(cal)
        .map(|(&b, &(lo, scale))| if scale <= 0.0 { lo } else { lo + f32::from(b) * scale })
        .collect())
}

#[test]
fn sq8_train_accepts_single_vector() {
    let set: [&[f32]; 1] = [&[1.0_f32, 2.0, 3.0]];
    let trained = Some(training_set(&shapes(&set)).unwrap());
    let cal = calibrate(&set);
    // Every dim has max == min -> zero-range lane, every code byte is 0.
    let code = sq8_quantize(trained, &cal, &[1.0_f32, 2.0, 3.0]).unwrap();
    assert!(code.as_bytes().iter().all(|&b| b == 0));
    let decoded = sq8_dequantize(trained, &cal, &code).unwrap();
    assert_eq!(decoded, vec![1.0, 2.0, 3.0]);
}

#[test]
fn untrained_error_names_the_scheme() {
    let err = require_trained(None, Scheme::Scalar).unwrap_err();
    assert_eq!(err, QuantizeError::InvalidConfig { reason: ConfigReason::NotTrained(Scheme::Scalar) });
    match err {
        QuantizeError::InvalidConfig { reason } => {
            assert_eq!(reason.message(), "ScalarQuantizer has not been trained");
        }
        other => panic!("expected InvalidConfig, got {other:?}"),
    }
    assert_eq!(require_trained(Some(4), Scheme::Scalar), Ok(4));
}

#[test]
fn empty_training_set_message() {
    match training_set(&[]).unwrap_err() {
        QuantizeError::InvalidConfig { reason } => {
            assert_eq!(reason.message(), "quantizer training set is empty");
        }
        other => panic!("expected InvalidConfig, got {other:?}"),
    }
}

#[test]
fn first_bad_training_vector_decides_the_error() {
    let a = VectorShape { len: 3, finite: true };
    let wrong_len = VectorShape { len: 2, finite: true };
    let non_finite = VectorShape { len: 3, finite: false };
    // The dimension mismatch comes first.
    assert_eq!(
        training_set(&[a, wrong_len, non_finite]),
        Err(QuantizeError::DimensionMismatch { expected: 3, found: 2 }),
    );
    // The non-finite vector comes first.
    assert_eq!(training_set(&[a, non_finite, wrong_len]), Err(QuantizeError::InvalidVector));
    // An empty vector is invalid even when its length matches nothing.
    let empty = VectorShape { len: 0, finite: true };
    assert_eq!(training_set(&[a, empty]), Err(QuantizeError::InvalidVector));
    assert_eq!(training_set(&[empty, a]), Err(QuantizeError::InvalidVector));
    assert_eq!(training_set(&[a, a, a]), Ok(3));
}

#[test]
fn validation_primitives() {
    assert_eq!(finite_non_empty(&VectorShape { len: 2, finite: true }), Ok(()));
    assert_eq!(finite_non_empty(&VectorShape { len: 0, finite: true }), Err(QuantizeError::InvalidVector));
    assert_eq!(finite_non_empty(&VectorShape { len: 2, finite: false }), Err(QuantizeError::InvalidVector));
    assert_eq!(dim_eq(4, 4), Ok(()));
    assert_eq!(dim_eq(4, 5), Err(QuantizeError::DimensionMismatch { expected: 4, found: 5 }));
}

#[test]
fn scalar_distance_checks_the_code_after_the_query() {
    let trained = trained_unit();
    assert_eq!(
        check_query_and_code(trained, Scheme::Scalar, &shape(&[0.5, 0.5, 0.5]), 2),
        Err(QuantizeError::DimensionMismatch { expected: 3, found: 2 }),
    );
    assert_eq!(
        check_query_and_code(trained, Scheme::Scalar, &shape(&[0.5, 0.5]), 2),
        Err(QuantizeError::DimensionMismatch { expected: 3, found: 2 }),
    );
    assert_eq!(check_query_and_code(trained, Scheme::Scalar, &shape(&[0.5, 0.5, 0.5]), 3), Ok(3));
}

#[test]
fn scalar_dequantize_rejects_foreign_code() {
    let code = Sq8Code::from_bytes(vec![1, 2]);
    assert_eq!(
        check_code(trained_unit(), Scheme::Scalar, code.len()),
        Err(QuantizeError::DimensionMismatch { expected: 3, found: 2 }),
    );
}

#[test]
fn sq8_code_accessors() {
    let code = Sq8Code::from_bytes(vec![0, 128, 255]);
    assert_eq!(code.len(), 3);
    assert!(!code.is_empty());
    assert_eq!(code.as_bytes(), &[0, 128, 255]);
    assert!(Sq8Code::from_bytes(Vec::new()).is_empty());
}
