use iqdb_quantize::binary::check_binary_distance;
use iqdb_quantize::product::{
    check_codebook_sample, check_product_training, check_query_tables, product_supports,
};
use iqdb_quantize::validate::{check_query, training_set};
use iqdb_quantize::{
    BqCode, ConfigReason, Metric, PqConfig, PqLayout, QuantizeError, Scheme, VectorShape,
};

fn shape(v: &[f32]) -> VectorShape {
    VectorShape { len: v.len(), finite: v.iter().all(|x| x.is_finite()) }
}

fn shapes(vectors: &[Vec<f32>]) -> Vec<VectorShape> {
    vectors.iter().map(|v| shape(v)).collect()
}

fn lens(vectors: &[Vec<f32>]) -> Vec<usize> {
    vectors.iter().map(|v| v.len()).collect()
}

fn pq_edge_training_data() -> Vec<Vec<f32>> {
    let mut data: Vec<Vec<f32>> = Vec::with_capacity(16);
    for centre in &[-2.0_f32, 0.0, 2.0, 4.0] {
        for j in 0..4 {
            let jitter = (j as f32) * 0.05;
            data.push((0..8).map(|k| centre + jitter + (k as f32) * 0.01).collect());
        }
    }
    data
}

fn train(config: PqConfig, data: &[Vec<f32>]) -> Result<PqLayout, QuantizeError> {
    check_product_training(&config, &shapes(data))
}

/// Codebooks of the layout's shape whose centroid `k` of codebook `m` is
/// filled with `100 * m + k`.
fn labelled_codebooks(layout: &PqLayout) -> Vec<Vec<Vec<f32>>> {
    (0..layout.n_subvectors())
        .map(|m| {
            (0..layout.n_centroids())
                .map(|k| vec![(100 * m + k) as f32; layout.sub_dim()])
                .collect()
        })
        .collect()
}

#[test]
fn rejects_empty_sample() {
    let err = check_codebook_sample(2, 3, &[]).unwrap_err();
    match err {
        QuantizeError::InvalidConfig { reason } => {
            assert!(reason.message().contains("non-empty sample"));
        }
        other => panic!("expected InvalidConfig, got {other:?}"),
    }
}

#[test]
fn rejects_sample_smaller_than_n_centroids() {
    let data = vec![vec![0.0_f32, 0.0], vec![1.0, 1.0]];
    let err = check_codebook_sample(2, 5, &lens(&data)).unwrap_err();
    match err {
        QuantizeError::InvalidConfig { reason } => {
            assert!(reason.message().contains("sample size >= n_centroids"));
        }
        other => panic!("expected InvalidConfig, got {other:?}"),
    }
}

#[test]
fn rejects_dim_mismatch() {
    let bad = vec![1.0_f32, 2.0, 3.0];
    let err = check_codebook_sample(2, 1, &lens(&[bad])).unwrap_err();
    match err {
        QuantizeError::DimensionMismatch { expected, found } => {
            assert_eq!(expected, 2);
            assert_eq!(found, 3);
        }
        other => panic!("expected DimensionMismatch, got {other:?}"),
    }
}

#[test]
fn codebook_sample_reports_the_first_bad_length() {
    assert_eq!(
        check_codebook_sample(2, 1, &[2, 3, 4]),
        Err(QuantizeError::DimensionMismatch { expected: 2, found: 3 }),
    );
    assert_eq!(check_codebook_sample(2, 3, &[2, 2, 2]), Ok(()));
}

#[test]
fn pq_train_rejects_empty_set() {
    let err = train(PqConfig::with_config(4, 4, 1), &[]).unwrap_err();
    assert!(
        matches!(err, QuantizeError::InvalidConfig { .. }),
        "expected InvalidConfig, got {err:?}",
    );
}

#[test]
fn pq_quantize_nan_inf_rejected() {
    let layout = train(PqConfig::with_config(4, 4, 1), &pq_edge_training_data()).unwrap();
    let trained = Some(layout.dim());

    let mut nan = vec![0.0_f32; 8];
    nan[3] = f32::NAN;
    assert_eq!(check_query(trained, Scheme::Product, &shape(&nan)).unwrap_err(), QuantizeError::InvalidVector);

    let mut inf = vec![0.0_f32; 8];
    inf[0] = f32::INFINITY;
    assert_eq!(check_query(trained, Scheme::Product, &shape(&inf)).unwrap_err(), QuantizeError::InvalidVector);

    let mut ninf = vec![0.0_f32; 8];
    ninf[7] = f32::NEG_INFINITY;
    assert_eq!(check_query(trained, Scheme::Product, &shape(&ninf)).unwrap_err(), QuantizeError::InvalidVector);
}

#[test]
fn pq_pre_train_methods_return_invalid_config() {
    let err = check_query(None, Scheme::Product, &shape(&[0.5_f32; 8])).unwrap_err();
    assert!(
        matches!(err, QuantizeError::InvalidConfig { .. }),
        "expected InvalidConfig, got {err:?}",
    );
}

#[test]
fn pq_distance_rejects_cosine_and_hamming() {
    let layout = train(PqConfig::with_config(4, 4, 1), &pq_edge_training_data()).unwrap();
    let v = vec![0.5_f32; 8];
    for metric in [Metric::Cosine, Metric::Hamming] {
        assert_eq!(
            check_query_tables(Some(layout.dim()), &shape(&v), metric).unwrap_err(),
            QuantizeError::InvalidMetric,
            "metric {metric:?} must be rejected",
        );
    }
}

#[test]
fn pq_rejects_non_divisible_dim() {
    let err = train(PqConfig::with_config(3, 4, 1), &pq_edge_training_data()).unwrap_err();
    assert!(
        matches!(err, QuantizeError::InvalidConfig { .. }),
        "expected InvalidConfig, got {err:?}",
    );
}

#[test]
fn pq_rejects_too_few_training_vectors() {
    let err = train(PqConfig::with_config(4, 32, 1), &pq_edge_training_data()).unwrap_err();
    assert!(
        matches!(err, QuantizeError::InvalidConfig { .. }),
        "expected InvalidConfig, got {err:?}",
    );
}

#[test]
fn pq_rejects_n_centroids_zero_or_over_256() {
    let data = pq_edge_training_data();
    assert!(matches!(
        train(PqConfig::with_config(4, 0, 1), &data).unwrap_err(),
        QuantizeError::InvalidConfig { .. }
    ));
    assert!(matches!(
        train(PqConfig::with_config(4, 257, 1), &data).unwrap_err(),
        QuantizeError::InvalidConfig { .. }
    ));
}

#[test]
fn pq_rejects_n_subvectors_zero() {
    let err = train(PqConfig::with_config(0, 4, 1), &pq_edge_training_data()).unwrap_err();
    assert!(
        matches!(err, QuantizeError::InvalidConfig { .. }),
        "expected InvalidConfig, got {err:?}",
    );
}

#[test]
fn pq_n_subvectors_one_ok() {
    let layout = train(PqConfig::with_config(1, 4, 1), &pq_edge_training_data()).unwrap();
    let code = layout.encode(&vec![2]);
    assert_eq!(code.n_subvectors(), 1);
    assert_eq!(code.len(), 1);
    assert_eq!(layout.check_code_for_decode(&code), Ok(()));
    let decoded = layout.gather(&labelled_codebooks(&layout), &code);
    assert_eq!(decoded.len(), 8);
}

#[test]
fn pq_n_subvectors_equals_dim_ok() {
    let layout = train(PqConfig::with_config(8, 4, 1), &pq_edge_training_data()).unwrap();
    let code = layout.encode(&vec![0, 1, 2, 3, 3, 2, 1, 0]);
    assert_eq!(code.n_subvectors(), 8);
    assert_eq!(code.len(), 8);
    assert_eq!(layout.check_code_for_decode(&code), Ok(()));
    let decoded = layout.gather(&labelled_codebooks(&layout), &code);
    assert_eq!(decoded.len(), 8);
}

#[test]
fn adc_table_rejects_foreign_code_shape() {
    let data: Vec<Vec<f32>> = (0..64).map(|i| vec![i as f32; 32]).collect();
    let layout8 = train(PqConfig::with_config(8, 32, 1), &data).unwrap();
    let layout4 = train(PqConfig::with_config(4, 32, 1), &data).unwrap();
    let foreign = layout4.encode(&vec![0, 1, 2, 3]);
    let err = layout8.check_code_for_scoring(&foreign).unwrap_err();
    assert!(matches!(err, QuantizeError::DimensionMismatch { .. }));
    assert_eq!(err, QuantizeError::DimensionMismatch { expected: 8, found: 4 });
}

#[test]
fn unsupported_metric_is_rejected_not_panicked() {
    let data = pq_edge_training_data();
    let layout = train(PqConfig::with_config(4, 4, 1), &data).unwrap();
    let err = check_query_tables(Some(layout.dim()), &shape(&data[0]), Metric::Cosine).unwrap_err();
    assert_eq!(err, QuantizeError::InvalidMetric);

    let trained = Some(training_set(&shapes(&data)).unwrap());
    let code = BqCode::from_bits(&vec![true; 8]);
    let err = check_binary_distance(trained, &shape(&data[0]), code.dim(), Metric::Euclidean)
        .unwrap_err();
    assert_eq!(err, QuantizeError::InvalidMetric);
}

#[test]
fn config_reports_its_shape() {
    let pq = PqConfig::new();
    assert_eq!(pq.n_subvectors(), 8);
    assert_eq!(pq.n_centroids(), 256);
    assert_eq!(pq.seed(), 0);
    let pq = PqConfig::with_config(16, 256, 42);
    assert_eq!(pq.n_subvectors(), 16);
    assert_eq!(pq.n_centroids(), 256);
    assert_eq!(pq.seed(), 42);
}

#[test]
fn codebook_seeds_wrap() {
    let pq = PqConfig::with_config(2, 4, u64::MAX);
    assert_eq!(pq.codebook_seed(0), u64::MAX);
    assert_eq!(pq.codebook_seed(1), 0);
    assert_eq!(PqConfig::with_config(2, 4, 7).codebook_seed(3), 10);
}

#[test]
fn shape_checks_in_order() {
    let cfg = |m, k| PqConfig::with_config(m, k, 0);
    let reason = |e: QuantizeError| match e {
        QuantizeError::InvalidConfig { reason } => reason,
        other => panic!("expected InvalidConfig, got {other:?}"),
    };
    assert_eq!(reason(cfg(0, 0).validate_shape(8, 1).unwrap_err()), ConfigReason::ZeroSubvectors);
    assert_eq!(reason(cfg(2, 0).validate_shape(8, 1).unwrap_err()), ConfigReason::ZeroCentroids);
    assert_eq!(reason(cfg(2, 257).validate_shape(7, 1).unwrap_err()), ConfigReason::TooManyCentroids);
    assert_eq!(
        reason(cfg(2, 4).validate_shape(7, 1).unwrap_err()),
        ConfigReason::DimNotMultipleOfSubvectors,
    );
    assert_eq!(
        reason(cfg(2, 4).validate_shape(0, 10).unwrap_err()),
        ConfigReason::DimNotMultipleOfSubvectors,
    );
    assert_eq!(reason(cfg(2, 4).validate_shape(8, 3).unwrap_err()), ConfigReason::TooFewTrainingVectors);
    let layout = cfg(2, 4).validate_shape(8, 4).unwrap();
    assert_eq!(
        (layout.dim(), layout.n_subvectors(), layout.sub_dim(), layout.n_centroids()),
        (8, 2, 4, 4),
    );
    assert_eq!(cfg(2, 256).validate_shape(8, 256).unwrap().n_centroids(), 256);
}

#[test]
fn training_errors_come_before_shape_errors() {
    let data = vec![vec![0.0_f32; 8], vec![0.0_f32; 7]];
    assert_eq!(
        train(PqConfig::with_config(0, 4, 1), &data),
        Err(QuantizeError::DimensionMismatch { expected: 8, found: 7 }),
    );
}

#[test]
fn subvector_bounds_tile_the_vector() {
    let layout = PqConfig::with_config(4, 4, 0).validate_shape(12, 4).unwrap();
    assert_eq!(layout.subvector_bounds(0), (0, 3));
    assert_eq!(layout.subvector_bounds(3), (9, 12));
}

#[test]
fn gather_lays_selected_centroids_end_to_end() {
    let layout = PqConfig::with_config(2, 3, 0).validate_shape(4, 3).unwrap();
    let code = layout.encode(&vec![2, 1]);
    assert_eq!(code.as_bytes(), &[2, 1]);
    assert_eq!(code.dim(), 4);
    let decoded = layout.gather(&labelled_codebooks(&layout), &code);
    assert_eq!(decoded, vec![2.0, 2.0, 101.0, 101.0]);
}

#[test]
fn select_entries_reads_one_entry_per_row() {
    let layout = PqConfig::with_config(2, 3, 0).validate_shape(4, 3).unwrap();
    let table: Vec<f32> = vec![0.5, 1.5, 2.5, 10.0, 11.0, 12.0];
    let code = layout.encode(&vec![2, 0]);
    assert_eq!(layout.select_entries(&table, &code), Ok(vec![2.5, 10.0]));
}

#[test]
fn decode_and_scoring_checks_order_differently() {
    let layout = PqConfig::with_config(2, 3, 0).validate_shape(4, 3).unwrap();
    let other = PqConfig::with_config(3, 3, 0).validate_shape(6, 3).unwrap();
    let code = other.encode(&vec![0, 0, 0]);
    assert_eq!(
        layout.check_code_for_decode(&code),
        Err(QuantizeError::DimensionMismatch { expected: 4, found: 6 }),
    );
    assert_eq!(
        layout.check_code_for_scoring(&code),
        Err(QuantizeError::DimensionMismatch { expected: 2, found: 3 }),
    );
}

#[test]
fn product_metric_support_matrix() {
    assert!(product_supports(Metric::Euclidean));
    assert!(product_supports(Metric::DotProduct));
    assert!(product_supports(Metric::Manhattan));
    assert!(!product_supports(Metric::Cosine));
    assert!(!product_supports(Metric::Hamming));
    assert!(!product_supports(Metric::Unrecognized));
}

#[test]
fn pq_code_accessors() {
    let layout = PqConfig::with_config(2, 4, 0).validate_shape(4, 4).unwrap();
    let code = layout.encode(&vec![3, 1]);
    assert_eq!(code.dim(), 4);
    assert_eq!(code.n_subvectors(), 2);
    assert_eq!(code.len(), 2);
    assert!(!code.is_empty());
    assert_eq!(code.as_bytes(), &[3, 1]);
    let copy = code.clone();
    assert_eq!(copy, code);
}

fn pq_smoke_training_data() -> Vec<Vec<f32>> {
    let mut data: Vec<Vec<f32>> = Vec::with_capacity(32);
    for centre in &[0.0_f32, 5.0, 10.0, 15.0] {
        for j in 0..8 {
            let jitter = (j as f32) * 0.1 - 0.35;
            let v = (0..8).map(|k| centre + jitter + (k as f32) * 0.01).collect();
            data.push(v);
        }
    }
    data
}

#[test]
fn pq_build_query_tables_rejects_unsupported_metrics() {
    let layout = train(PqConfig::with_config(4, 4, 17), &pq_smoke_training_data()).unwrap();
    let q = vec![1.0_f32, 1.1, 1.2, 1.3, 1.4, 1.5, 1.6, 1.7];
    for metric in [Metric::Cosine, Metric::Hamming] {
        let err = check_query_tables(Some(layout.dim()), &shape(&q), metric).unwrap_err();
        assert!(matches!(err, QuantizeError::InvalidMetric));
    }
}

#[test]
fn code_from_a_larger_codebook_scores_inside_the_table_and_never_panics() {
    // M = 2, K = 4: the table holds rows [0..4) and [4..8).
    let layout = PqConfig::with_config(2, 4, 0).validate_shape(4, 4).unwrap();
    let larger = PqConfig::with_config(2, 256, 0).validate_shape(4, 256).unwrap();
    let rows: Vec<Vec<f32>> = vec![vec![0.0, 1.0, 2.0, 3.0], vec![4.0, 5.0, 6.0, 7.0]];
    let table = layout.assemble_table(&rows);
    assert_eq!(table, vec![0.0, 1.0, 2.0, 3.0, 4.0, 5.0, 6.0, 7.0]);

    // Same M and dim: the shape check passes, and entry m * K + code[m]
    // is read while it lies inside the table.
    let foreign = larger.encode(&vec![5, 0]);
    assert_eq!(layout.check_code_for_scoring(&foreign), Ok(()));
    assert_eq!(layout.select_entries(&table, &foreign), Ok(vec![5.0, 4.0]));

    // An entry beyond the table is rejected, never read.
    let beyond = larger.encode(&vec![0, 4]);
    assert_eq!(layout.check_code_for_scoring(&beyond), Ok(()));
    assert_eq!(layout.select_entries(&table, &beyond), Err(QuantizeError::InvalidVector));
    let far = larger.encode(&vec![200, 0]);
    assert_eq!(layout.select_entries(&table, &far), Err(QuantizeError::InvalidVector));

    // Decoding has no neighbouring row to fall into: any index >= K is
    // rejected.
    assert_eq!(layout.check_code_indices(&foreign), Err(QuantizeError::InvalidVector));
    assert_eq!(layout.check_code_for_decode(&foreign), Err(QuantizeError::InvalidVector));
    let own = larger.encode(&vec![3, 3]);
    assert_eq!(layout.check_code_indices(&own), Ok(()));
    assert_eq!(layout.check_code_for_decode(&own), Ok(()));
    assert_eq!(layout.select_entries(&table, &own), Ok(vec![3.0, 7.0]));
}

#[test]
fn shape_errors_come_before_index_errors() {
    let layout = PqConfig::with_config(2, 4, 0).validate_shape(4, 4).unwrap();
    let other = PqConfig::with_config(3, 256, 0).validate_shape(6, 256).unwrap();
    let code = other.encode(&vec![200, 200, 200]);
    assert_eq!(
        layout.check_code_for_decode(&code),
        Err(QuantizeError::DimensionMismatch { expected: 4, found: 6 }),
    );
    assert_eq!(
        layout.check_code_for_scoring(&code),
        Err(QuantizeError::DimensionMismatch { expected: 2, found: 3 }),
    );
}
