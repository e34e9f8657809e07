//! The report on a squashed command.
use mish::metrics::{
    compute_ratio, EmitMetrics, PipelineMetrics, Ratio, SquasherPath, SquasherReport,
};

fn ratio(report: &SquasherReport) -> f64 {
    report.compression_ratio.part as f64 / report.compression_ratio.whole as f64
}

#[test]
fn report_from_pipeline_metrics() {
    let pm = PipelineMetrics {
        lines_in: 100,
        lines_out: 20,
        vte_stripped: 5,
        progress_stripped: 3,
        dedup_groups: 2,
        dedup_absorbed: 10,
        oreo_suppressed: 60,
        binary_detected: false,
    };
    let report = SquasherReport::from_pipeline(pm, 500, 120, 15, 8000, 1600);

    assert!(matches!(report.path_metrics, SquasherPath::Pipeline(_)));
    assert_eq!(report.wall_ms, 500);
    assert_eq!(report.squash_ms, 120);
    assert_eq!(report.grammar_load_ms, 15);
    assert_eq!(report.raw_bytes, 8000);
    assert_eq!(report.squashed_bytes, 1600);
    assert!((ratio(&report) - 0.2).abs() < f64::EPSILON);
}

#[test]
fn report_from_emit_metrics() {
    let em = EmitMetrics {
        noise_lines: 50,
        signal_lines: 10,
        outcome_lines: 5,
        unclassified_lines: 35,
    };
    let report = SquasherReport::from_emit(em, 300, 80, 10, 4000, 1000);

    assert!(matches!(report.path_metrics, SquasherPath::Emit(_)));
    assert_eq!(report.wall_ms, 300);
    assert_eq!(report.squash_ms, 80);
    assert_eq!(report.grammar_load_ms, 10);
    assert_eq!(report.raw_bytes, 4000);
    assert_eq!(report.squashed_bytes, 1000);
    assert!((ratio(&report) - 0.25).abs() < f64::EPSILON);
}

#[test]
fn compression_ratio_zero_raw_bytes() {
    let pm = PipelineMetrics::default();
    let report = SquasherReport::from_pipeline(pm, 0, 0, 0, 0, 0);

    // When raw_bytes is 0, ratio should be 1.0 (no compression)
    assert!((ratio(&report) - 1.0).abs() < f64::EPSILON);
}

#[test]
fn compression_ratio_no_reduction() {
    let pm = PipelineMetrics::default();
    let report = SquasherReport::from_pipeline(pm, 100, 50, 5, 500, 500);

    // Same size in and out = ratio 1.0
    assert!((ratio(&report) - 1.0).abs() < f64::EPSILON);
}

#[test]
fn pipeline_metrics_accessible() {
    let pm = PipelineMetrics {
        lines_in: 42,
        lines_out: 10,
        vte_stripped: 0,
        progress_stripped: 0,
        dedup_groups: 0,
        dedup_absorbed: 0,
        oreo_suppressed: 0,
        binary_detected: false,
    };
    let report = SquasherReport::from_pipeline(pm, 0, 0, 0, 0, 0);

    if let SquasherPath::Pipeline(ref m) = report.path_metrics {
        assert_eq!(m.lines_in, 42);
        assert_eq!(m.lines_out, 10);
    } else {
        panic!("expected Pipeline path");
    }
}

#[test]
fn emit_metrics_accessible() {
    let em = EmitMetrics {
        noise_lines: 7,
        signal_lines: 3,
        outcome_lines: 1,
        unclassified_lines: 0,
    };
    let report = SquasherReport::from_emit(em, 0, 0, 0, 0, 0);

    if let SquasherPath::Emit(ref m) = report.path_metrics {
        assert_eq!(m.noise_lines, 7);
        assert_eq!(m.signal_lines, 3);
    } else {
        panic!("expected Emit path");
    }
}

#[test]
fn default_report_has_sane_values() {
    let report = SquasherReport::default();

    assert!(matches!(report.path_metrics, SquasherPath::Pipeline(_)));
    assert_eq!(report.wall_ms, 0);
    assert_eq!(report.squash_ms, 0);
    assert_eq!(report.grammar_load_ms, 0);
    assert_eq!(report.raw_bytes, 0);
    assert_eq!(report.squashed_bytes, 0);
    assert!((ratio(&report) - 1.0).abs() < f64::EPSILON);
}

#[test]
fn ratios_are_kept_exactly() {
    assert_eq!(compute_ratio(8000, 1600), Ratio { part: 1600, whole: 8000 });
    assert_eq!(compute_ratio(0, 1600), Ratio { part: 1, whole: 1 });
}
