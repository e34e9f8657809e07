//! What squashing the output of a command did: lines, bytes and times.
use vstd::prelude::*;

verus! {

/// What each stage of the pipeline did.
#[derive(Debug, Clone, Copy, PartialEq, Eq, Structural)]
pub struct PipelineMetrics {
    pub lines_in: u64,
    pub lines_out: u64,
    pub vte_stripped: u64,
    pub progress_stripped: u64,
    pub dedup_groups: u64,
    pub dedup_absorbed: u64,
    pub oreo_suppressed: u64,
    pub binary_detected: bool,
}

impl Default for PipelineMetrics {
    fn default() -> (r: Self)
        ensures
            r == (PipelineMetrics {
                lines_in: 0,
                lines_out: 0,
                vte_stripped: 0,
                progress_stripped: 0,
                dedup_groups: 0,
                dedup_absorbed: 0,
                oreo_suppressed: 0,
                binary_detected: false,
            }),
    {
        PipelineMetrics {
            lines_in: 0,
            lines_out: 0,
            vte_stripped: 0,
            progress_stripped: 0,
            dedup_groups: 0,
            dedup_absorbed: 0,
            oreo_suppressed: 0,
            binary_detected: false,
        }
    }
}

/// How the lines were classified.
#[derive(Debug, Clone, Copy, PartialEq, Eq, Structural)]
pub struct EmitMetrics {
    pub noise_lines: u64,
    pub signal_lines: u64,
    pub outcome_lines: u64,
    pub unclassified_lines: u64,
}

/// The way that the output went.
#[derive(Debug, Clone, Copy, PartialEq, Eq, Structural)]
pub enum SquasherPath {
    Pipeline(PipelineMetrics),
    Emit(EmitMetrics),
}

/// A quotient, kept as its two parts.
#[derive(Debug, Clone, Copy, PartialEq, Eq, Structural)]
pub struct Ratio {
    pub part: u64,
    pub whole: u64,
}

/// Times, sizes and counts of one squashed command.
#[derive(Debug, Clone, Copy, PartialEq, Eq, Structural)]
pub struct SquasherReport {
    pub path_metrics: SquasherPath,
    pub wall_ms: u64,
    pub squash_ms: u64,
    pub grammar_load_ms: u64,
    pub raw_bytes: u64,
    pub squashed_bytes: u64,
    pub compression_ratio: Ratio,
}

/// The bytes left of each byte that came in; one where none came in.
pub open spec fn ratio(raw: u64, squashed: u64) -> Ratio {
    if raw == 0 {
        Ratio { part: 1, whole: 1 }
    } else {
        Ratio { part: squashed, whole: raw }
    }
}

/// The bytes left of each byte that came in; one where none came in.
pub fn compute_ratio(raw: u64, squashed: u64) -> (r: Ratio)
    ensures
        r == ratio(raw, squashed),
        r.whole > 0,
{
    if raw == 0 {
        Ratio { part: 1, whole: 1 }
    } else {
        Ratio { part: squashed, whole: raw }
    }
}

impl SquasherReport {
    /// The report of output that went through the pipeline.
    pub fn from_pipeline(
        metrics: PipelineMetrics,
        wall_ms: u64,
        squash_ms: u64,
        grammar_load_ms: u64,
        raw_bytes: u64,
        squashed_bytes: u64,
    ) -> (r: Self)
        ensures
            r == (SquasherReport {
                path_metrics: SquasherPath::Pipeline(metrics),
                wall_ms,
                squash_ms,
                grammar_load_ms,
                raw_bytes,
                squashed_bytes,
                compression_ratio: ratio(raw_bytes, squashed_bytes),
            }),
    {
        SquasherReport {
            path_metrics: SquasherPath::Pipeline(metrics),
            wall_ms,
            squash_ms,
            grammar_load_ms,
            raw_bytes,
            squashed_bytes,
            compression_ratio: compute_ratio(raw_bytes, squashed_bytes),
        }
    }

    /// The report of output that was classified line by line.
    pub fn from_emit(
        metrics: EmitMetrics,
        wall_ms: u64,
        squash_ms: u64,
        grammar_load_ms: u64,
        raw_bytes: u64,
        squashed_bytes: u64,
    ) -> (r: Self)
        ensures
            r == (SquasherReport {
                path_metrics: SquasherPath::Emit(metrics),
                wall_ms,
                squash_ms,
                grammar_load_ms,
                raw_bytes,
                squashed_bytes,
                compression_ratio: ratio(raw_bytes, squashed_bytes),
            }),
    {
        SquasherReport {
            path_metrics: SquasherPath::Emit(metrics),
            wall_ms,
            squash_ms,
            grammar_load_ms,
            raw_bytes,
            squashed_bytes,
            compression_ratio: compute_ratio(raw_bytes, squashed_bytes),
        }
    }
}

impl Default for SquasherReport {
    fn default() -> (r: Self)
        ensures
            r.path_metrics is Pipeline,
            r.path_metrics->Pipeline_0.lines_in == 0,
            r.path_metrics->Pipeline_0.lines_out == 0,
            r.path_metrics->Pipeline_0.vte_stripped == 0,
            r.path_metrics->Pipeline_0.progress_stripped == 0,
            r.path_metrics->Pipeline_0.dedup_groups == 0,
            r.path_metrics->Pipeline_0.dedup_absorbed == 0,
            r.path_metrics->Pipeline_0.oreo_suppressed == 0,
            !r.path_metrics->Pipeline_0.binary_detected,
            r.wall_ms == 0,
            r.squash_ms == 0,
            r.grammar_load_ms == 0,
            r.raw_bytes == 0,
            r.squashed_bytes == 0,
            r.compression_ratio == ratio(0, 0),
    {
        SquasherReport::from_pipeline(PipelineMetrics::default(), 0, 0, 0, 0, 0)
    }
}

} // verus!
