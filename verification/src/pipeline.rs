//! File Pipeline: composes the Type Classifier, the Signature Scanner and
//! the Entropy Analyzer into a single per-file verdict.
//!
//! A file whose prefix is not a recognized media type, or whose bytes
//! could not be read, is `Skipped`. A recognized file is searched for the
//! configured signatures; a hit is conclusive and yields
//! `Flagged(Signature)` without consulting the Entropy Analyzer. Otherwise
//! entropy above the configured threshold yields `Flagged(HighEntropy)`,
//! and anything else is `Clean`.

use vstd::prelude::*;
use crate::classify::{classify_prefix, spec_classify, TypeCategory};
use crate::entropy::{entropy_of, shannon_entropy};
use crate::signature::{any_signature, detect_script_patterns};

verus! {

/// Why a file was flagged.
#[derive(Clone, Copy, Debug, PartialEq, Eq, Structural)]
pub enum FlagReason {
    Signature,
    HighEntropy,
}

/// Per-file outcome of the pipeline.
#[derive(Clone, Copy, Debug, PartialEq, Eq, Structural)]
pub enum Verdict {
    Skipped,
    Clean,
    Flagged(FlagReason),
}

/// Immutable configuration of one scan: the signature catalog, the
/// entropy threshold in units of `2^-16` bits, and the worker count.
pub struct ScanConfig {
    pub signatures: Vec<Vec<u8>>,
    pub entropy_threshold: u64,
    pub workers: usize,
}

impl ScanConfig {
    /// A usable configuration has at least one worker.
    pub open spec fn wf(&self) -> bool {
        self.workers >= 1
    }

    pub fn new(signatures: Vec<Vec<u8>>, entropy_threshold: u64, workers: usize) -> (c: Self)
        requires
            workers >= 1,
        ensures
            c.wf(),
            c.signatures == signatures,
            c.entropy_threshold == entropy_threshold,
            c.workers == workers,
    {
        ScanConfig { signatures, entropy_threshold, workers }
    }
}

/// Verdict on the full content of a file already recognized as a media
/// type: a signature hit flags it, then entropy above the threshold, and
/// otherwise it is clean.
pub open spec fn spec_judge(content: Seq<u8>, signatures: Seq<Seq<u8>>, threshold: u64) -> Verdict {
    if any_signature(content, signatures) {
        Verdict::Flagged(FlagReason::Signature)
    } else if entropy_of(content) > threshold {
        Verdict::Flagged(FlagReason::HighEntropy)
    } else {
        Verdict::Clean
    }
}

/// Verdict of the whole pipeline on a file's bytes. `prefix` is the
/// file's leading bytes and `content` its full bytes; `None` stands for a
/// failed read, which skips the file.
pub open spec fn spec_verdict(
    prefix: Option<Seq<u8>>,
    content: Option<Seq<u8>>,
    signatures: Seq<Seq<u8>>,
    threshold: u64,
) -> Verdict {
    if spec_classify(prefix) == TypeCategory::Other {
        Verdict::Skipped
    } else {
        match content {
            Some(data) => spec_judge(data, signatures, threshold),
            None => Verdict::Skipped,
        }
    }
}

/// Deep inspection of a recognized file's content. The Entropy Analyzer
/// runs only when the Signature Scanner found nothing.
pub fn judge_content(content: &Vec<u8>, config: &ScanConfig) -> (v: Verdict)
    ensures
        v == spec_judge(content@, config.signatures.deep_view(), config.entropy_threshold),
{
    if detect_script_patterns(content, &config.signatures) {
        return Verdict::Flagged(FlagReason::Signature);
    }
    let e = shannon_entropy(content);
    if e > config.entropy_threshold {
        return Verdict::Flagged(FlagReason::HighEntropy);
    }
    Verdict::Clean
}

/// The full pipeline on one file's bytes: classify the prefix, then
/// deeply inspect the content only when the type is recognized.
pub fn process_file(prefix: &Option<Vec<u8>>, content: &Option<Vec<u8>>, config: &ScanConfig) -> (
    v: Verdict)
    ensures
        v == spec_verdict(
            prefix.deep_view(),
            content.deep_view(),
            config.signatures.deep_view(),
            config.entropy_threshold,
        ),
{
    let category = classify_prefix(prefix);
    if category == TypeCategory::Other {
        return Verdict::Skipped;
    }
    match content {
        Some(data) => {
            proof {
                assert(data.deep_view() =~= data@);
            }
            judge_content(data, config)
        },
        None => Verdict::Skipped,
    }
}

/// Law: a signature hit is conclusive. Once the Signature Scanner has
/// matched, the verdict is `Flagged(Signature)` whatever the threshold,
/// so the verdict owes nothing to the Entropy Analyzer.
pub proof fn lemma_signature_short_circuit(
    prefix: Option<Seq<u8>>,
    content: Seq<u8>,
    signatures: Seq<Seq<u8>>,
    t1: u64,
    t2: u64,
)
    requires
        spec_classify(prefix) != TypeCategory::Other,
        any_signature(content, signatures),
    ensures
        spec_verdict(prefix, Some(content), signatures, t1) == Verdict::Flagged(
            FlagReason::Signature,
        ),
        spec_verdict(prefix, Some(content), signatures, t1) == spec_verdict(
            prefix,
            Some(content),
            signatures,
            t2,
        ),
{
}

/// Law: a recognized, readable file gets exactly one of the three deep
/// verdicts, each if and only if its condition holds — `Flagged(Signature)`
/// on a signature hit, `Flagged(HighEntropy)` on entropy above the
/// threshold with no hit, and `Clean` otherwise; it is never `Skipped`.
pub proof fn lemma_recognized_verdict_cases(
    prefix: Option<Seq<u8>>,
    content: Seq<u8>,
    signatures: Seq<Seq<u8>>,
    threshold: u64,
)
    requires
        spec_classify(prefix) != TypeCategory::Other,
    ensures
        spec_verdict(prefix, Some(content), signatures, threshold) == Verdict::Flagged(
            FlagReason::Signature,
        ) <==> any_signature(content, signatures),
        spec_verdict(prefix, Some(content), signatures, threshold) == Verdict::Flagged(
            FlagReason::HighEntropy,
        ) <==> (!any_signature(content, signatures) && entropy_of(content) > threshold),
        spec_verdict(prefix, Some(content), signatures, threshold) == Verdict::Clean <==> (
        !any_signature(content, signatures) && entropy_of(content) <= threshold),
        spec_verdict(prefix, Some(content), signatures, threshold) != Verdict::Skipped,
{
}

/// Law: a file classified `Other` is never deeply inspected; its verdict
/// is `Skipped` for every content, catalog and threshold, never `Clean`
/// or `Flagged`.
pub proof fn lemma_unrecognized_skipped(
    prefix: Option<Seq<u8>>,
    content: Option<Seq<u8>>,
    signatures: Seq<Seq<u8>>,
    threshold: u64,
)
    requires
        spec_classify(prefix) == TypeCategory::Other,
    ensures
        spec_verdict(prefix, content, signatures, threshold) == Verdict::Skipped,
{
}

} // verus!
