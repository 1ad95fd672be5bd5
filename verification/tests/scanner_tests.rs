use librarian::aggregate::{count_flagged, scan_files, DetectionCounter};
use librarian::classify::{classify_prefix, TypeCategory};
use librarian::pipeline::{judge_content, process_file, FlagReason, ScanConfig, Verdict};
use librarian::signature::detect_script_patterns;

fn catalog() -> Vec<Vec<u8>> {
    vec![b"<script".to_vec(), b"#!/bin/sh".to_vec(), b"powershell".to_vec()]
}

fn config_with_threshold(threshold: u64) -> ScanConfig {
    ScanConfig::new(catalog(), threshold, 2)
}

/// Maximum-entropy threshold, the reference default: 8 bits.
const MAX_THRESHOLD: u64 = 8 * 65536;

fn pseudo_random_bytes(len: usize, mut state: u64) -> Vec<u8> {
    let mut out = Vec::with_capacity(len);
    for _ in 0..len {
        state ^= state << 13;
        state ^= state >> 7;
        state ^= state << 17;
        out.push((state >> 32) as u8);
    }
    out
}

/// A buffer opening with the JPEG magic bytes, padded with `rest`.
fn jpeg_bytes(rest: &[u8]) -> Vec<u8> {
    let mut data = vec![0xFFu8, 0xD8u8, 0xFFu8];
    data.extend_from_slice(rest);
    data
}

#[test]
fn signature_found_wherever_embedded() {
    let sigs = catalog();
    let start: Vec<u8> = b"<script>alert(1)</script> trailing".to_vec();
    assert!(detect_script_patterns(&start, &sigs));
    let middle: Vec<u8> = b"leading bytes <script in the middle, more".to_vec();
    assert!(detect_script_patterns(&middle, &sigs));
    let end: Vec<u8> = b"everything before powershell".to_vec();
    assert!(detect_script_patterns(&end, &sigs));
}

#[test]
fn signature_absent_reports_no_match() {
    let sigs = catalog();
    let clean: Vec<u8> = b"an entirely harmless buffer".to_vec();
    assert!(!detect_script_patterns(&clean, &sigs));
    assert!(!detect_script_patterns(&Vec::new(), &sigs));
    assert!(!detect_script_patterns(&clean, &Vec::new()));
}

#[test]
fn signature_spanning_any_boundary_is_found() {
    // the signature straddles every possible internal split of the buffer
    let sigs = catalog();
    let sig = b"#!/bin/sh";
    for pad in 0..32usize {
        let mut buf = vec![b'x'; pad];
        buf.extend_from_slice(sig);
        buf.extend_from_slice(&vec![b'y'; 32 - pad]);
        assert!(detect_script_patterns(&buf, &sigs), "missed at offset {}", pad);
    }
}

#[test]
fn classifier_recognizes_jpeg_and_rejects_text() {
    let jpeg = jpeg_bytes(b"payload");
    assert_eq!(classify_prefix(&Some(jpeg)), TypeCategory::Image);
    let text: Vec<u8> = b"just some plain text".to_vec();
    assert_eq!(classify_prefix(&Some(text)), TypeCategory::Other);
    assert_eq!(classify_prefix(&None), TypeCategory::Other);
}

#[test]
fn ten_byte_jpeg_with_signature_is_flagged_signature() {
    let data = jpeg_bytes(b"<script");
    assert_eq!(data.len(), 10);
    let config = config_with_threshold(MAX_THRESHOLD);
    let verdict = process_file(&Some(data.clone()), &Some(data), &config);
    assert_eq!(verdict, Verdict::Flagged(FlagReason::Signature));
}

#[test]
fn random_jpeg_above_threshold_is_flagged_high_entropy() {
    // one megabyte of near-uniform bytes behind a valid image magic header
    let data = jpeg_bytes(&pseudo_random_bytes(1 << 20, 0xDEAD_BEEF_CAFE_F00D));
    let threshold = (79 * 65536) / 10;  // 7.9 bits
    let config = config_with_threshold(threshold);
    let prefix: Vec<u8> = data[..8192].to_vec();
    let verdict = process_file(&Some(prefix), &Some(data), &config);
    assert_eq!(verdict, Verdict::Flagged(FlagReason::HighEntropy));
}

#[test]
fn empty_file_is_skipped() {
    let config = config_with_threshold(MAX_THRESHOLD);
    let verdict = process_file(&Some(Vec::new()), &Some(Vec::new()), &config);
    assert_eq!(verdict, Verdict::Skipped);
}

#[test]
fn plain_text_with_signature_is_skipped() {
    // the classifier rejects non-media files before the scanner ever runs
    let data: Vec<u8> = b"hello <script>alert(1)</script> world".to_vec();
    let config = config_with_threshold(MAX_THRESHOLD);
    let verdict = process_file(&Some(data.clone()), &Some(data), &config);
    assert_eq!(verdict, Verdict::Skipped);
}

#[test]
fn unreadable_file_is_skipped() {
    let config = config_with_threshold(MAX_THRESHOLD);
    assert_eq!(process_file(&None, &Some(jpeg_bytes(b"x")), &config), Verdict::Skipped);
    assert_eq!(process_file(&Some(jpeg_bytes(b"x")), &None, &config), Verdict::Skipped);
}

#[test]
fn quiet_jpeg_below_threshold_is_clean() {
    let data = jpeg_bytes(&vec![0u8; 4096]);
    let config = config_with_threshold(MAX_THRESHOLD);
    let verdict = process_file(&Some(data.clone()), &Some(data), &config);
    assert_eq!(verdict, Verdict::Clean);
}

#[test]
fn signature_hit_short_circuits_the_entropy_stage() {
    // high-entropy content that also carries a signature: the signature
    // verdict wins even with a threshold of zero
    let mut noisy = pseudo_random_bytes(1 << 16, 77);
    noisy.extend_from_slice(b"<script");
    noisy.extend_from_slice(&pseudo_random_bytes(1 << 16, 78));
    let data = jpeg_bytes(&noisy);
    let config = config_with_threshold(0);
    let verdict = process_file(&Some(data.clone()), &Some(data), &config);
    assert_eq!(verdict, Verdict::Flagged(FlagReason::Signature));
}

#[test]
fn detection_counter_counts_increments() {
    let mut counter = DetectionCounter::new();
    assert_eq!(counter.get(), 0);
    counter.increment();
    counter.increment();
    counter.increment();
    assert_eq!(counter.get(), 3);
}

#[test]
fn count_flagged_tallies_only_flagged_verdicts() {
    let verdicts = vec![
        Verdict::Clean,
        Verdict::Flagged(FlagReason::Signature),
        Verdict::Skipped,
        Verdict::Flagged(FlagReason::HighEntropy),
        Verdict::Flagged(FlagReason::Signature),
        Verdict::Clean,
    ];
    assert_eq!(count_flagged(&verdicts), 3);
    assert_eq!(count_flagged(&Vec::new()), 0);
}

#[test]
fn tally_is_independent_of_verdict_order() {
    let forward = vec![
        Verdict::Flagged(FlagReason::Signature),
        Verdict::Clean,
        Verdict::Flagged(FlagReason::HighEntropy),
        Verdict::Skipped,
    ];
    let mut backward = forward.clone();
    backward.reverse();
    assert_eq!(count_flagged(&forward), count_flagged(&backward));
}

#[test]
fn scan_of_a_file_set_is_deterministic() {
    let sig_file = jpeg_bytes(b"runs powershell -enc payload");
    let clean_file = jpeg_bytes(&vec![1u8; 512]);
    let text_file: Vec<u8> = b"<script but plain text".to_vec();
    let entries = vec![
        (Some(sig_file.clone()), Some(sig_file)),
        (Some(clean_file.clone()), Some(clean_file)),
        (Some(text_file.clone()), Some(text_file)),
        (None, None),
    ];
    let config = config_with_threshold(MAX_THRESHOLD);
    let (verdicts, count) = scan_files(&entries, &config);
    assert_eq!(
        verdicts,
        vec![
            Verdict::Flagged(FlagReason::Signature),
            Verdict::Clean,
            Verdict::Skipped,
            Verdict::Skipped,
        ]
    );
    assert_eq!(count, 1);
    // a second pass over the same set yields the same tally
    let (verdicts_again, count_again) = scan_files(&entries, &config);
    assert_eq!(verdicts_again, verdicts);
    assert_eq!(count_again, count);
}

#[test]
fn threshold_comparison_is_strict() {
    // two equally frequent values: entropy is exactly one bit
    let content = vec![0u8, 1u8, 0u8, 1u8];
    let at_threshold = config_with_threshold(65536);
    assert_eq!(judge_content(&content, &at_threshold), Verdict::Clean);
    let below_threshold = config_with_threshold(65535);
    assert_eq!(
        judge_content(&content, &below_threshold),
        Verdict::Flagged(FlagReason::HighEntropy)
    );
}

#[test]
fn tally_is_independent_of_scan_order() {
    let sig_file = jpeg_bytes(b"<script payload");
    let clean_file = jpeg_bytes(&vec![9u8; 256]);
    let entries = vec![
        (Some(sig_file.clone()), Some(sig_file)),
        (Some(clean_file.clone()), Some(clean_file)),
        (None, None),
    ];
    let mut reversed = entries.clone();
    reversed.reverse();
    let config = config_with_threshold(MAX_THRESHOLD);
    let (_, count) = scan_files(&entries, &config);
    let (_, count_reversed) = scan_files(&reversed, &config);
    assert_eq!(count, 1);
    assert_eq!(count_reversed, count);
}

#[test]
fn scan_config_keeps_its_fields() {
    let config = ScanConfig::new(catalog(), 12345, 7);
    assert_eq!(config.signatures, catalog());
    assert_eq!(config.entropy_threshold, 12345);
    assert_eq!(config.workers, 7);
}
