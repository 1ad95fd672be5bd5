//! Detection Aggregator and Scan Scheduler core: a running count of
//! flagged files, incremented once per `Flagged` verdict and read once at
//! scan completion, and the scan of a pre-enumerated file list.
//!
//! The tally of a scan depends only on the multiset of verdicts, never on
//! the order workers report them, so dispatching the same file list over
//! any number of workers yields the same final count.

use vstd::prelude::*;
use crate::pipeline::{spec_verdict, process_file, ScanConfig, Verdict, FlagReason};

verus! {

broadcast use
    vstd::seq_lib::group_to_multiset_ensures,
    vstd::multiset::group_multiset_axioms,
;

/// Whether a verdict flags the file.
pub open spec fn is_flagged(v: Verdict) -> bool {
    v is Flagged
}

/// How many verdicts of the sequence flag their file.
pub open spec fn flagged_count(vs: Seq<Verdict>) -> nat
    decreases vs.len(),
{
    if vs.len() == 0 {
        0
    } else {
        flagged_count(vs.drop_last()) + if is_flagged(vs.last()) {
            1nat
        } else {
            0nat
        }
    }
}

/// The flagged-file counter: starts at zero, increments by one per
/// flagged verdict, and is read once at scan completion.
pub struct DetectionCounter {
    count: usize,
}

impl DetectionCounter {
    /// The number of detections recorded so far.
    pub closed spec fn view(&self) -> nat {
        self.count as nat
    }

    pub fn new() -> (c: Self)
        ensures
            c@ == 0,
    {
        DetectionCounter { count: 0 }
    }

    /// Records one detection.
    pub fn increment(&mut self)
        requires
            old(self)@ < usize::MAX,
        ensures
            final(self)@ == old(self)@ + 1,
    {
        self.count = self.count + 1;
    }

    /// The final tally.
    pub fn get(&self) -> (n: usize)
        ensures
            n as nat == self@,
    {
        self.count
    }
}

/// Tallies the flagged verdicts of a finished scan.
pub fn count_flagged(verdicts: &Vec<Verdict>) -> (n: usize)
    ensures
        n as nat == flagged_count(verdicts@),
{
    let mut counter = DetectionCounter::new();
    let mut i: usize = 0;
    while i < verdicts.len()
        invariant
            i <= verdicts@.len(),
            counter@ == flagged_count(verdicts@.take(i as int)),
            counter@ <= i,
        decreases verdicts@.len() - i,
    {
        let ghost prev = verdicts@.take(i as int);
        proof {
            assert(verdicts@.take(i + 1).drop_last() =~= prev);
            assert(verdicts@.take(i + 1).last() == verdicts@[i as int]);
        }
        match verdicts[i] {
            Verdict::Flagged(_) => counter.increment(),
            _ => (),
        }
        i = i + 1;
    }
    proof {
        assert(verdicts@.take(verdicts@.len() as int) =~= verdicts@);
    }
    counter.get()
}

/// The verdict the pipeline assigns to the entry at `i` of a pre-read
/// file list, each entry carrying a file's leading bytes and full bytes
/// (`None` where a read failed).
pub open spec fn entry_verdict(
    entries: Seq<(Option<Vec<u8>>, Option<Vec<u8>>)>,
    i: int,
    signatures: Seq<Seq<u8>>,
    threshold: u64,
) -> Verdict {
    spec_verdict(entries[i].0.deep_view(), entries[i].1.deep_view(), signatures, threshold)
}

/// Runs the File Pipeline over every entry of a pre-enumerated file list
/// and returns each verdict together with the flagged tally.
pub fn scan_files(entries: &Vec<(Option<Vec<u8>>, Option<Vec<u8>>)>, config: &ScanConfig) -> (r: (
    Vec<Verdict>,
    usize,
))
    ensures
        r.0@.len() == entries@.len(),
        forall|i: int|
            0 <= i < entries@.len() ==> r.0@[i] == entry_verdict(
                entries@,
                i,
                config.signatures.deep_view(),
                config.entropy_threshold,
            ),
        r.1 as nat == flagged_count(r.0@),
{
    let mut verdicts: Vec<Verdict> = Vec::new();
    let mut counter = DetectionCounter::new();
    let mut i: usize = 0;
    while i < entries.len()
        invariant
            i <= entries@.len(),
            verdicts@.len() == i,
            forall|j: int|
                0 <= j < i ==> verdicts@[j] == entry_verdict(
                    entries@,
                    j,
                    config.signatures.deep_view(),
                    config.entropy_threshold,
                ),
            counter@ == flagged_count(verdicts@),
            counter@ <= i,
        decreases entries@.len() - i,
    {
        let entry = &entries[i];
        let v = process_file(&entry.0, &entry.1, config);
        let ghost prev = verdicts@;
        verdicts.push(v);
        proof {
            assert(verdicts@.drop_last() =~= prev);
        }
        match v {
            Verdict::Flagged(_) => counter.increment(),
            _ => (),
        }
        i = i + 1;
    }
    let n = counter.get();
    (verdicts, n)
}

/// `flagged_count` is the number of `Flagged` verdicts in the sequence's
/// multiset, whatever their order.
proof fn lemma_flagged_count_multiset(vs: Seq<Verdict>)
    ensures
        flagged_count(vs) == vs.to_multiset().count(Verdict::Flagged(FlagReason::Signature))
            + vs.to_multiset().count(Verdict::Flagged(FlagReason::HighEntropy)),
    decreases vs.len(),
{
    if vs.len() == 0 {
        assert(!vs.contains(Verdict::Flagged(FlagReason::Signature)));
        assert(!vs.contains(Verdict::Flagged(FlagReason::HighEntropy)));
    } else {
        let rest = vs.drop_last();
        lemma_flagged_count_multiset(rest);
        assert(vs =~= rest.push(vs.last()));
        assert(rest.push(vs.last()).to_multiset() =~= rest.to_multiset().insert(vs.last()));
    }
}

/// Law: the final Detection Aggregator value of a scan depends only on
/// which verdicts were produced, not on the order they arrive in — the
/// tally over a fixed file set is the same for any worker count and any
/// interleaving.
pub proof fn lemma_flagged_count_permutation(v1: Seq<Verdict>, v2: Seq<Verdict>)
    requires
        v1.to_multiset() == v2.to_multiset(),
    ensures
        flagged_count(v1) == flagged_count(v2),
{
    lemma_flagged_count_multiset(v1);
    lemma_flagged_count_multiset(v2);
}

} // verus!
