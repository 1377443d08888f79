//! The decisions of the fuzzing loop: which program counters a run newly
//! covers, what the coverage log records of them, and whether the input
//! that found them joins its target's corpus.
//!
//! The loop itself, which runs inputs against the kernel, writes the
//! coverage log and updates the shared statistics, is the application's.

use crate::kfuzz_target::{
    compute_energy, has_min_energy, spec_compute_energy, total_energy, CorpusEntry, KFuzzTarget,
    DEFAULT_ENERGY,
};
use std::collections::HashSet;
use vstd::prelude::*;

verus! {

broadcast use vstd::std_specs::hash::group_hash_axioms;

/// The program counters `trace` covers that `seen` does not hold, each
/// once, in the order of their first occurrence.
pub open spec fn new_features(seen: Set<u64>, trace: Seq<u64>) -> Seq<u64>
    decreases trace.len(),
{
    if trace.len() == 0 {
        Seq::empty()
    } else {
        let prev = new_features(seen, trace.drop_last());
        let pc = trace.last();
        if seen.contains(pc) || trace.drop_last().contains(pc) {
            prev
        } else {
            prev.push(pc)
        }
    }
}

/// The newly covered program counters are distinct, come from the trace,
/// were not covered before, and include every program counter of the trace
/// that was not covered before.
pub proof fn lemma_new_features_exact(seen: Set<u64>, trace: Seq<u64>)
    ensures
        new_features(seen, trace).no_duplicates(),
        forall|pc: u64|
            #[trigger] new_features(seen, trace).contains(pc) <==> trace.contains(pc) && !seen.contains(pc),
    decreases trace.len(),
{
    if trace.len() > 0 {
        let prefix = trace.drop_last();
        let pc = trace.last();
        lemma_new_features_exact(seen, prefix);
        let prev = new_features(seen, prefix);
        assert forall|x: u64| trace.contains(x) <==> prefix.contains(x) || x == pc by {
            if trace.contains(x) && x != pc {
                let j = choose|j: int| 0 <= j < trace.len() && trace[j] == x;
                assert(prefix[j] == x);
            }
            if prefix.contains(x) {
                let j = choose|j: int| 0 <= j < prefix.len() && prefix[j] == x;
                assert(trace[j] == x);
            }
            if x == pc {
                assert(trace[trace.len() - 1] == x);
            }
        }
        if !(seen.contains(pc) || prefix.contains(pc)) {
            let cur = prev.push(pc);
            assert(!prev.contains(pc));
            assert forall|i: int, j: int|
                0 <= i < cur.len() && 0 <= j < cur.len() && i != j implies cur[i] != cur[j] by {
                if j == cur.len() - 1 && cur[i] == pc {
                    assert(prev[i] == pc);
                }
                if i == cur.len() - 1 && cur[j] == pc {
                    assert(prev[j] == pc);
                }
            }
            assert forall|x: u64| #[trigger] cur.contains(x) <==> prev.contains(x) || x == pc by {
                if cur.contains(x) && x != pc {
                    let j = choose|j: int| 0 <= j < cur.len() && cur[j] == x;
                    assert(prev[j] == x);
                }
                if prev.contains(x) {
                    let j = choose|j: int| 0 <= j < prev.len() && prev[j] == x;
                    assert(cur[j] == x);
                }
                if x == pc {
                    assert(cur[cur.len() - 1] == x);
                }
            }
        }
    }
}

/// A trace whose program counters are all covered already adds nothing;
/// in particular, recording the same trace a second time finds nothing new.
pub proof fn lemma_covered_trace_adds_nothing(seen: Set<u64>, trace: Seq<u64>)
    requires
        forall|pc: u64| trace.contains(pc) ==> #[trigger] seen.contains(pc),
    ensures
        new_features(seen, trace) == Seq::<u64>::empty(),
{
    lemma_new_features_exact(seen, trace);
    let found = new_features(seen, trace);
    if found.len() > 0 {
        assert(found.contains(found[0]));
    }
}

/// What `trace` holds is what its prefix holds and its last element.
proof fn lemma_contains_push(prefix: Seq<u64>, pc: u64)
    ensures
        forall|x: u64| #[trigger] prefix.push(pc).contains(x) <==> prefix.contains(x) || x == pc,
{
    let t = prefix.push(pc);
    assert forall|x: u64| #[trigger] t.contains(x) <==> prefix.contains(x) || x == pc by {
        if t.contains(x) && x != pc {
            let j = choose|j: int| 0 <= j < t.len() && t[j] == x;
            assert(prefix[j] == x);
        }
        if prefix.contains(x) {
            let j = choose|j: int| 0 <= j < prefix.len() && prefix[j] == x;
            assert(t[j] == x);
        }
        if x == pc {
            assert(t[t.len() - 1] == x);
        }
    }
}

/// Recording one trace grows a finite set of covered program counters by
/// exactly the number of new ones that the recording reports.
pub proof fn lemma_trace_grows_by_new_features(seen: Set<u64>, trace: Seq<u64>)
    requires
        seen.finite(),
    ensures
        seen.union(trace.to_set()).finite(),
        seen.union(trace.to_set()).len() == seen.len() + new_features(seen, trace).len(),
    decreases trace.len(),
{
    if trace.len() == 0 {
        assert(seen.union(trace.to_set()) =~= seen);
    } else {
        let prefix = trace.drop_last();
        let pc = trace.last();
        lemma_trace_grows_by_new_features(seen, prefix);
        let u = seen.union(prefix.to_set());
        assert(prefix.push(pc) =~= trace);
        lemma_contains_push(prefix, pc);
        assert(seen.union(trace.to_set()) =~= u.insert(pc));
        if seen.contains(pc) || prefix.contains(pc) {
            assert(u.contains(pc));
            assert(u.insert(pc) =~= u);
        } else {
            assert(!u.contains(pc));
        }
    }
}

/// The program counters covered after recording `traces`, in order,
/// starting from `seen`.
pub open spec fn covered_after(seen: Set<u64>, traces: Seq<Seq<u64>>) -> Set<u64>
    decreases traces.len(),
{
    if traces.len() == 0 {
        seen
    } else {
        covered_after(seen, traces.drop_last()).union(traces.last().to_set())
    }
}

/// The total that the recordings of `traces`, in order, starting from
/// `seen`, report as newly covered.
pub open spec fn features_found(seen: Set<u64>, traces: Seq<Seq<u64>>) -> nat
    decreases traces.len(),
{
    if traces.len() == 0 {
        0
    } else {
        features_found(seen, traces.drop_last()) + new_features(
            covered_after(seen, traces.drop_last()),
            traces.last(),
        ).len()
    }
}

/// After any number of recordings, the map holds the program counters of
/// all traces, and its size is what it started with plus the sum of what
/// each recording reported as new; from an empty map, that sum alone.
pub proof fn lemma_coverage_counts(seen: Set<u64>, traces: Seq<Seq<u64>>)
    requires
        seen.finite(),
    ensures
        covered_after(seen, traces).finite(),
        covered_after(seen, traces).len() == seen.len() + features_found(seen, traces),
        forall|pc: u64| #[trigger]
            covered_after(seen, traces).contains(pc) <==> seen.contains(pc) || exists|i: int|
                0 <= i < traces.len() && #[trigger] traces[i].contains(pc),
    decreases traces.len(),
{
    if traces.len() > 0 {
        let prev = traces.drop_last();
        lemma_coverage_counts(seen, prev);
        lemma_trace_grows_by_new_features(covered_after(seen, prev), traces.last());
        assert forall|pc: u64| #[trigger]
            covered_after(seen, traces).contains(pc) <==> seen.contains(pc) || exists|i: int|
                0 <= i < traces.len() && #[trigger] traces[i].contains(pc) by {
            if exists|i: int| 0 <= i < traces.len() && #[trigger] traces[i].contains(pc) {
                let i = choose|i: int| 0 <= i < traces.len() && #[trigger] traces[i].contains(pc);
                if i < traces.len() - 1 {
                    assert(prev[i] == traces[i]);
                }
            }
            if exists|i: int| 0 <= i < prev.len() && #[trigger] prev[i].contains(pc) {
                let i = choose|i: int| 0 <= i < prev.len() && #[trigger] prev[i].contains(pc);
                assert(traces[i] == prev[i]);
            }
            if traces.last().contains(pc) {
                assert(traces[traces.len() - 1].contains(pc));
            }
        }
    }
}

/// Every program counter the fuzzer has seen covered, over all targets.
pub struct CoverageMap {
    global_features: HashSet<u64>,
}

impl View for CoverageMap {
    type V = Set<u64>;

    /// The covered program counters.
    closed spec fn view(&self) -> Set<u64> {
        self.global_features@
    }
}

impl CoverageMap {
    /// The map invariant: the set of covered program counters is finite.
    pub closed spec fn wf(&self) -> bool {
        self.global_features@.finite()
    }

    /// A map that holds nothing.
    pub fn new() -> (m: Self)
        ensures
            m.wf(),
            m@ == Set::<u64>::empty(),
    {
        CoverageMap { global_features: HashSet::new() }
    }

    /// The number of covered program counters.
    pub fn size(&self) -> (n: usize)
        requires
            self.wf(),
        ensures
            n == self@.len(),
    {
        self.global_features.len()
    }

    /// Adds the program counters of `trace` and returns those that were not
    /// covered before, each once, in the order of their first occurrence.
    /// The map grows by exactly their number.
    pub fn add_trace(&mut self, trace: &[u64]) -> (new_pcs: Vec<u64>)
        requires
            old(self).wf(),
        ensures
            final(self).wf(),
            forall|pc: u64| #[trigger]
                final(self)@.contains(pc) <==> old(self)@.contains(pc) || trace@.contains(pc),
            final(self)@ == old(self)@.union(trace@.to_set()),
            new_pcs@ == new_features(old(self)@, trace@),
            final(self)@.len() == old(self)@.len() + new_pcs@.len(),
    {
        let ghost seen = self.global_features@;
        let mut new_pcs: Vec<u64> = Vec::new();
        let n = trace.len();
        let mut i: usize = 0;
        while i < n
            invariant
                n == trace@.len(),
                i <= n,
                seen.finite(),
                self.global_features@.finite(),
                forall|pc: u64| #[trigger]
                    self.global_features@.contains(pc) <==> seen.contains(pc) || trace@.take(
                        i as int,
                    ).contains(pc),
                new_pcs@ == new_features(seen, trace@.take(i as int)),
                self.global_features@.len() == seen.len() + new_pcs@.len(),
            decreases n - i,
        {
            let pc = trace[i];
            let ghost prefix = trace@.take(i as int);
            let ghost before = self.global_features@;
            assert(trace@.take(i + 1).drop_last() =~= prefix);
            let fresh = self.global_features.insert(pc);
            if fresh {
                new_pcs.push(pc);
            }
            proof {
                let longer = trace@.take(i + 1);
                assert(longer =~= prefix.push(pc));
                assert forall|x: u64| #[trigger]
                    self.global_features@.contains(x) <==> seen.contains(x) || longer.contains(x) by {
                    if longer.contains(x) && !prefix.contains(x) {
                        let j = choose|j: int| 0 <= j < longer.len() && #[trigger] longer[j] == x;
                        if j < i {
                            assert(prefix[j] == x);
                        }
                    }
                    if prefix.contains(x) {
                        let j = choose|j: int| 0 <= j < prefix.len() && #[trigger] prefix[j] == x;
                        assert(longer[j] == x);
                    }
                    if x == pc {
                        assert(longer[i as int] == x);
                    }
                }
            }
            i = i + 1;
        }
        assert(trace@.take(n as int) =~= trace@);
        assert(self.global_features@ =~= seen.union(trace@.to_set()));
        new_pcs
    }
}

/// `new` is `old` after steps of the fuzzing loop: same target, the corpus
/// only extended at its end, and, if every entry of `old` had at least the
/// default energy, so has every entry of `new`.
pub open spec fn target_grows(old: KFuzzTarget, new: KFuzzTarget) -> bool {
    &&& new.info == old.info
    &&& new.corpus.wf()
    &&& old.corpus@.is_prefix_of(new.corpus@)
    &&& has_min_energy(old.corpus@) ==> has_min_energy(new.corpus@)
}

/// Growth over two stretches of the loop is growth over both: between any
/// two points of a run, corpora and coverage only grow, no entry is
/// removed or changed, and the minimum energy is kept.
pub proof fn lemma_growth_composes(
    t1: KFuzzTarget,
    t2: KFuzzTarget,
    t3: KFuzzTarget,
    c1: Set<u64>,
    c2: Set<u64>,
    c3: Set<u64>,
)
    requires
        target_grows(t1, t2),
        target_grows(t2, t3),
        c1.subset_of(c2),
        c2.subset_of(c3),
    ensures
        target_grows(t1, t3),
        c1.subset_of(c3),
{
    let a = t1.corpus@;
    let b = t2.corpus@;
    let c = t3.corpus@;
    assert(a =~= c.subrange(0, a.len() as int)) by {
        assert forall|i: int| 0 <= i < a.len() implies a[i] == c[i] by {
            assert(a[i] == b.subrange(0, a.len() as int)[i]);
            assert(b[i] == c.subrange(0, b.len() as int)[i]);
        }
    }
}

/// Why a run's findings could not be recorded.
#[derive(Debug, Clone, Copy, PartialEq, Eq)]
pub enum RecordError {
    /// The energy of the new entry, or the sum of the corpus energies,
    /// does not fit in a `u64`.
    EnergyOverflow,
}

/// Records what one run of `input` on `target` covered, as `trace` lists
/// it: the program counters it newly covers join `coverage`, and if there
/// are any, `input` joins the target's corpus with the energy they earn.
/// Returns the newly covered program counters, in the order of their first
/// occurrence in `trace`. When the energy would not fit in a `u64`, the
/// coverage is still recorded, the corpus is left as it was, and the error
/// is returned.
pub fn record_run(
    target: &mut KFuzzTarget,
    coverage: &mut CoverageMap,
    input: Vec<u8>,
    trace: &[u64],
) -> (r: Result<Vec<u64>, RecordError>)
    requires
        old(target).corpus.wf(),
        old(coverage).wf(),
    ensures
        final(target).corpus.wf(),
        final(coverage).wf(),
        final(target).info == old(target).info,
        final(target).total_coverage == old(target).total_coverage,
        target_grows(*old(target), *final(target)),
        old(coverage)@.subset_of(final(coverage)@),
        final(coverage)@ == old(coverage)@.union(trace@.to_set()),
        forall|pc: u64| #[trigger]
            final(coverage)@.contains(pc) <==> old(coverage)@.contains(pc) || trace@.contains(pc),
        final(coverage)@.len() == old(coverage)@.len() + new_features(old(coverage)@, trace@).len(),
        ({
            let found = new_features(old(coverage)@, trace@);
            let energy = spec_compute_energy(found.len() as u64);
            let fits = found.len() == 0 || found.len() <= u64::MAX && energy + total_energy(old(target).corpus@) <= u64::MAX;
            match r {
                Ok(new_pcs) => {
                    &&& fits
                    &&& new_pcs@ == found
                    &&& found.len() == 0 ==> final(target).corpus@ == old(target).corpus@
                    &&& found.len() > 0 ==> {
                        &&& final(target).corpus@.len() == old(target).corpus@.len() + 1
                        &&& final(target).corpus@.drop_last() == old(target).corpus@
                        &&& final(target).corpus@.last().data@ == input@
                        &&& final(target).corpus@.last().energy == energy
                    }
                },
                Err(RecordError::EnergyOverflow) => {
                    &&& !fits
                    &&& final(target).corpus@ == old(target).corpus@
                },
            }
        }),
{
    let new_pcs = coverage.add_trace(trace);
    let found = new_pcs.len();
    assert(target.corpus@ =~= target.corpus@.subrange(0, target.corpus@.len() as int));
    if found == 0 {
        return Ok(new_pcs);
    }
    let found64 = found as u64;
    if found64 > (u64::MAX - 10) / 10 {
        return Err(RecordError::EnergyOverflow);
    }
    let energy = compute_energy(input.len() as u64, found64);
    let total = target.corpus.total_energy();
    if energy > u64::MAX - total {
        return Err(RecordError::EnergyOverflow);
    }
    let entry = CorpusEntry::new(input, energy);
    let ghost before = target.corpus@;
    target.corpus.add(entry);
    proof {
        assert(before =~= target.corpus@.subrange(0, before.len() as int));
        assert forall|i: int| 0 <= i < target.corpus@.len() && has_min_energy(before) implies #[trigger] target.corpus@[i].energy >= DEFAULT_ENERGY by {
            if i < before.len() {
                assert(target.corpus@[i] == before[i]);
            }
        }
    }
    Ok(new_pcs)
}

/// The sum of the corpus sizes of `targets`.
pub open spec fn corpus_size_sum(targets: Seq<KFuzzTarget>) -> nat
    decreases targets.len(),
{
    if targets.len() == 0 {
        0
    } else {
        corpus_size_sum(targets.drop_last()) + targets.last().corpus@.len()
    }
}

/// The number of entries of all corpora together, or `None` when it does
/// not fit in a `usize`.
pub fn total_corpus_size(targets: &Vec<KFuzzTarget>) -> (r: Option<usize>)
    ensures
        match r {
            Some(n) => n == corpus_size_sum(targets@),
            None => corpus_size_sum(targets@) > usize::MAX,
        },
{
    let mut total: usize = 0;
    let n = targets.len();
    let mut i: usize = 0;
    while i < n
        invariant
            n == targets.len(),
            i <= n,
            total == corpus_size_sum(targets@.take(i as int)),
        decreases n - i,
    {
        assert(targets@.take(i + 1).drop_last() =~= targets@.take(i as int));
        let size = targets[i].corpus.size();
        if size > usize::MAX - total {
            proof {
                lemma_corpus_size_sum_prefix(targets@, i + 1);
            }
            return None;
        }
        total = total + size;
        i = i + 1;
    }
    assert(targets@.take(n as int) =~= targets@);
    Some(total)
}

/// The corpora of a prefix of the targets hold no more than all of them.
pub proof fn lemma_corpus_size_sum_prefix(targets: Seq<KFuzzTarget>, k: int)
    requires
        0 <= k <= targets.len(),
    ensures
        corpus_size_sum(targets.take(k)) <= corpus_size_sum(targets),
    decreases targets.len(),
{
    if k < targets.len() {
        assert(targets.drop_last().take(k) =~= targets.take(k));
        lemma_corpus_size_sum_prefix(targets.drop_last(), k);
    } else {
        assert(targets.take(k) =~= targets);
    }
}

/// The lowercase hexadecimal digit for `d`, which is below 16.
pub open spec fn hex_digit(d: nat) -> u8 {
    if d < 10 {
        (48 + d) as u8
    } else {
        (87 + d) as u8
    }
}

/// The lowercase hexadecimal digits of `n`, without leading zeros.
pub open spec fn hex_digits(n: nat) -> Seq<u8>
    decreases n,
{
    if n < 16 {
        seq![hex_digit(n)]
    } else {
        hex_digits(n / 16).push(hex_digit(n % 16))
    }
}

/// The line that the coverage log holds for `pc`: `{:#x}` and a newline.
pub open spec fn coverage_line(pc: u64) -> Seq<u8> {
    seq![48u8, 120u8] + hex_digits(pc as nat) + seq![10u8]
}

/// The lines of the coverage log for `pcs`, in order.
pub open spec fn coverage_report(pcs: Seq<u64>) -> Seq<u8>
    decreases pcs.len(),
{
    if pcs.len() == 0 {
        Seq::empty()
    } else {
        coverage_report(pcs.drop_last()) + coverage_line(pcs.last())
    }
}

/// The number that the hexadecimal digits `digits` spell.
pub open spec fn hex_value(digits: Seq<u8>) -> nat
    decreases digits.len(),
{
    if digits.len() == 0 {
        0
    } else {
        hex_value(digits.drop_last()) * 16 + hex_digit_value(digits.last())
    }
}

/// The value of one hexadecimal digit.
pub open spec fn hex_digit_value(c: u8) -> nat {
    if c <= 57 {
        (c - 48) as nat
    } else {
        (c - 87) as nat
    }
}

proof fn lemma_hex_digit_value(d: nat)
    requires
        d < 16,
    ensures
        hex_digit_value(hex_digit(d)) == d,
        hex_digit(d) == 48u8 <==> d == 0,
{
    if d < 10 {
        assert(hex_digit(d) == 48 + d);
    } else {
        assert(hex_digit(d) == 87 + d);
    }
}

/// The digits of the coverage log spell the program counter back, and the
/// first of them is `0` only for the program counter 0.
pub proof fn lemma_hex_digits_roundtrip(n: nat)
    ensures
        hex_value(hex_digits(n)) == n,
        hex_digits(n).len() >= 1,
        n > 0 ==> hex_digits(n)[0] != 48u8,
    decreases n,
{
    let d = n % 16;
    lemma_hex_digit_value(d);
    if n >= 16 {
        lemma_hex_digits_roundtrip(n / 16);
        assert(hex_digits(n).drop_last() =~= hex_digits(n / 16));
        assert(hex_digits(n)[0] == hex_digits(n / 16)[0]);
        assert(hex_digits(n).last() == hex_digit(d));
        assert(n == (n / 16) * 16 + d);
        let h = hex_digits(n);
        assert(hex_value(h) == hex_value(h.drop_last()) * 16 + hex_digit_value(h.last()));
        assert(hex_value(h) == (n / 16) * 16 + d);
    } else {
        assert(hex_digits(n).drop_last() =~= Seq::<u8>::empty());
        assert(hex_digits(n).last() == hex_digit(n));
        assert(d == n);
        let h = hex_digits(n);
        assert(hex_value(h) == hex_value(h.drop_last()) * 16 + hex_digit_value(h.last()));
        assert(hex_value(Seq::<u8>::empty()) == 0);
    }
}

/// A log line is `0x`, then digits that spell the program counter, then a
/// newline, with no newline before it.
pub proof fn lemma_coverage_line_shape(pc: u64)
    ensures
        coverage_line(pc).len() >= 4,
        coverage_line(pc)[0] == 48u8,
        coverage_line(pc)[1] == 120u8,
        coverage_line(pc).last() == 10u8,
        hex_value(coverage_line(pc).subrange(2, coverage_line(pc).len() - 1)) == pc,
        forall|i: int| 0 <= i < coverage_line(pc).len() - 1 ==> #[trigger] coverage_line(pc)[i] != 10u8,
{
    lemma_hex_digits_roundtrip(pc as nat);
    lemma_hex_digits_are_digits(pc as nat);
    let line = coverage_line(pc);
    assert(line.subrange(2, line.len() - 1) =~= hex_digits(pc as nat));
    assert forall|i: int| 0 <= i < line.len() - 1 implies #[trigger] line[i] != 10u8 by {
        if i >= 2 {
            assert(line[i] == hex_digits(pc as nat)[i - 2]);
        }
    }
}

/// Every hexadecimal digit is `0`-`9` or `a`-`f`.
proof fn lemma_hex_digits_are_digits(n: nat)
    ensures
        forall|i: int| 0 <= i < hex_digits(n).len() ==> {
            let c = #[trigger] hex_digits(n)[i];
            (48 <= c <= 57) || (97 <= c <= 102)
        },
    decreases n,
{
    lemma_hex_digit_value(n % 16);
    if n >= 16 {
        lemma_hex_digits_are_digits(n / 16);
        let h = hex_digits(n);
        assert forall|i: int| 0 <= i < h.len() implies {
            let c = #[trigger] h[i];
            (48 <= c <= 57) || (97 <= c <= 102)
        } by {
            if i < h.len() - 1 {
                assert(h[i] == hex_digits(n / 16)[i]);
            }
        }
    }
}

/// Appends the hexadecimal digits of `n` to `out`.
fn push_hex_digits(out: &mut Vec<u8>, n: u64)
    ensures
        final(out)@ == old(out)@ + hex_digits(n as nat),
    decreases n,
{
    if n >= 16 {
        push_hex_digits(out, n / 16);
    }
    let d = (n % 16) as u8;
    let c = if d < 10 { 48 + d } else { 87 + d };
    out.push(c);
}

/// The bytes that the coverage log gains for the newly covered `pcs`: one
/// line `0x...` in lowercase hexadecimal per program counter.
pub fn format_coverage_report(pcs: &Vec<u64>) -> (bytes: Vec<u8>)
    ensures
        bytes@ == coverage_report(pcs@),
{
    let mut out: Vec<u8> = Vec::new();
    let n = pcs.len();
    let mut i: usize = 0;
    while i < n
        invariant
            n == pcs.len(),
            i <= n,
            out@ == coverage_report(pcs@.take(i as int)),
        decreases n - i,
    {
        let ghost before = out@;
        assert(pcs@.take(i + 1).drop_last() =~= pcs@.take(i as int));
        out.push(48u8);
        out.push(120u8);
        push_hex_digits(&mut out, pcs[i]);
        out.push(10u8);
        assert(out@ =~= before + coverage_line(pcs@[i as int]));
        i = i + 1;
    }
    assert(pcs@.take(n as int) =~= pcs@);
    out
}

} // verus!
