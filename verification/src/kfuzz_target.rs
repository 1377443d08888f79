//! Fuzz targets and their corpora.
//!
//! A corpus is a non-empty list of inputs, each with an energy. The next
//! input to run is either one entry, picked with probability proportional
//! to its energy and mutated, or the splice of two picked entries.

use crate::blob_mutator::{lemma_same_seed_same_mutator, Mutator, NaiveMutator};
use crate::text::{
    digits_value, is_ascii_digit, is_trimmed, lemma_parse_decimal, lemma_trim_is_trimmed,
    lemma_trim_of_trimmed, parse_u32_range, spec_parse_u32, trim, trim_range,
};
use crate::random::{
    gen_range_inclusive, gen_ratio, seeded_small_rng, small_rng_seed_from_u64, weight_sum,
    weighted_sample,
};
use rand::rngs::SmallRng;
use vstd::prelude::*;

verus! {

/// The energy of the seed entry, and the base energy of every new entry.
pub const DEFAULT_ENERGY: u64 = 10;

/// The energy that each newly covered program counter adds.
pub const ENERGY_MULTIPLIER: u64 = 10;

/// The length of the seed input.
pub const DEFAULT_INPUT_LEN: usize = 5;

/// One input of a corpus and its scheduling weight.
#[derive(Clone)]
pub struct CorpusEntry {
    pub data: Vec<u8>,
    pub energy: u64,
}

/// The seed input: five `'A'` bytes.
pub open spec fn default_input() -> Seq<u8> {
    Seq::new(DEFAULT_INPUT_LEN as nat, |i: int| 0x41u8)
}

/// The energy that an input earns for `new_features` newly covered program
/// counters: the default energy plus ten per counter. The input's length
/// does not count.
pub open spec fn spec_compute_energy(new_features: u64) -> int {
    DEFAULT_ENERGY + new_features * ENERGY_MULTIPLIER
}

/// Every input earns at least the default energy, and more newly covered
/// program counters earn strictly more.
pub proof fn lemma_energy_grows_with_features(a: u64, b: u64)
    requires
        a < b,
    ensures
        DEFAULT_ENERGY <= spec_compute_energy(a) < spec_compute_energy(b),
{
    assert(a * ENERGY_MULTIPLIER < b * ENERGY_MULTIPLIER) by (nonlinear_arith)
        requires
            a < b,
    ;
}

/// The energy is affine in the number of newly covered program counters:
/// the default energy for none, and ten more for each one more; so ten
/// times one more than their number.
pub proof fn lemma_energy_is_affine(n: u64)
    ensures
        spec_compute_energy(0) == DEFAULT_ENERGY,
        n < u64::MAX ==> spec_compute_energy((n + 1) as u64) == spec_compute_energy(n) + ENERGY_MULTIPLIER,
        spec_compute_energy(n) == 10 * (n + 1),
{
}

impl CorpusEntry {
    /// The seed entry: five `'A'` bytes with the default energy.
    pub fn default() -> (e: Self)
        ensures
            e.data@ == default_input(),
            e.energy == DEFAULT_ENERGY,
    {
        let data: Vec<u8> = vec![0x41u8; DEFAULT_INPUT_LEN];
        assert(data@ =~= default_input());
        CorpusEntry { data, energy: DEFAULT_ENERGY }
    }

    /// An entry with the given input and energy.
    pub fn new(input: Vec<u8>, energy: u64) -> (e: Self)
        ensures
            e.data@ == input@,
            e.energy == energy,
    {
        CorpusEntry { data: input, energy }
    }

    /// A copy of this entry.
    pub fn duplicate(&self) -> (e: Self)
        ensures
            e.data@ == self.data@,
            e.energy == self.energy,
    {
        let data = self.data.clone();
        assert(data@ =~= self.data@);
        CorpusEntry { data, energy: self.energy }
    }
}

/// The energy of an input that covered `new_features` new program counters.
/// The first argument, the input's length, is not used.
pub fn compute_energy(_input_len: u64, new_features: u64) -> (energy: u64)
    requires
        spec_compute_energy(new_features) <= u64::MAX,
    ensures
        energy == spec_compute_energy(new_features),
{
    // For now, rank on the uniqueness of the input. Later on, worth considering
    // scaling this if the input is small.
    DEFAULT_ENERGY + new_features * ENERGY_MULTIPLIER
}

/// The energies of `entries`, in order.
pub open spec fn energies(entries: Seq<CorpusEntry>) -> Seq<u64> {
    entries.map_values(|e: CorpusEntry| e.energy)
}

/// The sum of the energies of `entries`.
pub open spec fn total_energy(entries: Seq<CorpusEntry>) -> nat {
    weight_sum(energies(entries))
}

/// Every entry of `entries` has at least the default energy, so no pick
/// ever meets weights that are all zero.
pub open spec fn has_min_energy(entries: Seq<CorpusEntry>) -> bool {
    forall|i: int| 0 <= i < entries.len() ==> #[trigger] entries[i].energy >= DEFAULT_ENERGY
}

/// A cut point of an input of length `len`: an index into it, or 0 for an
/// empty input.
pub open spec fn is_cut_point(len: nat, cut: int) -> bool {
    if len == 0 {
        cut == 0
    } else {
        0 <= cut < len
    }
}

/// The bytes of `parent1` before `cut1`, followed by the bytes of
/// `parent2` from `cut2` on.
pub open spec fn splice(parent1: Seq<u8>, parent2: Seq<u8>, cut1: int, cut2: int) -> Seq<u8> {
    parent1.take(cut1) + parent2.skip(cut2)
}

/// A splice holds the `cut1` bytes of `parent1` before its cut, followed
/// by all the bytes of `parent2` from its cut on, and nothing else.
pub proof fn lemma_splice_shape(parent1: Seq<u8>, parent2: Seq<u8>, cut1: int, cut2: int)
    requires
        0 <= cut1 <= parent1.len(),
        0 <= cut2 <= parent2.len(),
    ensures
        splice(parent1, parent2, cut1, cut2).len() == cut1 + parent2.len() - cut2,
        forall|i: int| 0 <= i < cut1 ==> #[trigger] splice(parent1, parent2, cut1, cut2)[i] == parent1[i],
        forall|i: int|
            0 <= i < parent2.len() - cut2 ==> #[trigger] splice(parent1, parent2, cut1, cut2)[cut1 + i]
                == parent2[cut2 + i],
{
}

/// `out` is a splice of two entries of `entries` with non-zero energy.
pub open spec fn is_splice_of_entries(entries: Seq<CorpusEntry>, out: Seq<u8>) -> bool {
    exists|i: int, j: int, cut1: int, cut2: int|
        0 <= i < entries.len() && 0 <= j < entries.len() && entries[i].energy > 0
            && entries[j].energy > 0 && is_cut_point(entries[i].data@.len(), cut1) && is_cut_point(
            entries[j].data@.len(),
            cut2,
        ) && out == #[trigger] splice(entries[i].data@, entries[j].data@, cut1, cut2)
}

/// `out` is what the mutator `M` may make of an entry of `entries` with
/// non-zero energy.
pub open spec fn is_mutation_of_entry<M: Mutator>(entries: Seq<CorpusEntry>, out: Seq<u8>) -> bool {
    exists|i: int|
        0 <= i < entries.len() && entries[i].energy > 0 && #[trigger] M::mutates_to(
            entries[i].data@,
            out,
        )
}

/// A corpus of inputs for one target, with the mutator and the generator
/// that schedule them. It always holds at least one entry, and the sum of
/// its energies is positive and fits in a `u64`.
pub struct Corpus<M: Mutator> {
    entries: Vec<CorpusEntry>,
    total: u64,
    mutator: M,
    rng: SmallRng,
}

impl<M: Mutator> View for Corpus<M> {
    type V = Seq<CorpusEntry>;

    /// The entries, in the order they were added.
    closed spec fn view(&self) -> Seq<CorpusEntry> {
        self.entries@
    }
}

impl<M: Mutator> Corpus<M> {
    /// The corpus invariant: at least one entry, and an energy sum that is
    /// positive, fits in a `u64` and is kept in `total`.
    pub closed spec fn wf(&self) -> bool {
        &&& self.entries.len() >= 1
        &&& self.total == total_energy(self.entries@)
        &&& self.total > 0
    }

    /// A corpus that holds the seed entry alone; its mutator and its
    /// generator are both seeded with `rng_seed`.
    pub fn new(rng_seed: u64) -> (c: Self)
        ensures
            c.wf(),
            c.mutator().is_seeded_with(rng_seed),
            c.generator() == seeded_small_rng(rng_seed),
            has_min_energy(c@),
            c@.len() == 1,
            c@[0].data@ == default_input(),
            c@[0].energy == DEFAULT_ENERGY,
    {
        let mut entries: Vec<CorpusEntry> = Vec::new();
        entries.push(CorpusEntry::default());
        proof {
            assert(energies(entries@) =~= seq![DEFAULT_ENERGY]);
            assert(energies(entries@).drop_last() =~= Seq::<u64>::empty());
            assert(weight_sum(Seq::<u64>::empty()) == 0);
            assert(weight_sum(energies(entries@)) == DEFAULT_ENERGY);
        }
        Corpus {
            entries,
            total: DEFAULT_ENERGY,
            mutator: M::new_from_seed(rng_seed),
            rng: small_rng_seed_from_u64(rng_seed),
        }
    }

    /// The mutator of the corpus.
    pub closed spec fn mutator(&self) -> M {
        self.mutator
    }

    /// The generator that picks entries and cut points.
    pub closed spec fn generator(&self) -> SmallRng {
        self.rng
    }

    /// The sum of the energies of the entries.
    pub fn total_energy(&self) -> (t: u64)
        requires
            self.wf(),
        ensures
            t == total_energy(self@),
            t > 0,
    {
        self.total
    }

    /// Appends `entry`. The sum of all energies must stay within a `u64`,
    /// since drawing from the corpus adds them up.
    pub fn add(&mut self, entry: CorpusEntry)
        requires
            old(self).wf(),
            total_energy(old(self)@) + entry.energy <= u64::MAX,
        ensures
            final(self).wf(),
            final(self)@ == old(self)@.push(entry),
    {
        let ghost old_entries = self.entries@;
        let energy = entry.energy;
        self.total = self.total + energy;
        self.entries.push(entry);
        proof {
            assert(energies(self.entries@).drop_last() =~= energies(old_entries));
        }
    }

    /// The number of entries.
    pub fn size(&self) -> (n: usize)
        ensures
            n == self@.len(),
    {
        self.entries.len()
    }

    /// Picks the index of an entry with probability proportional to its
    /// energy.
    fn pick_index(&mut self) -> (idx: usize)
        requires
            old(self).wf(),
        ensures
            final(self).wf(),
            final(self)@ == old(self)@,
            idx < old(self)@.len(),
            old(self)@[idx as int].energy > 0,
    {
        let n = self.entries.len();
        let mut weights: Vec<u64> = Vec::with_capacity(n);
        let mut i: usize = 0;
        while i < n
            invariant
                n == self.entries.len(),
                i <= n,
                weights@ == energies(self.entries@.take(i as int)),
            decreases n - i,
        {
            weights.push(self.entries[i].energy);
            i = i + 1;
            assert(energies(self.entries@.take(i as int)) =~= energies(
                self.entries@.take((i - 1) as int),
            ).push(self.entries@[i - 1].energy));
        }
        assert(self.entries@.take(n as int) =~= self.entries@);
        weighted_sample(&mut self.rng, &weights)
    }

    /// Draws a cut point for an input of length `len`: a random index into
    /// it, or 0 for an empty input, which has no index to draw.
    fn draw_cut(&mut self, len: usize) -> (cut: usize)
        requires
            old(self).wf(),
        ensures
            final(self).wf(),
            final(self)@ == old(self)@,
            is_cut_point(len as nat, cut as int),
    {
        if len == 0 {
            0
        } else {
            gen_range_inclusive(&mut self.rng, 0, len - 1)
        }
    }

    /// The next input to run: with two entries or more, one time in four
    /// the splice of two picked entries, and otherwise a picked entry
    /// rewritten by the mutator.
    pub fn next_input(&mut self) -> (input: Vec<u8>)
        requires
            old(self).wf(),
        ensures
            final(self).wf(),
            final(self)@ == old(self)@,
            (old(self)@.len() > 1 && is_splice_of_entries(old(self)@, input@))
                || is_mutation_of_entry::<M>(old(self)@, input@),
    {
        if self.entries.len() > 1 && gen_ratio(&mut self.rng, 1, 4) {
            let i = self.pick_index();
            let j = self.pick_index();
            let cut1 = self.draw_cut(self.entries[i].data.len());
            let cut2 = self.draw_cut(self.entries[j].data.len());
            let input = self.input_from_draws(true, i, j, cut1, cut2);
            assert(input@ == splice(
                self@[i as int].data@,
                self@[j as int].data@,
                cut1 as int,
                cut2 as int,
            ));
            input
        } else {
            let i = self.pick_index();
            let input = self.input_from_draws(false, i, i, 0, 0);
            assert(M::mutates_to(self@[i as int].data@, input@));
            input
        }
    }

    /// The input that the draws select: when `splice_draw` holds, the bytes of
    /// entry `i` before `cut1` followed by the bytes of entry `j` from
    /// `cut2` on; otherwise the input of entry `i` rewritten by the mutator.
    pub fn input_from_draws(
        &mut self,
        splice_draw: bool,
        i: usize,
        j: usize,
        cut1: usize,
        cut2: usize,
    ) -> (input: Vec<u8>)
        requires
            old(self).wf(),
            i < old(self)@.len(),
            j < old(self)@.len(),
            is_cut_point(old(self)@[i as int].data@.len(), cut1 as int),
            is_cut_point(old(self)@[j as int].data@.len(), cut2 as int),
        ensures
            final(self).wf(),
            final(self)@ == old(self)@,
            splice_draw ==> input@ == splice(
                old(self)@[i as int].data@,
                old(self)@[j as int].data@,
                cut1 as int,
                cut2 as int,
            ),
            !splice_draw ==> M::mutates_to(old(self)@[i as int].data@, input@),
    {
        if splice_draw {
            splice_inputs(&self.entries[i].data, &self.entries[j].data, cut1, cut2)
        } else {
            let mut entry = self.entries[i].duplicate();
            self.mutator.mutate(&mut entry.data);
            entry.data
        }
    }
}

/// The bytes of `parent1` before `cut1`, followed by the bytes of
/// `parent2` from `cut2` on.
pub fn splice_inputs(parent1: &Vec<u8>, parent2: &Vec<u8>, cut1: usize, cut2: usize) -> (out: Vec<
    u8,
>)
    requires
        cut1 <= parent1.len(),
        cut2 <= parent2.len(),
    ensures
        out@ == splice(parent1@, parent2@, cut1 as int, cut2 as int),
{
    let mut new_data: Vec<u8> = Vec::new();
    let mut k: usize = 0;
    while k < cut1
        invariant
            cut1 <= parent1.len(),
            k <= cut1,
            new_data@ == parent1@.take(k as int),
        decreases cut1 - k,
    {
        new_data.push(parent1[k]);
        k = k + 1;
        assert(new_data@ =~= parent1@.take(k as int));
    }
    let n2 = parent2.len();
    let mut j: usize = cut2;
    while j < n2
        invariant
            n2 == parent2.len(),
            cut2 <= j <= n2,
            new_data@ == parent1@.take(cut1 as int) + parent2@.subrange(cut2 as int, j as int),
        decreases n2 - j,
    {
        new_data.push(parent2[j]);
        j = j + 1;
        assert(new_data@ =~= parent1@.take(cut1 as int) + parent2@.subrange(cut2 as int, j as int));
    }
    assert(parent2@.subrange(cut2 as int, n2 as int) =~= parent2@.skip(cut2 as int));
    new_data
}

/// Two corpora that `Corpus::new` builds from the same seed start out
/// alike: the same entries, the same mutator and the same generator.
pub proof fn lemma_same_seed_same_start(c1: Corpus<NaiveMutator>, c2: Corpus<NaiveMutator>, seed: u64)
    requires
        c1.mutator().is_seeded_with(seed),
        c2.mutator().is_seeded_with(seed),
        c1.generator() == seeded_small_rng(seed),
        c2.generator() == seeded_small_rng(seed),
        c1@.len() == 1 && c1@[0].data@ == default_input() && c1@[0].energy == DEFAULT_ENERGY,
        c2@.len() == 1 && c2@[0].data@ == default_input() && c2@[0].energy == DEFAULT_ENERGY,
    ensures
        c1.mutator() == c2.mutator(),
        c1.generator() == c2.generator(),
        c1@.len() == c2@.len(),
        forall|i: int| 0 <= i < c1@.len() ==> #[trigger] c1@[i].data@ == c2@[i].data@ && c1@[i].energy == c2@[i].energy,
{
    lemma_same_seed_same_mutator(c1.mutator(), c2.mutator(), seed);
}

/// A fuzz target with its corpus.
pub struct KFuzzTarget {
    pub info: KUnitInfo,
    pub corpus: Corpus<NaiveMutator>,
    pub total_coverage: u64,
}

impl KFuzzTarget {
    /// A target for `info` whose corpus holds the seed entry alone and is
    /// seeded with `rng_seed`. It always succeeds.
    pub fn new(info: KUnitInfo, rng_seed: u64) -> (r: Result<Self, std::io::Error>)
        ensures
            r is Ok,
            r matches Ok(t) ==> {
                &&& t.info == info
                &&& t.corpus.wf()
                &&& t.corpus.mutator().is_seeded_with(rng_seed)
                &&& t.corpus.generator() == seeded_small_rng(rng_seed)
                &&& has_min_energy(t.corpus@)
                &&& t.corpus@.len() == 1
                &&& t.corpus@[0].data@ == default_input()
                &&& t.corpus@[0].energy == DEFAULT_ENERGY
                &&& t.total_coverage == 0
            },
    {
        Ok(KFuzzTarget { info, corpus: Corpus::new(rng_seed), total_coverage: 0 })
    }
}

/// The standard library's I/O error, which `KFuzzTarget::new` may return.
#[verifier::external_type_specification]
#[verifier::external_body]
pub struct ExIoError(std::io::Error);

/// Where a KUnit suite lists its fuzz targets: a file `fuzz` in the
/// suite's debugfs directory below this path.
pub const KUNIT_BASE_PATH: &'static str = "/sys/kernel/debug/kunit";

/// A fuzz target of a KUnit suite: the suite's name, the target's name and
/// the id by which the suite's `fuzz` file selects it.
#[derive(Debug)]
pub struct KUnitInfo {
    pub suite: String,
    pub name: String,
    pub id: u32,
}

/// The lines of `s`, split at every `'\n'`; the text after the last
/// `'\n'` is the last line.
pub open spec fn split_lines(s: Seq<char>) -> Seq<Seq<char>>
    decreases s.len(),
{
    if s.len() == 0 {
        seq![Seq::<char>::empty()]
    } else {
        let prev = split_lines(s.drop_last());
        if s.last() == '\n' {
            prev.push(Seq::<char>::empty())
        } else {
            prev.update(prev.len() - 1, prev.last().push(s.last()))
        }
    }
}

/// Every text has at least one line.
pub proof fn lemma_split_lines_nonempty(s: Seq<char>)
    ensures
        split_lines(s).len() >= 1,
    decreases s.len(),
{
    if s.len() > 0 {
        lemma_split_lines_nonempty(s.drop_last());
    }
}

/// The lines `lines` joined back together with a `'\n'` between each two.
pub open spec fn join_lines(lines: Seq<Seq<char>>) -> Seq<char>
    decreases lines.len(),
{
    if lines.len() <= 1 {
        if lines.len() == 0 {
            Seq::empty()
        } else {
            lines[0]
        }
    } else {
        join_lines(lines.drop_last()) + seq!['\n'] + lines.last()
    }
}

/// Splitting a text into lines loses nothing and keeps every `'\n'` out
/// of the lines: joining them back with `'\n'` gives the text again.
pub proof fn lemma_split_lines_join(s: Seq<char>)
    ensures
        join_lines(split_lines(s)) == s,
        forall|i: int| 0 <= i < split_lines(s).len() ==> !(#[trigger] split_lines(s)[i]).contains('\n'),
    decreases s.len(),
{
    if s.len() == 0 {
        assert(split_lines(s) =~= seq![Seq::<char>::empty()]);
        assert(join_lines(split_lines(s)) =~= s);
    } else {
        let prev = split_lines(s.drop_last());
        lemma_split_lines_join(s.drop_last());
        lemma_split_lines_nonempty(s.drop_last());
        let c = s.last();
        let cur = split_lines(s);
        if c == '\n' {
            assert(cur == prev.push(Seq::<char>::empty()));
            assert(cur.drop_last() =~= prev);
            assert(join_lines(cur) =~= s.drop_last() + seq!['\n'] + Seq::<char>::empty());
            assert(s.drop_last() + seq!['\n'] =~= s);
            assert forall|i: int| 0 <= i < cur.len() implies !(#[trigger] cur[i]).contains('\n') by {
                if i < prev.len() {
                    assert(cur[i] == prev[i]);
                } else {
                    assert(cur[i] =~= Seq::<char>::empty());
                }
            }
        } else {
            let last = prev.last().push(c);
            assert(cur == prev.update(prev.len() - 1, last));
            if prev.len() == 1 {
                assert(join_lines(prev) == prev[0]);
                assert(join_lines(cur) == cur[0]);
                assert(cur[0] =~= s);
            } else {
                assert(cur.drop_last() =~= prev.drop_last());
                assert(join_lines(cur) == join_lines(prev.drop_last()) + seq!['\n'] + last);
                assert(join_lines(prev) == join_lines(prev.drop_last()) + seq!['\n'] + prev.last());
                assert(join_lines(cur) =~= join_lines(prev).push(c));
                assert(s.drop_last().push(c) =~= s);
            }
            assert forall|i: int| 0 <= i < cur.len() implies !(#[trigger] cur[i]).contains('\n') by {
                if i < prev.len() - 1 {
                    assert(cur[i] == prev[i]);
                } else {
                    assert(cur[i] == last);
                    assert(!prev[prev.len() - 1].contains('\n'));
                    if last.contains('\n') {
                        let j = choose|j: int| 0 <= j < last.len() && last[j] == '\n';
                        assert(prev.last()[j] == '\n');
                    }
                }
            }
        }
    }
}

/// `k` is the position of the first `':'` in `t`.
pub open spec fn is_first_colon(t: Seq<char>, k: int) -> bool {
    0 <= k < t.len() && t[k] == ':' && forall|j: int| 0 <= j < k ==> t[j] != ':'
}

/// The target that one line of a `fuzz` file names, if any: the trimmed
/// line is split at its first `':'`, the trimmed part before it must parse
/// as a `u32` id, and the trimmed part after it is the name.
pub open spec fn line_entry(line: Seq<char>) -> Option<(u32, Seq<char>)> {
    let t = trim(line);
    if exists|k: int| #[trigger] is_first_colon(t, k) {
        let k = choose|k: int| #[trigger] is_first_colon(t, k);
        match spec_parse_u32(trim(t.take(k))) {
            Some(id) => Some((id, trim(t.skip(k + 1)))),
            None => None,
        }
    } else {
        None
    }
}

/// The targets that `lines` name, in order; lines that name none are
/// skipped.
pub open spec fn listing_entries(lines: Seq<Seq<char>>) -> Seq<(u32, Seq<char>)>
    decreases lines.len(),
{
    if lines.len() == 0 {
        Seq::empty()
    } else {
        let prev = listing_entries(lines.drop_last());
        match line_entry(lines.last()) {
            Some(e) => prev.push(e),
            None => prev,
        }
    }
}

/// The targets that the text of a `fuzz` file names, in order.
pub open spec fn fuzz_listing(content: Seq<char>) -> Seq<(u32, Seq<char>)> {
    listing_entries(split_lines(content))
}

/// A line `n:name`, with `n` decimal digits whose value fits in a `u32`
/// and `name` trimmed, names the target with id `n` and name `name`.
pub proof fn lemma_line_entry_of_id_and_name(d: Seq<char>, name: Seq<char>)
    requires
        d.len() > 0,
        forall|i: int| 0 <= i < d.len() ==> is_ascii_digit(#[trigger] d[i]),
        digits_value(d) <= u32::MAX,
        is_trimmed(name),
    ensures
        line_entry(d + seq![':'] + name) == Some((digits_value(d) as u32, name)),
{
    let line = d + seq![':'] + name;
    lemma_parse_decimal(d);
    assert(is_ascii_digit(d[0]));
    crate::text::lemma_ascii_whitespace(d[0]);
    assert(line[0] == d[0]);
    if name.len() > 0 {
        assert(line.last() == name.last());
    } else {
        assert(line.last() == ':');
    }
    assert(is_trimmed(line));
    lemma_trim_of_trimmed(line);
    let k = d.len() as int;
    assert forall|j: int| 0 <= j < k implies line[j] != ':' by {
        assert(line[j] == d[j]);
        assert(is_ascii_digit(d[j]));
    }
    assert(is_first_colon(line, k));
    let c = choose|c: int| #[trigger] is_first_colon(line, c);
    lemma_first_colon_unique(line, c, k);
    assert(line.take(k) =~= d);
    assert(line.skip(k + 1) =~= name);
    lemma_trim_of_trimmed(name);
}

/// A line without a `':'` names no target.
pub proof fn lemma_line_without_colon(line: Seq<char>)
    requires
        !line.contains(':'),
    ensures
        line_entry(line) is None,
{
    let t = trim(line);
    crate::text::lemma_trim_removes_only_whitespace(line);
    let (a, b) = choose|a: int, b: int|
        0 <= a <= b <= line.len() && trim(line) == line.subrange(a, b) && (forall|i: int|
            0 <= i < a ==> crate::text::is_whitespace(#[trigger] line[i])) && (forall|i: int|
            b <= i < line.len() ==> crate::text::is_whitespace(#[trigger] line[i]));
    assert forall|k: int| !#[trigger] is_first_colon(t, k) by {
        if 0 <= k < t.len() && t[k] == ':' {
            assert(line[a + k] == ':');
        }
    }
}

/// Every name listed by `lines` is trimmed, and there are no more targets
/// than lines.
pub proof fn lemma_listing_entries_trimmed(lines: Seq<Seq<char>>)
    ensures
        forall|i: int| 0 <= i < listing_entries(lines).len() ==> is_trimmed(#[trigger] listing_entries(lines)[i].1),
        listing_entries(lines).len() <= lines.len(),
    decreases lines.len(),
{
    if lines.len() > 0 {
        lemma_listing_entries_trimmed(lines.drop_last());
        let prev = listing_entries(lines.drop_last());
        match line_entry(lines.last()) {
            Some(e) => {
                let t = trim(lines.last());
                let k = choose|k: int| #[trigger] is_first_colon(t, k);
                lemma_trim_is_trimmed(t.skip(k + 1));
                assert forall|i: int| 0 <= i < listing_entries(lines).len() implies is_trimmed(
                    #[trigger] listing_entries(lines)[i].1,
                ) by {
                    if i < prev.len() {
                        assert(listing_entries(lines)[i] == prev[i]);
                    }
                }
            },
            None => {},
        }
    }
}

/// The names that a `fuzz` file lists carry no leading or trailing
/// whitespace, and the file lists no more targets than it has lines.
pub proof fn lemma_fuzz_listing_names_trimmed(content: Seq<char>)
    ensures
        forall|i: int| 0 <= i < fuzz_listing(content).len() ==> is_trimmed(#[trigger] fuzz_listing(content)[i].1),
        fuzz_listing(content).len() <= split_lines(content).len(),
{
    lemma_listing_entries_trimmed(split_lines(content));
}

/// `infos` are the targets `entries` of the suite `suite`, in order.
pub open spec fn lists_targets(
    infos: Seq<KUnitInfo>,
    suite: Seq<char>,
    entries: Seq<(u32, Seq<char>)>,
) -> bool {
    &&& infos.len() == entries.len()
    &&& forall|i: int|
        0 <= i < infos.len() ==> {
            &&& (#[trigger] infos[i]).suite@ == suite
            &&& infos[i].id == entries[i].0
            &&& infos[i].name@ == entries[i].1
        }
}

/// `new` is `old` with the target that `line` names appended, if any.
pub open spec fn appends_line_entry(old: Seq<KUnitInfo>, new: Seq<KUnitInfo>, suite: Seq<char>, line: Seq<char>) -> bool {
    match line_entry(line) {
        Some(e) => {
            &&& new.len() == old.len() + 1
            &&& new.drop_last() == old
            &&& new.last().suite@ == suite
            &&& new.last().id == e.0
            &&& new.last().name@ == e.1
        },
        None => new == old,
    }
}

/// Listing the targets of one more line extends the listing by that line.
proof fn lemma_lists_targets_step(
    old: Seq<KUnitInfo>,
    new: Seq<KUnitInfo>,
    suite: Seq<char>,
    lines: Seq<Seq<char>>,
)
    requires
        lines.len() >= 1,
        lists_targets(old, suite, listing_entries(lines.drop_last())),
        appends_line_entry(old, new, suite, lines.last()),
    ensures
        lists_targets(new, suite, listing_entries(lines)),
{
    let prev = listing_entries(lines.drop_last());
    match line_entry(lines.last()) {
        Some(e) => {
            assert(listing_entries(lines) == prev.push(e));
            assert forall|i: int| 0 <= i < new.len() - 1 implies new[i] == old[i] by {
                assert(new.drop_last()[i] == new[i]);
            }
        },
        None => {},
    }
}

/// Two first colons are the same colon.
proof fn lemma_first_colon_unique(t: Seq<char>, k1: int, k2: int)
    requires
        is_first_colon(t, k1),
        is_first_colon(t, k2),
    ensures
        k1 == k2,
{
    if k1 < k2 {
        assert(t[k1] != ':');
    } else if k2 < k1 {
        assert(t[k2] != ':');
    }
}

/// The target that the line `chars[start..end]` names, as an id and the
/// bounds of the name within `chars`.
fn line_entry_range(chars: &Vec<char>, start: usize, end: usize) -> (r: Option<(u32, usize, usize)>)
    requires
        start <= end <= chars.len(),
    ensures
        match r {
            None => line_entry(chars@.subrange(start as int, end as int)) is None,
            Some((id, a, b)) => {
                &&& start <= a <= b <= end
                &&& line_entry(chars@.subrange(start as int, end as int)) == Some(
                    (id, chars@.subrange(a as int, b as int)),
                )
            },
        },
{
    let ghost line = chars@.subrange(start as int, end as int);
    let (a, b) = trim_range(chars, start, end);
    let ghost t = chars@.subrange(a as int, b as int);
    let mut k = a;
    while k < b && chars[k] != ':'
        invariant
            start <= a <= k <= b <= end <= chars.len(),
            t == chars@.subrange(a as int, b as int),
            forall|j: int| 0 <= j < k - a ==> t[j] != ':',
        decreases b - k,
    {
        k = k + 1;
    }
    if k == b {
        assert forall|k2: int| !is_first_colon(t, k2) by {
            if 0 <= k2 < t.len() {
                assert(t[k2] != ':');
            }
        }
        return None;
    }
    let ghost kk = k - a;
    assert(is_first_colon(t, kk));
    proof {
        let c = choose|k2: int| #[trigger] is_first_colon(t, k2);
        lemma_first_colon_unique(t, c, kk);
    }
    assert(t.take(kk) =~= chars@.subrange(a as int, k as int));
    assert(t.skip(kk + 1) =~= chars@.subrange(k + 1, b as int));
    let (ia, ib) = trim_range(chars, a, k);
    match parse_u32_range(chars, ia, ib) {
        None => None,
        Some(id) => {
            let (na, nb) = trim_range(chars, k + 1, b);
            Some((id, na, nb))
        },
    }
}

/// The characters of `s`, in order.
fn chars_of(s: &str) -> (v: Vec<char>)
    ensures
        v@ == s@,
{
    let n = s.unicode_len();
    let mut v: Vec<char> = Vec::with_capacity(n);
    let mut i: usize = 0;
    while i < n
        invariant
            n == s@.len(),
            i <= n,
            v@ == s@.take(i as int),
        decreases n - i,
    {
        v.push(s.get_char(i));
        i = i + 1;
        assert(v@ =~= s@.take(i as int));
    }
    assert(s@.take(n as int) =~= s@);
    v
}

/// The fuzz targets that `content`, the text of the `fuzz` file of the
/// KUnit suite `suite`, lists: one per line of the form `id: name`, where
/// the id, after trimming, parses as a `u32`; other lines are skipped. The
/// name is trimmed.
pub fn parse_fuzz_listing(suite: &str, content: &str) -> (infos: Vec<KUnitInfo>)
    ensures
        lists_targets(infos@, suite@, fuzz_listing(content@)),
{
    let chars = chars_of(content);
    let n = chars.len();
    let mut infos: Vec<KUnitInfo> = Vec::new();
    let mut line_start: usize = 0;
    let mut i: usize = 0;
    proof {
        assert(chars@.take(0) =~= Seq::<char>::empty());
        assert(chars@.subrange(0, 0) =~= Seq::<char>::empty());
    }
    while i < n
        invariant
            n == chars.len(),
            chars@ == content@,
            line_start <= i <= n,
            split_lines(chars@.take(i as int)).last() == chars@.subrange(line_start as int, i as int),
            lists_targets(
                infos@,
                suite@,
                listing_entries(split_lines(chars@.take(i as int)).drop_last()),
            ),
        decreases n - i,
    {
        let ghost prev_lines = split_lines(chars@.take(i as int));
        proof {
            lemma_split_lines_nonempty(chars@.take(i as int));
            assert(chars@.take(i + 1).drop_last() =~= chars@.take(i as int));
        }
        if chars[i] == '\n' {
            let ghost prev_infos = infos@;
            self::push_line_entry(&mut infos, suite, content, &chars, line_start, i);
            proof {
                assert(split_lines(chars@.take(i + 1)) == prev_lines.push(Seq::<char>::empty()));
                assert(split_lines(chars@.take(i + 1)).drop_last() =~= prev_lines);
                lemma_lists_targets_step(prev_infos, infos@, suite@, prev_lines);
            }
            line_start = i + 1;
            assert(chars@.subrange((i + 1) as int, (i + 1) as int) =~= Seq::<char>::empty());
        } else {
            proof {
                let next_lines = split_lines(chars@.take(i + 1));
                assert(next_lines == prev_lines.update(
                    prev_lines.len() - 1,
                    prev_lines.last().push(chars@[i as int]),
                ));
                assert(next_lines.drop_last() =~= prev_lines.drop_last());
                assert(next_lines.last() =~= chars@.subrange(line_start as int, i + 1));
            }
        }
        i = i + 1;
    }
    proof {
        lemma_split_lines_nonempty(chars@);
        assert(chars@.take(n as int) =~= chars@);
    }
    let ghost before = infos@;
    self::push_line_entry(&mut infos, suite, content, &chars, line_start, n);
    proof {
        lemma_lists_targets_step(before, infos@, suite@, split_lines(chars@));
    }
    infos
}

/// Appends the target that the line `chars[start..end]` names, if any.
fn push_line_entry(
    infos: &mut Vec<KUnitInfo>,
    suite: &str,
    content: &str,
    chars: &Vec<char>,
    start: usize,
    end: usize,
)
    requires
        start <= end <= chars.len(),
        chars@ == content@,
    ensures
        appends_line_entry(old(infos)@, final(infos)@, suite@, chars@.subrange(start as int, end as int)),
{
    match line_entry_range(chars, start, end) {
        None => {},
        Some((id, a, b)) => {
            let name = String::from_str(content.substring_char(a, b));
            let info = KUnitInfo { suite: String::from_str(suite), name, id };
            infos.push(info);
            assert(infos@.drop_last() =~= old(infos)@);
        },
    }
}

} // verus!
