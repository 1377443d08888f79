//! Byte-level mutations of fuzzing inputs.
//!
//! A mutation is one of four edits of a byte buffer: flip one bit,
//! overwrite one byte, insert a block of 1 to 16 bytes, or erase a block of
//! 1 to 16 bytes. The edits themselves are exact functions of their
//! parameters (`apply_*`, `apply_edit`, `apply_edits`); `NaiveMutator`
//! draws one to five edits at random, each for the length the edits before
//! it leave, and applies them in order.

use crate::random::{
    gen_byte, gen_range_inclusive, seeded_small_rng, small_rng_from_os, small_rng_seed_from_u64,
};
use rand::rngs::SmallRng;
use vstd::prelude::*;

verus! {

/// The largest block that one insertion or erasure touches.
pub const MAX_BLOCK_LEN: usize = 16;

/// The smallest number of edits that one call of `mutate` stacks.
pub const MIN_STACKED_MUTATIONS: usize = 1;

/// The largest number of edits that one call of `mutate` stacks.
pub const MAX_STACKED_MUTATIONS: usize = 5;

/// Something that turns a fuzzing input into a new one.
pub trait Mutator: Sized {
    /// The inputs `new` that one call of `mutate` may leave in place of `old`.
    spec fn mutates_to(old: Seq<u8>, new: Seq<u8>) -> bool;

    /// Rewrites `data` in place.
    fn mutate(&mut self, data: &mut Vec<u8>)
        ensures
            Self::mutates_to(old(data)@, final(data)@),
    ;

    /// The mutator's random choices follow from `seed`.
    spec fn is_seeded_with(&self, seed: u64) -> bool;

    /// A mutator seeded from the operating system, or `None` when the
    /// operating system provides no seed.
    fn new() -> Option<Self>;

    /// A mutator whose random choices follow from `seed`.
    fn new_from_seed(seed: u64) -> (m: Self)
        ensures
            m.is_seeded_with(seed),
    ;
}

/// `data` with bit `bit` of byte `idx` flipped.
pub open spec fn flip_bit(data: Seq<u8>, idx: int, bit: int) -> Seq<u8> {
    data.update(idx, data[idx] ^ (1u8 << (bit as u8)))
}

/// `data` with `len` bytes removed from position `start` on.
pub open spec fn erase_block(data: Seq<u8>, start: int, len: int) -> Seq<u8> {
    data.take(start) + data.skip(start + len)
}

/// `data` with `block` inserted before position `pos`.
pub open spec fn insert_block(data: Seq<u8>, pos: int, block: Seq<u8>) -> Seq<u8> {
    data.take(pos) + block + data.skip(pos)
}

/// Flipping the same bit twice gives back the input, and a flip always
/// changes the byte it touches and nothing else.
pub proof fn lemma_bit_flip_involutive(data: Seq<u8>, idx: int, bit: int)
    requires
        0 <= idx < data.len(),
        0 <= bit < 8,
    ensures
        flip_bit(flip_bit(data, idx, bit), idx, bit) == data,
        flip_bit(data, idx, bit).len() == data.len(),
        flip_bit(data, idx, bit)[idx] != data[idx],
        forall|j: int| 0 <= j < data.len() && j != idx ==> #[trigger] flip_bit(data, idx, bit)[j] == data[j],
{
    let x = data[idx];
    let b = bit as u8;
    assert((x ^ (1u8 << b)) ^ (1u8 << b) == x && (x ^ (1u8 << b)) != x) by (bit_vector)
        requires
            b < 8,
    ;
    assert(flip_bit(flip_bit(data, idx, bit), idx, bit) =~= data);
}

/// Erasing a block that was just inserted gives back the input.
pub proof fn lemma_erase_undoes_insert(data: Seq<u8>, pos: int, block: Seq<u8>)
    requires
        0 <= pos <= data.len(),
    ensures
        erase_block(insert_block(data, pos, block), pos, block.len() as int) == data,
{
    let grown = insert_block(data, pos, block);
    assert(grown.take(pos) =~= data.take(pos));
    assert(grown.skip(pos + block.len()) =~= data.skip(pos));
    assert(data.take(pos) + data.skip(pos) =~= data);
}

/// The four kinds of edit.
#[derive(Debug, Clone, Copy, PartialEq, Eq)]
pub enum MutationType {
    BitFlip,
    ByteOverwrite,
    InsertBlock,
    EraseBlock,
}

/// The kind of edit that a draw `i` from `0..=3` selects.
pub open spec fn spec_mutation_type(i: usize) -> MutationType {
    if i == 0 {
        MutationType::BitFlip
    } else if i == 1 {
        MutationType::ByteOverwrite
    } else if i == 2 {
        MutationType::InsertBlock
    } else {
        MutationType::EraseBlock
    }
}

/// The draws 0 to 3 select the four kinds of edit, each exactly once, so a
/// uniform draw gives a uniform kind.
pub proof fn lemma_mutation_type_draws(kind: MutationType)
    ensures
        exists|i: usize| i <= 3 && #[trigger] spec_mutation_type(i) == kind,
        forall|i: usize, j: usize|
            i <= 3 && j <= 3 && #[trigger] spec_mutation_type(i) == #[trigger] spec_mutation_type(j)
                ==> i == j,
{
    match kind {
        MutationType::BitFlip => assert(spec_mutation_type(0) == kind),
        MutationType::ByteOverwrite => assert(spec_mutation_type(1) == kind),
        MutationType::InsertBlock => assert(spec_mutation_type(2) == kind),
        MutationType::EraseBlock => assert(spec_mutation_type(3) == kind),
    }
}

/// Maps a draw to a kind of edit: 0, 1, 2 and anything else.
pub fn mutation_type_from_index(i: usize) -> (t: MutationType)
    ensures
        t == spec_mutation_type(i),
{
    match i {
        0 => MutationType::BitFlip,
        1 => MutationType::ByteOverwrite,
        2 => MutationType::InsertBlock,
        _ => MutationType::EraseBlock,
    }
}

/// Flips bit `bit` of byte `idx`.
pub fn apply_bit_flip(buf: &mut Vec<u8>, idx: usize, bit: u8)
    requires
        idx < old(buf).len(),
        bit < 8,
    ensures
        final(buf)@ == flip_bit(old(buf)@, idx as int, bit as int),
{
    let mask: u8 = 1u8 << bit;
    let b: u8 = buf[idx] ^ mask;
    buf.set(idx, b);
}

/// Replaces byte `idx` by `b`.
pub fn apply_byte_overwrite(buf: &mut Vec<u8>, idx: usize, b: u8)
    requires
        idx < old(buf).len(),
    ensures
        final(buf)@ == old(buf)@.update(idx as int, b),
{
    buf.set(idx, b);
}

/// Removes the `len` bytes from position `start` on.
pub fn apply_erase_block(buf: &mut Vec<u8>, start: usize, len: usize)
    requires
        start + len <= old(buf).len(),
    ensures
        final(buf)@ == erase_block(old(buf)@, start as int, len as int),
{
    let n = buf.len();
    let mut out: Vec<u8> = Vec::with_capacity(n - len);
    let mut i: usize = 0;
    while i < start
        invariant
            start + len <= n,
            n == buf.len(),
            i <= start,
            out@ == buf@.take(i as int),
        decreases start - i,
    {
        out.push(buf[i]);
        i = i + 1;
        assert(out@ =~= buf@.take(i as int));
    }
    let mut j: usize = start + len;
    while j < n
        invariant
            start + len <= j <= n,
            n == buf.len(),
            out@ == buf@.take(start as int) + buf@.subrange(start + len, j as int),
        decreases n - j,
    {
        out.push(buf[j]);
        j = j + 1;
        assert(out@ =~= buf@.take(start as int) + buf@.subrange(start + len, j as int));
    }
    assert(buf@.subrange(start + len, n as int) =~= buf@.skip(start + len));
    *buf = out;
}

/// Inserts `block` before position `pos`.
pub fn apply_insert_block(buf: &mut Vec<u8>, pos: usize, block: &Vec<u8>)
    requires
        pos <= old(buf).len(),
        old(buf).len() + block.len() <= usize::MAX,
    ensures
        final(buf)@ == insert_block(old(buf)@, pos as int, block@),
{
    let n = buf.len();
    let m = block.len();
    let mut out: Vec<u8> = Vec::with_capacity(n + m);
    let mut i: usize = 0;
    while i < pos
        invariant
            pos <= n,
            n == buf.len(),
            i <= pos,
            out@ == buf@.take(i as int),
        decreases pos - i,
    {
        out.push(buf[i]);
        i = i + 1;
        assert(out@ =~= buf@.take(i as int));
    }
    let mut k: usize = 0;
    while k < m
        invariant
            m == block.len(),
            k <= m,
            out@ == buf@.take(pos as int) + block@.take(k as int),
        decreases m - k,
    {
        out.push(block[k]);
        k = k + 1;
        assert(out@ =~= buf@.take(pos as int) + block@.take(k as int));
    }
    assert(block@.take(m as int) =~= block@);
    let mut j: usize = pos;
    while j < n
        invariant
            pos <= j <= n,
            n == buf.len(),
            m == block.len(),
            out@ == buf@.take(pos as int) + block@ + buf@.subrange(pos as int, j as int),
        decreases n - j,
    {
        out.push(buf[j]);
        j = j + 1;
        assert(out@ =~= buf@.take(pos as int) + block@ + buf@.subrange(pos as int, j as int));
    }
    assert(buf@.subrange(pos as int, n as int) =~= buf@.skip(pos as int));
    *buf = out;
}

/// One edit with the parameters drawn for it. `Keep` is what an edit of a
/// kind that finds nothing to act on amounts to: a flip, overwrite or
/// erasure of an empty input, or an insertion into an input too long to
/// grow by a block.
pub enum Edit {
    Keep,
    BitFlip { idx: usize, bit: u8 },
    ByteOverwrite { idx: usize, byte: u8 },
    InsertBlock { pos: usize, block: Vec<u8> },
    EraseBlock { start: usize, len: usize },
}

/// The length of an input of length `len` after the edit `e`.
pub open spec fn length_after_edit(len: int, e: Edit) -> int {
    match e {
        Edit::InsertBlock { block, .. } => len + block@.len(),
        Edit::EraseBlock { len: n, .. } => len - n,
        _ => len,
    }
}

/// The parameters of `e` are in range for an input of length `len`.
pub open spec fn edit_fits(len: int, e: Edit) -> bool {
    match e {
        Edit::Keep => true,
        Edit::BitFlip { idx, bit } => idx < len && bit < 8,
        Edit::ByteOverwrite { idx, .. } => idx < len,
        Edit::InsertBlock { pos, block } => pos <= len && 1 <= block@.len() <= MAX_BLOCK_LEN && len
            + block@.len() <= usize::MAX,
        Edit::EraseBlock { start, len: n } => 1 <= n <= MAX_BLOCK_LEN && start + n <= len,
    }
}

/// `e` is an edit that drawing one of kind `kind` may give for an input of
/// length `len`: of that kind, or `Keep` exactly where that kind finds
/// nothing to act on.
pub open spec fn edit_of_kind(e: Edit, kind: MutationType, len: int) -> bool {
    &&& edit_fits(len, e)
    &&& match kind {
        MutationType::BitFlip => if len == 0 {
            e is Keep
        } else {
            e is BitFlip
        },
        MutationType::ByteOverwrite => if len == 0 {
            e is Keep
        } else {
            e is ByteOverwrite
        },
        MutationType::InsertBlock => if len + MAX_BLOCK_LEN > usize::MAX {
            e is Keep
        } else {
            e is InsertBlock
        },
        MutationType::EraseBlock => if len == 0 {
            e is Keep
        } else {
            e is EraseBlock
        },
    }
}

/// `e` is an edit of some kind that may be drawn for an input of length `len`.
pub open spec fn is_drawn_edit(e: Edit, len: int) -> bool {
    exists|kind: MutationType| #[trigger] edit_of_kind(e, kind, len)
}

/// The input `data` after the edit `e`.
pub open spec fn edit_result(data: Seq<u8>, e: Edit) -> Seq<u8> {
    match e {
        Edit::Keep => data,
        Edit::BitFlip { idx, bit } => flip_bit(data, idx as int, bit as int),
        Edit::ByteOverwrite { idx, byte } => data.update(idx as int, byte),
        Edit::InsertBlock { pos, block } => insert_block(data, pos as int, block@),
        Edit::EraseBlock { start, len } => erase_block(data, start as int, len as int),
    }
}

/// The length of an input of length `len` after the edits `edits`, in order.
pub open spec fn length_after_edits(len: int, edits: Seq<Edit>) -> int
    decreases edits.len(),
{
    if edits.len() == 0 {
        len
    } else {
        length_after_edit(length_after_edits(len, edits.drop_last()), edits.last())
    }
}

/// Each of `edits` is in range for the length that the edits before it
/// leave of an input of length `len`.
pub open spec fn edits_fit(len: int, edits: Seq<Edit>) -> bool
    decreases edits.len(),
{
    edits.len() == 0 || (edits_fit(len, edits.drop_last()) && edit_fits(
        length_after_edits(len, edits.drop_last()),
        edits.last(),
    ))
}

/// Each of `edits` may be drawn for the length that the edits before it
/// leave of an input of length `len`.
pub open spec fn edits_drawn(len: int, edits: Seq<Edit>) -> bool
    decreases edits.len(),
{
    edits.len() == 0 || (edits_drawn(len, edits.drop_last()) && is_drawn_edit(
        edits.last(),
        length_after_edits(len, edits.drop_last()),
    ))
}

/// The input `data` after the edits `edits`, in order.
pub open spec fn apply_edits_spec(data: Seq<u8>, edits: Seq<Edit>) -> Seq<u8>
    decreases edits.len(),
{
    if edits.len() == 0 {
        data
    } else {
        edit_result(apply_edits_spec(data, edits.drop_last()), edits.last())
    }
}

/// An edit in range leaves an input of the length `length_after_edit`
/// gives; a drawn edit changes it by at most one block.
pub proof fn lemma_edit_length(data: Seq<u8>, e: Edit)
    requires
        edit_fits(data.len() as int, e),
    ensures
        edit_result(data, e).len() == length_after_edit(data.len() as int, e),
        data.len() - MAX_BLOCK_LEN <= length_after_edit(data.len() as int, e) <= data.len() + MAX_BLOCK_LEN,
{
}

/// Drawn edits are in range.
pub proof fn lemma_drawn_edits_fit(len: int, edits: Seq<Edit>)
    requires
        edits_drawn(len, edits),
    ensures
        edits_fit(len, edits),
    decreases edits.len(),
{
    if edits.len() > 0 {
        lemma_drawn_edits_fit(len, edits.drop_last());
        let kind = choose|kind: MutationType|
            #[trigger] edit_of_kind(edits.last(), kind, length_after_edits(len, edits.drop_last()));
    }
}

/// The first `k` of edits that are in range are in range.
pub proof fn lemma_edits_fit_prefix(len: int, edits: Seq<Edit>, k: int)
    requires
        edits_fit(len, edits),
        0 <= k <= edits.len(),
    ensures
        edits_fit(len, edits.take(k)),
    decreases edits.len(),
{
    if k == edits.len() {
        assert(edits.take(k) =~= edits);
    } else {
        assert(edits.drop_last().take(k) =~= edits.take(k));
        lemma_edits_fit_prefix(len, edits.drop_last(), k);
    }
}

/// Edits in range leave an input of the length `length_after_edits`
/// gives, and `n` of them change it by at most `n` blocks.
pub proof fn lemma_edits_length(data: Seq<u8>, edits: Seq<Edit>)
    requires
        edits_fit(data.len() as int, edits),
    ensures
        apply_edits_spec(data, edits).len() == length_after_edits(data.len() as int, edits),
        data.len() - edits.len() * MAX_BLOCK_LEN <= apply_edits_spec(data, edits).len()
            <= data.len() + edits.len() * MAX_BLOCK_LEN,
    decreases edits.len(),
{
    if edits.len() > 0 {
        lemma_edits_length(data, edits.drop_last());
        lemma_edit_length(apply_edits_spec(data, edits.drop_last()), edits.last());
        assert(edits.drop_last().len() * MAX_BLOCK_LEN + MAX_BLOCK_LEN == edits.len() * MAX_BLOCK_LEN)
            by (nonlinear_arith)
            requires
                edits.drop_last().len() + 1 == edits.len(),
        ;
    }
}

/// The length of an input of length `len` after the edit `e`.
pub fn edit_length(len: usize, e: &Edit) -> (r: usize)
    requires
        edit_fits(len as int, *e),
    ensures
        r == length_after_edit(len as int, *e),
{
    match e {
        Edit::InsertBlock { block, .. } => len + block.len(),
        Edit::EraseBlock { len: n, .. } => len - *n,
        _ => len,
    }
}

/// Applies the edit `e` to `buf`.
pub fn apply_edit(buf: &mut Vec<u8>, e: &Edit)
    requires
        edit_fits(old(buf).len() as int, *e),
    ensures
        final(buf)@ == edit_result(old(buf)@, *e),
{
    match e {
        Edit::Keep => {},
        Edit::BitFlip { idx, bit } => apply_bit_flip(buf, *idx, *bit),
        Edit::ByteOverwrite { idx, byte } => apply_byte_overwrite(buf, *idx, *byte),
        Edit::InsertBlock { pos, block } => apply_insert_block(buf, *pos, block),
        Edit::EraseBlock { start, len } => apply_erase_block(buf, *start, *len),
    }
}

/// Applies the edits `edits` to `buf`, in order.
pub fn apply_edits(buf: &mut Vec<u8>, edits: &Vec<Edit>)
    requires
        edits_fit(old(buf).len() as int, edits@),
    ensures
        final(buf)@ == apply_edits_spec(old(buf)@, edits@),
{
    let ghost start = buf@;
    let n = edits.len();
    let mut i: usize = 0;
    assert(edits@.take(0) =~= Seq::<Edit>::empty());
    while i < n
        invariant
            n == edits.len(),
            i <= n,
            edits_fit(start.len() as int, edits@),
            buf@ == apply_edits_spec(start, edits@.take(i as int)),
        decreases n - i,
    {
        proof {
            lemma_edits_fit_prefix(start.len() as int, edits@, i + 1);
            assert(edits@.take(i + 1).drop_last() =~= edits@.take(i as int));
            lemma_edits_fit_prefix(start.len() as int, edits@, i as int);
            lemma_edits_length(start, edits@.take(i as int));
        }
        apply_edit(buf, &edits[i]);
        i = i + 1;
    }
    assert(edits@.take(n as int) =~= edits@);
}

/// The mutator of the fuzzer: random edits drawn from its own generator.
pub struct NaiveMutator {
    rng: SmallRng,
}

impl Mutator for NaiveMutator {
    /// One call applies one to five edits, each drawn for the input as the
    /// edits before it left it.
    open spec fn mutates_to(old: Seq<u8>, new: Seq<u8>) -> bool {
        exists|edits: Seq<Edit>|
            MIN_STACKED_MUTATIONS <= edits.len() <= MAX_STACKED_MUTATIONS && edits_drawn(
                old.len() as int,
                edits,
            ) && new == #[trigger] apply_edits_spec(old, edits)
    }

    /// The generator is the one that `seed` builds.
    closed spec fn is_seeded_with(&self, seed: u64) -> bool {
        self.rng == seeded_small_rng(seed)
    }

    fn mutate(&mut self, buf: &mut Vec<u8>) {
        // Stack 1 to 5 mutations.
        let mutator_count = gen_range_inclusive(
            &mut self.rng,
            MIN_STACKED_MUTATIONS,
            MAX_STACKED_MUTATIONS,
        );
        let edits = self.draw_edits(mutator_count, buf.len());
        proof {
            lemma_drawn_edits_fit(buf.len() as int, edits@);
        }
        let ghost before = buf@;
        apply_edits(buf, &edits);
        assert(buf@ == apply_edits_spec(before, edits@));
    }

    fn new() -> Option<Self> {
        match small_rng_from_os() {
            Ok(rng) => Some(NaiveMutator { rng }),
            Err(_) => None,
        }
    }

    fn new_from_seed(seed: u64) -> Self {
        NaiveMutator { rng: small_rng_seed_from_u64(seed) }
    }
}

/// Two mutators seeded with the same seed are the same mutator.
pub proof fn lemma_same_seed_same_mutator(m1: NaiveMutator, m2: NaiveMutator, seed: u64)
    requires
        m1.is_seeded_with(seed),
        m2.is_seeded_with(seed),
    ensures
        m1 == m2,
{
}

/// One call of `NaiveMutator::mutate` changes the length of an input by
/// at most five blocks of sixteen bytes.
pub proof fn lemma_naive_mutation_length(old: Seq<u8>, new: Seq<u8>)
    requires
        NaiveMutator::mutates_to(old, new),
    ensures
        old.len() - MAX_STACKED_MUTATIONS * MAX_BLOCK_LEN <= new.len() <= old.len()
            + MAX_STACKED_MUTATIONS * MAX_BLOCK_LEN,
{
    let edits = choose|edits: Seq<Edit>|
        MIN_STACKED_MUTATIONS <= edits.len() <= MAX_STACKED_MUTATIONS && edits_drawn(
            old.len() as int,
            edits,
        ) && new == #[trigger] apply_edits_spec(old, edits);
    lemma_drawn_edits_fit(old.len() as int, edits);
    lemma_edits_length(old, edits);
    assert(edits.len() * MAX_BLOCK_LEN <= MAX_STACKED_MUTATIONS * MAX_BLOCK_LEN) by (nonlinear_arith)
        requires
            edits.len() <= MAX_STACKED_MUTATIONS,
    ;
}

/// Draws a kind of edit uniformly.
fn sample_mutation_type(rng: &mut SmallRng) -> (t: MutationType) {
    let i = gen_range_inclusive(rng, 0, 3);
    mutation_type_from_index(i)
}

impl NaiveMutator {
    /// Draws `count` edits in a row for an input of length `len`, each for
    /// the length that the edits before it leave.
    fn draw_edits(&mut self, count: usize, len: usize) -> (edits: Vec<Edit>)
        ensures
            edits.len() == count,
            edits_drawn(len as int, edits@),
    {
        let mut edits: Vec<Edit> = Vec::new();
        let mut cur: usize = len;
        let mut i: usize = 0;
        while i < count
            invariant
                i <= count,
                edits.len() == i,
                edits_drawn(len as int, edits@),
                cur == length_after_edits(len as int, edits@),
            decreases count - i,
        {
            let e = self.handle_mutation(cur);
            let next = edit_length(cur, &e);
            let ghost prev = edits@;
            edits.push(e);
            proof {
                assert(edits@.drop_last() =~= prev);
            }
            cur = next;
            i = i + 1;
        }
        edits
    }

    /// Draws one edit of a randomly drawn kind for an input of length `len`.
    fn handle_mutation(&mut self, len: usize) -> (e: Edit)
        ensures
            is_drawn_edit(e, len as int),
    {
        let t = sample_mutation_type(&mut self.rng);
        let e = self.draw_edit_of_kind(t, len);
        assert(edit_of_kind(e, t, len as int));
        e
    }

    /// Draws one edit of kind `kind` for an input of length `len`.
    fn draw_edit_of_kind(&mut self, kind: MutationType, len: usize) -> (e: Edit)
        ensures
            edit_of_kind(e, kind, len as int),
    {
        match kind {
            MutationType::BitFlip => self.handle_bit_flip(len),
            MutationType::ByteOverwrite => self.handle_byte_overwrite(len),
            MutationType::InsertBlock => self.handle_insert_block(len),
            MutationType::EraseBlock => self.handle_erase_block(len),
        }
    }

    /// Draws a flip of one random bit of one random byte.
    fn handle_bit_flip(&mut self, len: usize) -> (e: Edit)
        ensures
            edit_of_kind(e, MutationType::BitFlip, len as int),
    {
        if len == 0 {
            return Edit::Keep;
        }
        let idx = gen_range_inclusive(&mut self.rng, 0, len - 1);
        let bit = gen_range_inclusive(&mut self.rng, 0, 7);
        Edit::BitFlip { idx, bit: bit as u8 }
    }

    /// Draws an overwrite of one random byte with a random value.
    fn handle_byte_overwrite(&mut self, len: usize) -> (e: Edit)
        ensures
            edit_of_kind(e, MutationType::ByteOverwrite, len as int),
    {
        if len == 0 {
            return Edit::Keep;
        }
        let idx = gen_range_inclusive(&mut self.rng, 0, len - 1);
        let byte = gen_byte(&mut self.rng);
        Edit::ByteOverwrite { idx, byte }
    }

    /// Draws an erasure of a random block of 1 to 16 bytes.
    fn handle_erase_block(&mut self, len: usize) -> (e: Edit)
        ensures
            edit_of_kind(e, MutationType::EraseBlock, len as int),
    {
        if len == 0 {
            return Edit::Keep;
        }
        let max_len = if len < MAX_BLOCK_LEN { len } else { MAX_BLOCK_LEN };
        let n = gen_range_inclusive(&mut self.rng, 1, max_len);
        let start = gen_range_inclusive(&mut self.rng, 0, len - n);
        Edit::EraseBlock { start, len: n }
    }

    /// Draws an insertion of a block of 1 to 16 random bytes at a random
    /// position.
    fn handle_insert_block(&mut self, len: usize) -> (e: Edit)
        ensures
            edit_of_kind(e, MutationType::InsertBlock, len as int),
    {
        if len > usize::MAX - MAX_BLOCK_LEN {
            return Edit::Keep;
        }
        let pos = gen_range_inclusive(&mut self.rng, 0, len);
        let n = gen_range_inclusive(&mut self.rng, 1, MAX_BLOCK_LEN);
        let mut block: Vec<u8> = Vec::with_capacity(n);
        let mut k: usize = 0;
        while k < n
            invariant
                k <= n,
                block.len() == k,
            decreases n - k,
        {
            block.push(gen_byte(&mut self.rng));
            k = k + 1;
        }
        Edit::InsertBlock { pos, block }
    }
}

} // verus!
