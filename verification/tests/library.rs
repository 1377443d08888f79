use kfuzz_uring::blob_mutator::{
    apply_bit_flip, apply_byte_overwrite, apply_edit, apply_edits, apply_erase_block,
    apply_insert_block, edit_length, Edit,
    mutation_type_from_index, MutationType, Mutator, NaiveMutator, MAX_BLOCK_LEN,
    MAX_STACKED_MUTATIONS,
};
use kfuzz_uring::kcov::{collect_records, KCOVError, KCOV_COVER_SIZE};
use kfuzz_uring::kfuzz_executor::{io_request, KFUZZ_IOC_MAGIC, KFUZZ_IOC_RUN};
use kfuzz_uring::kfuzz_manager::{
    format_coverage_report, record_run, total_corpus_size, CoverageMap, RecordError,
};
use kfuzz_uring::kfuzz_stats::KFuzzStats;
use kfuzz_uring::kfuzz_target::{
    compute_energy, parse_fuzz_listing, splice_inputs, Corpus, CorpusEntry, KFuzzTarget,
    KUnitInfo, DEFAULT_ENERGY,
};
use kfuzz_uring::text::{char_is_whitespace, parse_u32_range, trim_range};
use std::sync::atomic::Ordering;

fn info(name: &str, id: u32) -> KUnitInfo {
    KUnitInfo { suite: "suite".to_string(), name: name.to_string(), id }
}

#[test]
fn bit_flip_flips_one_bit_and_twice_restores() {
    let mut buf = vec![0u8, 0xff, 0x10];
    apply_bit_flip(&mut buf, 1, 0);
    assert_eq!(buf, vec![0u8, 0xfe, 0x10]);
    apply_bit_flip(&mut buf, 2, 7);
    assert_eq!(buf, vec![0u8, 0xfe, 0x90]);
    apply_bit_flip(&mut buf, 2, 7);
    apply_bit_flip(&mut buf, 1, 0);
    assert_eq!(buf, vec![0u8, 0xff, 0x10]);
}

#[test]
fn byte_overwrite_replaces_one_byte() {
    let mut buf = vec![1u8, 2, 3];
    apply_byte_overwrite(&mut buf, 0, 9);
    assert_eq!(buf, vec![9u8, 2, 3]);
}

#[test]
fn erase_undoes_insert() {
    let mut buf = vec![1u8, 2, 3, 4];
    let block = vec![7u8, 8, 9];
    apply_insert_block(&mut buf, 2, &block);
    assert_eq!(buf, vec![1u8, 2, 7, 8, 9, 3, 4]);
    apply_erase_block(&mut buf, 2, 3);
    assert_eq!(buf, vec![1u8, 2, 3, 4]);
}

#[test]
fn insert_and_erase_at_the_edges() {
    let mut buf: Vec<u8> = Vec::new();
    apply_insert_block(&mut buf, 0, &vec![5u8]);
    assert_eq!(buf, vec![5u8]);
    apply_insert_block(&mut buf, 1, &vec![6u8, 7]);
    assert_eq!(buf, vec![5u8, 6, 7]);
    apply_erase_block(&mut buf, 0, 3);
    assert!(buf.is_empty());
}

#[test]
fn mutation_types_follow_the_draw() {
    assert_eq!(mutation_type_from_index(0), MutationType::BitFlip);
    assert_eq!(mutation_type_from_index(1), MutationType::ByteOverwrite);
    assert_eq!(mutation_type_from_index(2), MutationType::InsertBlock);
    assert_eq!(mutation_type_from_index(3), MutationType::EraseBlock);
    assert_eq!(mutation_type_from_index(17), MutationType::EraseBlock);
}

#[test]
fn naive_mutator_changes_inputs_within_bounds() {
    let mut m = NaiveMutator::new_from_seed(42);
    let original = vec![b'A'; 5];
    let bound = MAX_STACKED_MUTATIONS * MAX_BLOCK_LEN;
    let mut changed = false;
    for _ in 0..200 {
        let mut buf = original.clone();
        m.mutate(&mut buf);
        assert!(buf.len() <= original.len() + bound);
        if buf != original {
            changed = true;
        }
    }
    assert!(changed);
}

#[test]
fn naive_mutator_is_reproducible_from_a_seed() {
    let mut a = NaiveMutator::new_from_seed(7);
    let mut b = NaiveMutator::new_from_seed(7);
    for _ in 0..50 {
        let mut x = vec![1u8, 2, 3, 4, 5, 6];
        let mut y = x.clone();
        a.mutate(&mut x);
        b.mutate(&mut y);
        assert_eq!(x, y);
    }
}

#[test]
fn naive_mutator_seeded_by_the_system_runs() {
    let mut m = NaiveMutator::new().expect("the system provides a seed");
    let mut buf: Vec<u8> = Vec::new();
    for _ in 0..20 {
        m.mutate(&mut buf);
    }
    assert!(buf.len() <= 20 * MAX_STACKED_MUTATIONS * MAX_BLOCK_LEN);
}

#[test]
fn default_entry_is_five_a_with_default_energy() {
    let e = CorpusEntry::default();
    assert_eq!(e.data, vec![b'A'; 5]);
    assert_eq!(e.energy, 10);
    assert_eq!(DEFAULT_ENERGY, 10);
    let n = CorpusEntry::new(vec![1, 2], 33);
    assert_eq!(n.data, vec![1u8, 2]);
    assert_eq!(n.energy, 33);
    let d = n.duplicate();
    assert_eq!(d.data, n.data);
    assert_eq!(d.energy, 33);
}

#[test]
fn energy_is_ten_plus_ten_per_feature() {
    assert_eq!(compute_energy(0, 0), 10);
    assert_eq!(compute_energy(1000, 1), 20);
    assert_eq!(compute_energy(3, 7), 80);
    assert!(compute_energy(0, 3) < compute_energy(0, 4));
}

#[test]
fn corpus_starts_with_the_seed_and_grows_by_add() {
    let mut c: Corpus<NaiveMutator> = Corpus::new(1);
    assert_eq!(c.size(), 1);
    assert_eq!(c.total_energy(), 10);
    c.add(CorpusEntry::new(vec![1, 2, 3], 30));
    assert_eq!(c.size(), 2);
    assert_eq!(c.total_energy(), 40);
}

#[test]
fn corpus_next_input_leaves_the_corpus_as_it_was() {
    let mut c: Corpus<NaiveMutator> = Corpus::new(5);
    c.add(CorpusEntry::new(vec![0xAA; 8], 20));
    c.add(CorpusEntry::new(Vec::new(), 20));
    for _ in 0..300 {
        let input = c.next_input();
        assert!(input.len() <= 8 + MAX_STACKED_MUTATIONS * MAX_BLOCK_LEN);
    }
    assert_eq!(c.size(), 3);
    assert_eq!(c.total_energy(), 50);
}

#[test]
fn corpus_splices_sometimes() {
    // With entries of only 0x01 and 0x02 bytes, a splice yields both bytes
    // side by side while a mutation of one entry rarely does so.
    let mut c: Corpus<NaiveMutator> = Corpus::new(11);
    c.add(CorpusEntry::new(vec![0x01; 40], 1_000_000));
    c.add(CorpusEntry::new(vec![0x02; 40], 1_000_000));
    let mut spliced = 0;
    for _ in 0..400 {
        let input = c.next_input();
        let ones = input.iter().filter(|&&b| b == 0x01).count();
        let twos = input.iter().filter(|&&b| b == 0x02).count();
        if ones > 20 && twos > 20 {
            spliced += 1;
        }
    }
    assert!(spliced > 0);
}

#[test]
fn corpus_never_picks_zero_energy_entries() {
    // The seed entry has energy 10; the added one has none and is never
    // picked, so no input is derived from its 0x07 bytes.
    let mut c: Corpus<NaiveMutator> = Corpus::new(3);
    c.add(CorpusEntry::new(vec![0x07; 64], 0));
    for _ in 0..300 {
        let input = c.next_input();
        assert!(input.iter().filter(|&&b| b == 0x07).count() < 20);
    }
}

#[test]
fn target_new_starts_with_the_seed_corpus() {
    let t = KFuzzTarget::new(info("fuzz_x", 3), 9).unwrap();
    assert_eq!(t.info.name, "fuzz_x");
    assert_eq!(t.info.id, 3);
    assert_eq!(t.corpus.size(), 1);
    assert_eq!(t.total_coverage, 0);
}

#[test]
fn listing_parses_id_colon_name_lines() {
    let content = "0: fuzz_pkcs7_parse_message\n  12 :  other_target  \r\nnot a target\nx: bad id\n+7:plus\n-1: minus\n4294967296: too big\n4294967295:max\n";
    let infos = parse_fuzz_listing("pkcs7", content);
    let got: Vec<(u32, String, String)> =
        infos.iter().map(|i| (i.id, i.name.clone(), i.suite.clone())).collect();
    assert_eq!(
        got,
        vec![
            (0, "fuzz_pkcs7_parse_message".to_string(), "pkcs7".to_string()),
            (12, "other_target".to_string(), "pkcs7".to_string()),
            (7, "plus".to_string(), "pkcs7".to_string()),
            (4294967295, "max".to_string(), "pkcs7".to_string()),
        ]
    );
}

#[test]
fn listing_handles_empty_and_unterminated_text() {
    assert!(parse_fuzz_listing("s", "").is_empty());
    assert!(parse_fuzz_listing("s", "\n\n").is_empty());
    let infos = parse_fuzz_listing("s", "5:last:colon");
    assert_eq!(infos.len(), 1);
    assert_eq!(infos[0].id, 5);
    assert_eq!(infos[0].name, "last:colon");
    let infos = parse_fuzz_listing("s", "\u{3000}9:\u{00a0}wide\u{2003}");
    assert_eq!(infos.len(), 1);
    assert_eq!(infos[0].id, 9);
    assert_eq!(infos[0].name, "wide");
    assert!(parse_fuzz_listing("s", "+: x\n:y\n").is_empty());
}

#[test]
fn listing_matches_the_standard_library() {
    let content = "1:a\n 2 : b c \n3\n\t4\t:\td\t\n0005:e\n";
    let expected: Vec<(u32, String)> = content
        .lines()
        .filter_map(|line| {
            let (id, name) = line.trim().split_once(':')?;
            let id = id.trim().parse::<u32>().ok()?;
            Some((id, name.trim().to_string()))
        })
        .collect();
    let got: Vec<(u32, String)> =
        parse_fuzz_listing("s", content).into_iter().map(|i| (i.id, i.name)).collect();
    assert_eq!(got, expected);
}

#[test]
fn text_helpers_agree_with_std() {
    for c in [' ', '\t', '\n', '\r', '\u{85}', '\u{a0}', '\u{2000}', '\u{3000}', 'a', '0', '\u{200b}'] {
        assert_eq!(char_is_whitespace(c), c.is_whitespace());
    }
    let chars: Vec<char> = "  ab c \t".chars().collect();
    assert_eq!(trim_range(&chars, 0, chars.len()), (2, 6));
    let digits: Vec<char> = "+0042".chars().collect();
    assert_eq!(parse_u32_range(&digits, 0, digits.len()), Some(42));
    assert_eq!(parse_u32_range(&digits, 0, 1), None);
    assert_eq!(parse_u32_range(&digits, 0, 0), None);
}

#[test]
fn coverage_map_counts_new_program_counters_once() {
    let mut m = CoverageMap::new();
    assert_eq!(m.size(), 0);
    let new = m.add_trace(&[5, 3, 5, 9, 3]);
    assert_eq!(new, vec![5u64, 3, 9]);
    assert_eq!(m.size(), 3);
    let again = m.add_trace(&[5, 3, 5, 9, 3]);
    assert!(again.is_empty());
    assert_eq!(m.size(), 3);
    let more = m.add_trace(&[9, 1]);
    assert_eq!(more, vec![1u64]);
    assert_eq!(m.size(), 4);
}

#[test]
fn record_run_adds_inputs_that_find_coverage() {
    let mut t = KFuzzTarget::new(info("t", 1), 2).unwrap();
    let mut cov = CoverageMap::new();
    let found = record_run(&mut t, &mut cov, vec![1, 2, 3], &[10, 11, 10]).unwrap();
    assert_eq!(found, vec![10u64, 11]);
    assert_eq!(t.corpus.size(), 2);
    assert_eq!(t.corpus.total_energy(), 10 + 30);
    let nothing = record_run(&mut t, &mut cov, vec![4], &[11, 10]).unwrap();
    assert!(nothing.is_empty());
    assert_eq!(t.corpus.size(), 2);
    assert_eq!(cov.size(), 2);
}

#[test]
fn record_run_refuses_energy_overflow() {
    let mut t = KFuzzTarget::new(info("t", 1), 2).unwrap();
    t.corpus.add(CorpusEntry::new(vec![1], u64::MAX - 15));
    let mut cov = CoverageMap::new();
    let r = record_run(&mut t, &mut cov, vec![1], &[77]);
    assert_eq!(r, Err(RecordError::EnergyOverflow));
    assert_eq!(t.corpus.size(), 2);
    assert_eq!(cov.size(), 1);
}

#[test]
fn total_corpus_size_adds_all_targets() {
    let mut a = KFuzzTarget::new(info("a", 0), 1).unwrap();
    let b = KFuzzTarget::new(info("b", 1), 1).unwrap();
    a.corpus.add(CorpusEntry::new(vec![], 1));
    assert_eq!(total_corpus_size(&vec![a, b]), Some(3));
    assert_eq!(total_corpus_size(&Vec::new()), Some(0));
}

#[test]
fn coverage_report_is_lowercase_hex_lines() {
    let pcs = vec![0u64, 0x1f, 0xffffffff81234abc, u64::MAX];
    let bytes = format_coverage_report(&pcs);
    let mut expected = String::new();
    for pc in &pcs {
        expected.push_str(&format!("{:#x}\n", pc));
    }
    assert_eq!(String::from_utf8(bytes).unwrap(), expected);
    assert!(format_coverage_report(&Vec::new()).is_empty());
}

#[test]
fn kcov_records_follow_the_count_word() {
    let cover = vec![3u64, 0xa, 0xb, 0xc, 0xd];
    assert_eq!(collect_records(&cover), vec![0xau64, 0xb, 0xc]);
    assert!(collect_records(&[0u64, 1, 2]).is_empty());
    // A count beyond the words present gives nothing.
    assert!(collect_records(&[9u64, 1, 2]).is_empty());
    let mut big = vec![0u64; 4];
    big[0] = KCOV_COVER_SIZE as u64 + 1;
    assert!(collect_records(&big).is_empty());
}

#[test]
fn kcov_error_messages() {
    assert_eq!(KCOVError::Initialization("x".into()).message(), "Init error: x");
    assert_eq!(KCOVError::Ioctl("y".into()).message(), "Ioctl error: y");
    assert_eq!(KCOVError::Mmap("z".into()).message(), "Mmap error: z");
}

#[test]
fn run_request_is_io_k_1() {
    assert_eq!(io_request(KFUZZ_IOC_MAGIC, 1), KFUZZ_IOC_RUN);
    assert_eq!(KFUZZ_IOC_RUN, 0x4b01);
    assert_eq!(io_request(b'c', 100), 0x6364);
}

#[test]
fn stats_start_at_zero() {
    let s = KFuzzStats::new();
    assert_eq!(s.total_execs.load(Ordering::Relaxed), 0);
    assert_eq!(s.total_coverage.load(Ordering::Relaxed), 0);
    assert_eq!(s.total_corpus_size.load(Ordering::Relaxed), 0);
}

#[test]
fn coverage_size_is_the_sum_of_what_each_trace_found() {
    let mut m = CoverageMap::new();
    let traces: Vec<Vec<u64>> = vec![vec![1, 2, 2], vec![2, 3], vec![], vec![4, 1, 5, 4]];
    let mut found = 0;
    for t in &traces {
        found += m.add_trace(t).len();
    }
    assert_eq!(found, 5);
    assert_eq!(m.size(), found);
}

#[test]
fn corpora_keep_the_default_energy_as_a_floor() {
    let mut t = KFuzzTarget::new(info("t", 1), 4).unwrap();
    let mut cov = CoverageMap::new();
    for k in 0..20u64 {
        let input = t.corpus.next_input();
        record_run(&mut t, &mut cov, input, &[k, k + 100]).unwrap();
        assert!(t.corpus.total_energy() >= 10 * t.corpus.size() as u64);
    }
    assert_eq!(t.corpus.size(), 21);
}

#[test]
fn corpora_from_the_same_seed_give_the_same_inputs() {
    let mut a: Corpus<NaiveMutator> = Corpus::new(99);
    let mut b: Corpus<NaiveMutator> = Corpus::new(99);
    for k in 0..100u64 {
        let x = a.next_input();
        let y = b.next_input();
        assert_eq!(x, y);
        if k % 10 == 0 {
            a.add(CorpusEntry::new(x, 10 + k));
            b.add(CorpusEntry::new(y, 10 + k));
        }
    }
}

#[test]
fn edits_apply_in_order() {
    let mut buf = vec![1u8, 2, 3, 4];
    let edits = vec![
        Edit::BitFlip { idx: 0, bit: 1 },
        Edit::InsertBlock { pos: 4, block: vec![9, 9] },
        Edit::EraseBlock { start: 1, len: 2 },
        Edit::ByteOverwrite { idx: 0, byte: 0x55 },
        Edit::Keep,
    ];
    apply_edits(&mut buf, &edits);
    assert_eq!(buf, vec![0x55u8, 4, 9, 9]);
    let mut one = vec![7u8];
    apply_edit(&mut one, &Edit::EraseBlock { start: 0, len: 1 });
    assert!(one.is_empty());
    assert_eq!(edit_length(3, &Edit::InsertBlock { pos: 1, block: vec![1, 2] }), 5);
    assert_eq!(edit_length(3, &Edit::EraseBlock { start: 0, len: 3 }), 0);
    assert_eq!(edit_length(3, &Edit::Keep), 3);
}

#[test]
fn splice_takes_a_head_and_a_tail() {
    let a = vec![1u8, 2, 3, 4];
    let b = vec![5u8, 6, 7];
    assert_eq!(splice_inputs(&a, &b, 2, 1), vec![1u8, 2, 6, 7]);
    assert_eq!(splice_inputs(&a, &b, 0, 3), Vec::<u8>::new());
    assert_eq!(splice_inputs(&Vec::new(), &b, 0, 0), b);
}

#[test]
fn input_from_draws_splices_or_mutates() {
    let mut c: Corpus<NaiveMutator> = Corpus::new(8);
    c.add(CorpusEntry::new(vec![1, 2, 3], 10));
    c.add(CorpusEntry::new(vec![4, 5, 6, 7], 10));
    assert_eq!(c.input_from_draws(true, 1, 2, 2, 1), vec![1u8, 2, 5, 6, 7]);
    assert_eq!(c.input_from_draws(true, 0, 1, 4, 0), vec![b'A', b'A', b'A', b'A', 1, 2, 3]);
    let mutated = c.input_from_draws(false, 2, 2, 0, 0);
    assert!(mutated.len() <= 4 + MAX_STACKED_MUTATIONS * MAX_BLOCK_LEN);
    assert_eq!(c.size(), 3);
}
