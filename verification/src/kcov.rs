//! The kernel coverage (kcov) trace buffer.
//!
//! kcov shares a buffer of `KCOV_COVER_SIZE` 64-bit words with the process:
//! word 0 counts the program counters recorded since tracing was enabled,
//! and words 1 onward hold them. Opening the device, the ioctls and the
//! mapping are the application's; reading the buffer is here.

use vstd::prelude::*;

verus! {

/// The number of 64-bit words in the trace buffer.
pub const KCOV_COVER_SIZE: usize = 64 << 10;

/// Why kcov could not be set up or driven.
#[derive(Debug)]
pub enum KCOVError {
    Initialization(String),
    Ioctl(String),
    Mmap(String),
}

/// The text that describes `e`: a prefix naming the failed step, then the
/// detail.
pub open spec fn kcov_error_text(e: KCOVError) -> Seq<char> {
    match e {
        KCOVError::Initialization(s) => "Init error: "@ + s@,
        KCOVError::Ioctl(s) => "Ioctl error: "@ + s@,
        KCOVError::Mmap(s) => "Mmap error: "@ + s@,
    }
}

impl KCOVError {
    /// The text that describes this error, as it is displayed.
    pub fn message(&self) -> (text: String)
        ensures
            text@ == kcov_error_text(*self),
    {
        match self {
            KCOVError::Initialization(s) => {
                let mut text = String::from_str("Init error: ");
                text.append(s.as_str());
                text
            },
            KCOVError::Ioctl(s) => {
                let mut text = String::from_str("Ioctl error: ");
                text.append(s.as_str());
                text
            },
            KCOVError::Mmap(s) => {
                let mut text = String::from_str("Mmap error: ");
                text.append(s.as_str());
                text
            },
        }
    }
}

/// The program counters that the trace buffer `cover` holds: the first
/// `cover[0]` words after word 0, or none when that count exceeds
/// `KCOV_COVER_SIZE` or the words it counts do not all lie in `cover`.
pub open spec fn spec_collect(cover: Seq<u64>) -> Seq<u64> {
    let n = cover[0];
    if n > KCOV_COVER_SIZE || n >= cover.len() {
        Seq::empty()
    } else {
        cover.subrange(1, n + 1)
    }
}

/// When the count word `n` is at most `KCOV_COVER_SIZE` and the `n`
/// words after it lie in the buffer, the records are exactly those `n`
/// words, in order; otherwise there are none.
pub proof fn lemma_collect_counts(cover: Seq<u64>)
    requires
        cover.len() >= 1,
    ensures
        cover[0] <= KCOV_COVER_SIZE && cover[0] < cover.len() ==> {
            &&& spec_collect(cover).len() == cover[0]
            &&& forall|i: int| 0 <= i < cover[0] ==> #[trigger] spec_collect(cover)[i] == cover[i + 1]
        },
        !(cover[0] <= KCOV_COVER_SIZE && cover[0] < cover.len()) ==> spec_collect(cover).len() == 0,
        spec_collect(cover).len() <= KCOV_COVER_SIZE,
{
}

/// Copies the program counters recorded in the trace buffer `cover`.
pub fn collect_records(cover: &[u64]) -> (records: Vec<u64>)
    requires
        cover@.len() >= 1,
    ensures
        records@ == spec_collect(cover@),
{
    let n_records = cover[0];
    if n_records > KCOV_COVER_SIZE as u64 || n_records >= cover.len() as u64 {
        return Vec::new();
    }
    let n = n_records as usize;
    let mut records: Vec<u64> = Vec::with_capacity(n);
    let mut i: usize = 1;
    while i <= n
        invariant
            1 <= i <= n + 1,
            n < cover@.len(),
            records@ == cover@.subrange(1, i as int),
        decreases n + 1 - i,
    {
        records.push(cover[i]);
        i = i + 1;
        assert(records@ =~= cover@.subrange(1, i as int));
    }
    records
}

} // verus!
