//! The ioctl request that runs a KFuzzTest target.
//!
//! Running a target is writing the input to the target's debugfs file and
//! issuing this request on it; both are the application's.

use vstd::prelude::*;

verus! {

/// The ioctl type of KFuzzTest requests, `'K'`.
pub const KFUZZ_IOC_MAGIC: u8 = 0x4b;

/// The request that runs the target whose id is its argument:
/// `_IO('K', 1)`.
pub const KFUZZ_IOC_RUN: u32 = 0x4b01;

/// The request code `_IO(ty, nr)` of Linux: no direction, no size, the type
/// in bits 8 to 15 and the number in bits 0 to 7.
pub open spec fn spec_io_request(ty: u8, nr: u8) -> int {
    (ty as u32) * 256 + nr as u32
}

/// Computes `_IO(ty, nr)` as the kernel headers do.
pub fn io_request(ty: u8, nr: u8) -> (code: u32)
    ensures
        code == spec_io_request(ty, nr),
{
    let t = ty as u32;
    let n = nr as u32;
    let code: u32 = (0u32 << 30u32) | (t << 8u32) | (n << 0u32) | (0u32 << 16u32);
    assert(code == t * 256 + n) by (bit_vector)
        requires
            t < 256,
            n < 256,
            code == (0u32 << 30u32) | (t << 8u32) | (n << 0u32) | (0u32 << 16u32),
    ;
    code
}

/// The type and the number can be read back from a request code: the
/// type is its second byte and the number its first.
pub proof fn lemma_io_request_decodes(ty: u8, nr: u8)
    ensures
        spec_io_request(ty, nr) / 256 == ty,
        spec_io_request(ty, nr) % 256 == nr,
        0 <= spec_io_request(ty, nr) < 0x10000,
{
}

/// The run request is `_IO('K', 1)`.
pub proof fn lemma_run_request()
    ensures
        KFUZZ_IOC_RUN == spec_io_request(KFUZZ_IOC_MAGIC, 1),
{
}

} // verus!
