use crate::error::{Error, ErrorKind};
use rand::RngCore;
use vstd::prelude::*;

verus! {

/// Relies on `RngCore::try_fill_bytes` of `rand::rngs::OsRng`: one byte from
/// the operating system's random source, or `None` when that source fails.
/// Nothing is known of the value.
#[verifier::external_body]
fn random_byte() -> (r: Option<u8>) {
    let mut b = [0u8; 1];
    match rand::rngs::OsRng.try_fill_bytes(&mut b) {
        Ok(()) => Some(b[0]),
        Err(_) => None,
    }
}

/// The most bytes written by one write call, which bounds the buffer size.
pub const SHRED_BUFFER_MAX: usize = 262144;

/// The number of overwrite passes.
pub const PASSES: usize = 4;

/// The total of a sequence of chunk lengths.
pub open spec fn total(chunks: Seq<usize>) -> int
    decreases chunks.len(),
{
    if chunks.len() == 0 {
        0
    } else {
        total(chunks.drop_last()) + chunks.last()
    }
}

/// The bytes one pass writes from the start of the file: each chunk filled with `byte`.
pub open spec fn fill(byte: u8, chunks: Seq<usize>) -> Seq<u8>
    decreases chunks.len(),
{
    if chunks.len() == 0 {
        seq![]
    } else {
        fill(byte, chunks.drop_last()) + Seq::new(chunks.last() as nat, |_i: int| byte)
    }
}

/// Chunks that cover `size` bytes: full buffers, then the rest if any.
pub open spec fn chunks_cover(chunks: Seq<usize>, size: u64) -> bool {
    &&& total(chunks) == size
    &&& forall|i: int| 0 <= i < chunks.len() ==> 0 < #[trigger] chunks[i] <= SHRED_BUFFER_MAX
    &&& forall|i: int| 0 <= i < chunks.len() - 1 ==> #[trigger] chunks[i] == SHRED_BUFFER_MAX
}

/// Splits `size` bytes into write calls of at most `SHRED_BUFFER_MAX` bytes.
pub fn chunk_lengths(size: u64) -> (r: Vec<usize>)
    ensures
        chunks_cover(r@, size),
{
    let mut r: Vec<usize> = Vec::new();
    let mut remaining: u64 = size;
    while remaining >= SHRED_BUFFER_MAX as u64
        invariant
            remaining <= size,
            total(r@) + remaining == size,
            forall|i: int| 0 <= i < r@.len() ==> #[trigger] r@[i] == SHRED_BUFFER_MAX,
        decreases remaining,
    {
        let ghost before = r@;
        r.push(SHRED_BUFFER_MAX);
        assert(r@.drop_last() =~= before);
        remaining = remaining - SHRED_BUFFER_MAX as u64;
    }
    if remaining > 0 {
        let ghost before = r@;
        r.push(remaining as usize);
        assert(r@.drop_last() =~= before);
    }
    r
}

/// The bytes of the four passes: three drawn values, then zero.
pub fn pass_bytes(first: u8, second: u8, third: u8) -> (r: Vec<u8>)
    ensures
        r@ == seq![first, second, third, 0u8],
{
    let r = vec![first, second, third, 0u8];
    assert(r@ =~= seq![first, second, third, 0u8]);
    r
}

/// How a file is overwritten: each pass fills every chunk with its byte,
/// from the start of the file, and is synced before the next begins.
pub struct ShredPlan {
    pub passes: Vec<u8>,
    pub chunks: Vec<usize>,
}

/// Plans the overwrite of a file of `size` bytes, drawing one random byte
/// for each of the first three passes. Fails with `Io`, naming `path`, when
/// the random source fails.
pub fn plan_shred(path: &str, size: u64) -> (r: Result<ShredPlan, Error>)
    ensures
        r matches Ok(plan) ==> {
            &&& plan.passes@.len() == PASSES
            &&& plan.passes@[PASSES - 1] == 0
            &&& chunks_cover(plan.chunks@, size)
        },
        r matches Err(e) ==> e.kind == ErrorKind::Io && e.path@ == path@,
{
    let first = match random_byte() {
        Some(b) => b,
        None => return Err(Error::new(ErrorKind::Io, path)),
    };
    let second = match random_byte() {
        Some(b) => b,
        None => return Err(Error::new(ErrorKind::Io, path)),
    };
    let third = match random_byte() {
        Some(b) => b,
        None => return Err(Error::new(ErrorKind::Io, path)),
    };
    Ok(ShredPlan { passes: pass_bytes(first, second, third), chunks: chunk_lengths(size) })
}

/// Filling chunks with one byte writes that byte over their whole total.
pub proof fn lemma_fill_uniform(byte: u8, chunks: Seq<usize>)
    ensures
        total(chunks) >= 0,
        fill(byte, chunks) == Seq::new(total(chunks) as nat, |_i: int| byte),
    decreases chunks.len(),
{
    if chunks.len() > 0 {
        lemma_fill_uniform(byte, chunks.drop_last());
        assert(fill(byte, chunks) =~= Seq::new(total(chunks) as nat, |_i: int| byte));
    }
}

/// Every pass of a plan writes exactly the file's length, and the last
/// leaves every byte zero.
pub proof fn lemma_shred_covers_file(plan: ShredPlan, size: u64)
    requires
        plan.passes@.len() == PASSES,
        plan.passes@[PASSES - 1] == 0,
        chunks_cover(plan.chunks@, size),
    ensures
        forall|p: int|
            0 <= p < PASSES ==> (#[trigger] fill(plan.passes@[p], plan.chunks@)).len() == size,
        fill(plan.passes@[PASSES - 1], plan.chunks@) == Seq::new(size as nat, |_i: int| 0u8),
{
    assert forall|p: int| 0 <= p < PASSES implies (#[trigger] fill(
        plan.passes@[p],
        plan.chunks@,
    )).len() == size by {
        lemma_fill_uniform(plan.passes@[p], plan.chunks@);
    }
    lemma_fill_uniform(0u8, plan.chunks@);
}

} // verus!

