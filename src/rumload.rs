//! Program images: big-endian 32-bit words.

use vstd::prelude::*;

verus! {

/// Why a byte stream is no program.
#[derive(Clone, Copy, Debug, PartialEq, Eq, Structural)]
pub enum LoadError {
    /// The length is not a multiple of 4: `count` bytes are left over.
    TrailingBytes { count: usize },
}

/// The big-endian word of the four bytes.
pub open spec fn be_word(b0: u8, b1: u8, b2: u8, b3: u8) -> int {
    b0 as int * 0x100_0000 + b1 as int * 0x1_0000 + b2 as int * 0x100 + b3 as int
}

/// The words of `bytes`, four bytes each, most significant first.
pub open spec fn words_of(bytes: Seq<u8>) -> Seq<u32> {
    Seq::new(
        bytes.len() / 4,
        |i: int| be_word(bytes[4 * i], bytes[4 * i + 1], bytes[4 * i + 2], bytes[4 * i + 3]) as u32,
    )
}

/// Reads a program image: each group of four bytes is one big-endian
/// instruction word. A length that is not a multiple of 4 is an error.
pub fn words_from_bytes(bytes: &[u8]) -> (r: Result<Vec<u32>, LoadError>)
    ensures
        bytes@.len() % 4 == 0 ==> r is Ok && r->Ok_0@ == words_of(bytes@),
        bytes@.len() % 4 != 0 ==> r == Err::<Vec<u32>, LoadError>(
            LoadError::TrailingBytes { count: (bytes@.len() % 4) as usize },
        ),
{
    let len = bytes.len();
    if len % 4 != 0 {
        return Err(LoadError::TrailingBytes { count: len % 4 });
    }
    let n = len / 4;
    let mut words: Vec<u32> = Vec::with_capacity(n);
    let mut i: usize = 0;
    while i < n
        invariant
            n == bytes@.len() / 4,
            bytes@.len() == len,
            i <= n,
            words@ =~= words_of(bytes@).subrange(0, i as int),
        decreases n - i,
    {
        let k = 4 * i;
        let w = (bytes[k] as u32) * 0x100_0000 + (bytes[k + 1] as u32) * 0x1_0000 + (bytes[k + 2]
            as u32) * 0x100 + bytes[k + 3] as u32;
        words.push(w);
        i = i + 1;
    }
    Ok(words)
}

} // verus!
