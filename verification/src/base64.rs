//! Base64 encoding with the standard alphabet and `=` padding, used to embed
//! bitmap images in SVG output.

use vstd::prelude::*;

verus! {

/// Character `v` of the standard Base64 alphabet.
pub open spec fn b64_char(v: int) -> char {
    "ABCDEFGHIJKLMNOPQRSTUVWXYZabcdefghijklmnopqrstuvwxyz0123456789+/"@[v]
}

/// Byte `k` of chunk `j` (three bytes per chunk), 0 past the end.
pub open spec fn chunk_byte(data: Seq<u8>, j: int, k: int) -> int {
    if 3 * j + k < data.len() {
        data[3 * j + k] as int
    } else {
        0
    }
}

/// The four characters that encode chunk `j`: four 6-bit groups of the
/// chunk's bytes (missing bytes count as zero), with `=` in place of the
/// groups that only missing bytes fill.
pub open spec fn encoded_chunk(data: Seq<u8>, j: int) -> Seq<char> {
    let b0 = chunk_byte(data, j, 0);
    let b1 = chunk_byte(data, j, 1);
    let b2 = chunk_byte(data, j, 2);
    let present = data.len() - 3 * j;
    seq![
        b64_char(b0 / 4),
        b64_char((b0 % 4) * 16 + b1 / 16),
        if present > 1 {
            b64_char((b1 % 16) * 4 + b2 / 64)
        } else {
            '='
        },
        if present > 2 {
            b64_char(b2 % 64)
        } else {
            '='
        },
    ]
}

/// The encoding of the first `k` chunks.
pub open spec fn encoded(data: Seq<u8>, k: int) -> Seq<char>
    decreases k,
{
    if k <= 0 {
        Seq::empty()
    } else {
        encoded(data, k - 1) + encoded_chunk(data, k - 1)
    }
}

/// The number of 3-byte chunks, the last possibly shorter.
pub open spec fn chunk_count(n: int) -> int {
    (n + 2) / 3
}

/// Base64 of the bytes, padded with `=`.
pub fn base64_encode(data: &[u8]) -> (r: String)
    ensures
        r@ == encoded(data@, chunk_count(data@.len() as int)),
{
    let table = "ABCDEFGHIJKLMNOPQRSTUVWXYZabcdefghijklmnopqrstuvwxyz0123456789+/";
    let n = data.len();
    let chunks = n / 3 + if n % 3 > 0 {
        1usize
    } else {
        0usize
    };
    assert(chunks == chunk_count(n as int));
    let mut out = String::new();
    let mut j: usize = 0;
    while j < chunks
        invariant
            n == data@.len(),
            chunks == chunk_count(n as int),
            table@ == "ABCDEFGHIJKLMNOPQRSTUVWXYZabcdefghijklmnopqrstuvwxyz0123456789+/"@,
            0 <= j <= chunks,
            out@ == encoded(data@, j as int),
        decreases chunks - j,
    {
        proof {
            reveal_strlit("ABCDEFGHIJKLMNOPQRSTUVWXYZabcdefghijklmnopqrstuvwxyz0123456789+/");
            reveal_strlit("=");
        }
        let present = n - 3 * j;
        let b0: usize = data[3 * j] as usize;
        let b1: usize = if present > 1 {
            data[3 * j + 1] as usize
        } else {
            0
        };
        let b2: usize = if present > 2 {
            data[3 * j + 2] as usize
        } else {
            0
        };
        let v0 = b0 / 4;
        let v1 = (b0 % 4) * 16 + b1 / 16;
        let v2 = (b1 % 16) * 4 + b2 / 64;
        let v3 = b2 % 64;
        let ghost before = out@;
        out = out.concat(table.substring_char(v0, v0 + 1));
        out = out.concat(table.substring_char(v1, v1 + 1));
        if present > 1 {
            out = out.concat(table.substring_char(v2, v2 + 1));
        } else {
            out = out.concat("=");
        }
        if present > 2 {
            out = out.concat(table.substring_char(v3, v3 + 1));
        } else {
            out = out.concat("=");
        }
        assert(out@ =~= before + encoded_chunk(data@, j as int));
        j = j + 1;
    }
    out
}

} // verus!
