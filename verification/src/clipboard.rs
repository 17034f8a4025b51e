//! Copying text to the system clipboard: the OSC 52 escape sequence and its base64
//! payload.

use vstd::prelude::*;
use vstd::string::StringSliceAdditionalSpecFns;
use vstd::utf8::encode_utf8;

verus! {

/// The base64 symbol for the digit `d`.
pub open spec fn symbol(d: int) -> char {
    if d < 26 {
        ('A' as int + d) as char
    } else if d < 52 {
        ('a' as int + d - 26) as char
    } else if d < 62 {
        ('0' as int + d - 52) as char
    } else if d == 62 {
        '+'
    } else {
        '/'
    }
}

/// Byte `i` of a chunk; bytes past its end count as 0.
pub open spec fn chunk_byte(chunk: Seq<u8>, i: int) -> int {
    if i < chunk.len() {
        chunk[i] as int
    } else {
        0
    }
}

/// The bits of a chunk of up to three bytes, as one number.
pub open spec fn chunk_bits(chunk: Seq<u8>) -> int {
    chunk_byte(chunk, 0) * 65536 + chunk_byte(chunk, 1) * 256 + chunk_byte(chunk, 2)
}

/// The four symbols for a chunk of one to three bytes; `=` stands for what it is
/// short of.
pub open spec fn chunk_symbols(chunk: Seq<u8>) -> Seq<char> {
    let n = chunk_bits(chunk);
    seq![
        symbol(n / 262144),
        symbol(n / 4096 % 64),
        if chunk.len() > 1 {
            symbol(n / 64 % 64)
        } else {
            '='
        },
        if chunk.len() > 2 {
            symbol(n % 64)
        } else {
            '='
        },
    ]
}

/// How many bytes the first chunk takes.
pub open spec fn chunk_len(input: Seq<u8>) -> int {
    if input.len() < 3 {
        input.len() as int
    } else {
        3
    }
}

/// The standard base64 encoding of `input`.
pub open spec fn base64(input: Seq<u8>) -> Seq<char>
    decreases input.len(),
{
    if input.len() == 0 {
        Seq::empty()
    } else {
        let k = chunk_len(input);
        chunk_symbols(input.take(k)) + base64(input.skip(k))
    }
}

fn symbol_of(d: u32) -> (c: char)
    requires
        d < 64,
    ensures
        c == symbol(d as int),
{
    let byte: u8 = if d < 26 {
        65 + d as u8
    } else if d < 52 {
        97 + (d as u8 - 26)
    } else if d < 62 {
        48 + (d as u8 - 52)
    } else if d == 62 {
        43
    } else {
        47
    };
    byte as char
}

/// Minimal standard base64 encoder.
pub fn base64_encode(input: &[u8]) -> (r: String)
    ensures
        r@ == base64(input@),
{
    let n = input.len();
    let mut out = String::new();
    let mut i: usize = 0;
    assert(input@.skip(0) =~= input@);
    assert(out@ + base64(input@) =~= base64(input@));
    while i < n
        invariant
            n == input@.len(),
            i <= n,
            out@ + base64(input@.skip(i as int)) == base64(input@),
        decreases n - i,
    {
        let ghost rest = input@.skip(i as int);
        let left: usize = n - i;
        let k: usize = if left < 3 {
            left
        } else {
            3
        };
        let ghost chunk = rest.take(k as int);
        let b0: u32 = input[i] as u32;
        let b1: u32 = if k > 1 {
            input[i + 1] as u32
        } else {
            0
        };
        let b2: u32 = if k > 2 {
            input[i + 2] as u32
        } else {
            0
        };
        let bits: u32 = b0 * 65536 + b1 * 256 + b2;
        assert(bits == chunk_bits(chunk));
        let ghost was = out@;
        out.push(symbol_of(bits / 262144));
        out.push(symbol_of(bits / 4096 % 64));
        out.push(
            if k > 1 {
                symbol_of(bits / 64 % 64)
            } else {
                '='
            },
        );
        out.push(
            if k > 2 {
                symbol_of(bits % 64)
            } else {
                '='
            },
        );
        proof {
            assert(out@ =~= was + chunk_symbols(chunk));
            assert(rest.skip(k as int) =~= input@.skip(i + k));
            assert(out@ + base64(input@.skip(i + k)) =~= was + (chunk_symbols(chunk) + base64(
                input@.skip(i + k),
            )));
        }
        i = i + k;
    }
    assert(out@ + Seq::<char>::empty() =~= out@);
    out
}

/// The escape sequence that copies `text`: ESC ] 52 ; c ; payload BEL.
pub open spec fn copy_sequence(text: Seq<char>) -> Seq<char> {
    "\x1b]52;c;"@ + base64(encode_utf8(text)) + seq!['\x07']
}

/// The OSC 52 escape sequence that copies `text` to the system clipboard. Works in
/// most modern terminals and over SSH (and through tmux with `set-clipboard on`).
pub fn copy_to_clipboard(text: &str) -> (r: String)
    ensures
        r@ == copy_sequence(text@),
{
    let mut out = "\x1b]52;c;".to_owned();
    out.append(base64_encode(text.as_bytes()).as_str());
    out.push('\x07');
    assert(out@ =~= copy_sequence(text@));
    out
}

// --- laws ----------------------------------------------------------------------

/// The digit that a base64 symbol stands for.
pub open spec fn digit_of(c: char) -> int {
    if 'A' <= c <= 'Z' {
        c as int - 'A' as int
    } else if 'a' <= c <= 'z' {
        c as int - 'a' as int + 26
    } else if '0' <= c <= '9' {
        c as int - '0' as int + 52
    } else if c == '+' {
        62
    } else {
        63
    }
}

/// The bytes that four symbols stand for.
pub open spec fn chunk_of(s: Seq<char>) -> Seq<u8> {
    let a = digit_of(s[0]);
    let b = digit_of(s[1]);
    let c = digit_of(s[2]);
    let d = digit_of(s[3]);
    if s[2] == '=' {
        seq![(a * 4 + b / 16) as u8]
    } else if s[3] == '=' {
        seq![(a * 4 + b / 16) as u8, (b % 16 * 16 + c / 4) as u8]
    } else {
        seq![
            (a * 4 + b / 16) as u8,
            (b % 16 * 16 + c / 4) as u8,
            (c % 4 * 64 + d) as u8,
        ]
    }
}

/// The bytes that a base64 text stands for.
pub open spec fn unbase64(s: Seq<char>) -> Seq<u8>
    decreases s.len(),
{
    if s.len() < 4 {
        Seq::empty()
    } else {
        chunk_of(s.take(4)) + unbase64(s.skip(4))
    }
}

proof fn lemma_symbol(d: int)
    requires
        0 <= d < 64,
    ensures
        digit_of(symbol(d)) == d,
        symbol(d) != '=',
{
}

/// The quotient and remainder that `q * d + r` has by `d`.
proof fn lemma_division(n: int, d: int, q: int, r: int)
    requires
        n == q * d + r,
        0 <= r < d,
    ensures
        n / d == q,
        n % d == r,
{
    vstd::arithmetic::div_mod::lemma_fundamental_div_mod_converse(n, d, q, r);
}

proof fn lemma_bits(x: int, y: int, z: int, n: int)
    requires
        0 <= x < 256,
        0 <= y < 256,
        0 <= z < 256,
        n == x * 65536 + y * 256 + z,
    ensures
        n / 262144 == x / 4,
        n / 4096 % 64 == x % 4 * 16 + y / 16,
        n / 64 % 64 == y % 16 * 4 + z / 64,
        n % 64 == z % 64,
{
    let (xh, xl) = (x / 4, x % 4);
    let (yh, yl) = (y / 16, y % 16);
    let (zh, zl) = (z / 64, z % 64);
    lemma_division(n, 262144, xh, xl * 65536 + y * 256 + z);
    lemma_division(n, 4096, xh * 64 + (xl * 16 + yh), yl * 256 + z);
    lemma_division(xh * 64 + (xl * 16 + yh), 64, xh, xl * 16 + yh);
    lemma_division(n, 64, x * 1024 + yh * 64 + (yl * 4 + zh), zl);
    lemma_division(x * 1024 + yh * 64 + (yl * 4 + zh), 64, x * 16 + yh, yl * 4 + zh);
}

proof fn lemma_chunk(chunk: Seq<u8>)
    requires
        1 <= chunk.len() <= 3,
    ensures
        chunk_of(chunk_symbols(chunk)) == chunk,
{
    let n = chunk_bits(chunk);
    let x = chunk_byte(chunk, 0);
    let y = chunk_byte(chunk, 1);
    let z = chunk_byte(chunk, 2);
    lemma_bits(x, y, z, n);
    lemma_symbol(x / 4);
    lemma_symbol(x % 4 * 16 + y / 16);
    lemma_symbol(y % 16 * 4 + z / 64);
    lemma_symbol(z % 64);
    let s = chunk_symbols(chunk);
    assert(s[0] == symbol(x / 4));
    assert(s[1] == symbol(x % 4 * 16 + y / 16));
    if chunk.len() == 1 {
        assert(chunk_of(s) =~= chunk);
    } else if chunk.len() == 2 {
        assert(chunk_of(s) =~= chunk);
    } else {
        assert(chunk_of(s) =~= chunk);
    }
}

/// A base64 text stands for the bytes it was made from.
pub proof fn law_base64_round_trip(input: Seq<u8>)
    ensures
        unbase64(base64(input)) == input,
    decreases input.len(),
{
    if input.len() > 0 {
        let k = chunk_len(input);
        let chunk = input.take(k);
        let rest = input.skip(k);
        law_base64_round_trip(rest);
        lemma_chunk(chunk);
        let s = base64(input);
        assert(s.take(4) =~= chunk_symbols(chunk));
        assert(s.skip(4) =~= base64(rest));
        assert(chunk + rest =~= input);
    } else {
        assert(unbase64(base64(input)) =~= input);
    }
}

/// A base64 text is four symbols for every three bytes, the last ones padded.
pub proof fn law_base64_length(input: Seq<u8>)
    ensures
        base64(input).len() == (input.len() + 2) / 3 * 4,
    decreases input.len(),
{
    if input.len() > 0 {
        law_base64_length(input.skip(chunk_len(input)));
    }
}

/// How many `=` a base64 text of `n` bytes ends in.
pub open spec fn padding(n: nat) -> int {
    (3 - n as int % 3) % 3
}

/// `=` stands only at the end of a base64 text, as often as the last chunk is short of
/// bytes.
pub proof fn law_base64_padding(input: Seq<u8>, i: int)
    requires
        0 <= i < base64(input).len(),
    ensures
        base64(input)[i] == '=' <==> i >= base64(input).len() - padding(input.len()),
    decreases input.len(),
{
    if input.len() > 0 {
        let k = chunk_len(input);
        let chunk = input.take(k);
        let rest = input.skip(k);
        let n = chunk_bits(chunk);
        let (x, y, z) = (chunk_byte(chunk, 0), chunk_byte(chunk, 1), chunk_byte(chunk, 2));
        lemma_bits(x, y, z, n);
        lemma_symbol(n / 262144);
        lemma_symbol(n / 4096 % 64);
        lemma_symbol(n / 64 % 64);
        lemma_symbol(n % 64);
        law_base64_length(input);
        law_base64_length(rest);
        if i < 4 {
            assert(base64(input)[i] == chunk_symbols(chunk)[i]);
            if rest.len() > 0 {
                assert(base64(rest).len() >= 4);
            }
        } else {
            assert(base64(input)[i] == base64(rest)[i - 4]);
            law_base64_padding(rest, i - 4);
            assert(k == 3);
            assert(padding(rest.len()) == padding(input.len()));
        }
    }
}

} // verus!
