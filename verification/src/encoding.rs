//! Textual encodings: base64, hexadecimal and decimal.

use vstd::prelude::*;

use crate::text::is_digit;

verus! {

broadcast use vstd::string::group_string_axioms;

// ---------------------------------------------------------------------------
// Base64
// ---------------------------------------------------------------------------

/// The base64 character for a value below 64.
pub open spec fn base64_char(v: int) -> char {
    if v < 26 {
        (v + 65) as char
    } else if v < 52 {
        (v - 26 + 97) as char
    } else if v < 62 {
        (v - 52 + 48) as char
    } else if v == 62 {
        '+'
    } else {
        '/'
    }
}

/// Byte `i` of `data`, or zero behind its end.
pub open spec fn byte_or_zero(data: Seq<u8>, i: int) -> int {
    if 0 <= i < data.len() {
        data[i] as int
    } else {
        0
    }
}

/// Group `k` of six bits, counted from the first bit of `data`.
pub open spec fn sextet(data: Seq<u8>, k: int) -> int {
    let at = 3 * (k / 4);
    let group = byte_or_zero(data, at) * 65536 + byte_or_zero(data, at + 1) * 256 + byte_or_zero(
        data,
        at + 2,
    );
    if k % 4 == 0 {
        group / 262144
    } else if k % 4 == 1 {
        group / 4096 % 64
    } else if k % 4 == 2 {
        group / 64 % 64
    } else {
        group % 64
    }
}

/// The length of the padded base64 text of `n` bytes.
pub open spec fn base64_len(n: nat) -> nat {
    4 * ((n + 2) / 3)
}

/// The padded base64 text of `data`: one character for each started group of six bits, then `=`
/// up to a multiple of four characters.
pub open spec fn base64_text(data: Seq<u8>) -> Seq<char> {
    Seq::new(
        base64_len(data.len()),
        |k: int|
            if 6 * k < 8 * data.len() {
                base64_char(sextet(data, k))
            } else {
                '='
            },
    )
}

/// True when the base64 text of `n` bytes fits in memory.
pub open spec fn encodable(n: nat) -> bool {
    base64_len(n) <= isize::MAX
}

/// `base64::Engine::encode` with the standard alphabet and padding: the base64 text of the bytes.
/// It panics when the text would not fit in memory.
#[verifier::external_body]
pub(crate) fn base64_encode(data: &[u8]) -> (r: String)
    requires
        encodable(data@.len()),
    ensures
        r@ == base64_text(data@),
{
    base64::Engine::encode(&base64::engine::general_purpose::STANDARD, data)
}

/// True when the base64 text of `n` bytes fits in memory.
pub fn fits_base64(n: usize) -> (r: bool)
    ensures
        r == encodable(n as nat),
{
    // Four characters for each started group of three bytes.
    let groups: usize = if n % 3 == 0 {
        n / 3
    } else {
        n / 3 + 1
    };
    let limit: usize = isize::MAX as usize;
    proof {
        assert((n + 2) / 3 == groups);
    }
    groups <= limit / 4
}

/// The 24 bits of group `g` of three bytes.
pub open spec fn triple(data: Seq<u8>, g: int) -> int {
    byte_or_zero(data, 3 * g) * 65536 + byte_or_zero(data, 3 * g + 1) * 256 + byte_or_zero(
        data,
        3 * g + 2,
    )
}

/// Different values have different characters, and none is the padding.
proof fn lemma_base64_char(a: int, b: int)
    requires
        0 <= a < 64,
        0 <= b < 64,
    ensures
        base64_char(a) != '=',
        base64_char(a) == base64_char(b) ==> a == b,
{
}

/// A group of six bits lies below 64.
proof fn lemma_sextet(data: Seq<u8>, g: int)
    requires
        0 <= g,
    ensures
        sextet(data, 4 * g) == triple(data, g) / 262144,
        sextet(data, 4 * g + 1) == triple(data, g) / 4096 % 64,
        sextet(data, 4 * g + 2) == triple(data, g) / 64 % 64,
        sextet(data, 4 * g + 3) == triple(data, g) % 64,
        0 <= triple(data, g) < 16777216,
{
    assert((4 * g) / 4 == g && (4 * g + 1) / 4 == g && (4 * g + 2) / 4 == g && (4 * g + 3) / 4
        == g);
}

/// Four groups of six bits make up 24 bits.
proof fn lemma_sextets_make_triple(s: int)
    requires
        0 <= s < 16777216,
    ensures
        s == (s / 262144) * 262144 + (s / 4096 % 64) * 4096 + (s / 64 % 64) * 64 + s % 64,
        0 <= s / 262144 < 64,
{
    let p = s / 64;
    let q = p / 64;
    let r = q / 64;
    assert(q == s / 4096);
    assert(r == s / 262144);
}

/// Three bytes make up 24 bits in one way.
proof fn lemma_triple_shows_bytes(a: int, b: int, c: int, x: int, y: int, z: int)
    requires
        0 <= a < 256,
        0 <= b < 256,
        0 <= c < 256,
        0 <= x < 256,
        0 <= y < 256,
        0 <= z < 256,
        a * 65536 + b * 256 + c == x * 65536 + y * 256 + z,
    ensures
        a == x && b == y && c == z,
{
}

/// Equal base64 texts stand for equal groups of three bytes.
#[verifier::spinoff_prover]
proof fn lemma_same_triple(a: Seq<u8>, b: Seq<u8>, g: int)
    requires
        base64_text(a) == base64_text(b),
        a.len() == b.len(),
        0 <= g,
        3 * g < a.len(),
    ensures
        triple(a, g) == triple(b, g),
{
    let x = base64_text(a);
    let y = base64_text(b);
    let n = a.len() as int;
    let s = triple(a, g);
    let t = triple(b, g);
    lemma_sextet(a, g);
    lemma_sextet(b, g);
    lemma_sextets_make_triple(s);
    lemma_sextets_make_triple(t);
    assert(x[4 * g] == base64_char(sextet(a, 4 * g)));
    assert(y[4 * g] == base64_char(sextet(b, 4 * g)));
    lemma_base64_char(s / 262144, t / 262144);
    assert(x[4 * g + 1] == base64_char(sextet(a, 4 * g + 1)));
    assert(y[4 * g + 1] == base64_char(sextet(b, 4 * g + 1)));
    lemma_base64_char(s / 4096 % 64, t / 4096 % 64);
    if 3 * g + 1 < n {
        assert(x[4 * g + 2] == base64_char(sextet(a, 4 * g + 2)));
        assert(y[4 * g + 2] == base64_char(sextet(b, 4 * g + 2)));
        lemma_base64_char(s / 64 % 64, t / 64 % 64);
    } else {
        assert(s == byte_or_zero(a, 3 * g) * 65536);
        assert(t == byte_or_zero(b, 3 * g) * 65536);
        assert(s / 64 % 64 == 0 && t / 64 % 64 == 0);
    }
    if 3 * g + 2 < n {
        assert(x[4 * g + 3] == base64_char(sextet(a, 4 * g + 3)));
        assert(y[4 * g + 3] == base64_char(sextet(b, 4 * g + 3)));
        lemma_base64_char(s % 64, t % 64);
    } else {
        assert(byte_or_zero(a, 3 * g + 2) == 0 && byte_or_zero(b, 3 * g + 2) == 0);
        assert(s % 64 == 0 && t % 64 == 0);
    }
}

/// Bytes can be told from their base64 text.
pub proof fn law_base64_text_shows_the_bytes(a: Seq<u8>, b: Seq<u8>)
    requires
        base64_text(a) == base64_text(b),
    ensures
        a == b,
{
    lemma_same_base64_length(a, b);
    assert forall|i: int| 0 <= i < a.len() implies a[i] == b[i] by {
        let g = i / 3;
        lemma_same_triple(a, b, g);
        lemma_triple_shows_bytes(
            byte_or_zero(a, 3 * g),
            byte_or_zero(a, 3 * g + 1),
            byte_or_zero(a, 3 * g + 2),
            byte_or_zero(b, 3 * g),
            byte_or_zero(b, 3 * g + 1),
            byte_or_zero(b, 3 * g + 2),
        );
        assert(i == 3 * g || i == 3 * g + 1 || i == 3 * g + 2);
    }
    assert(a =~= b);
}

/// The length of the bytes can be told from where the padding begins.
proof fn lemma_same_base64_length(a: Seq<u8>, b: Seq<u8>)
    requires
        base64_text(a) == base64_text(b),
    ensures
        a.len() == b.len(),
{
    if a.len() < b.len() {
        lemma_shorter_base64(a, b);
    } else if b.len() < a.len() {
        lemma_shorter_base64(b, a);
    }
}

/// A longer sequence of bytes has a character where a shorter one has padding, or more
/// characters.
proof fn lemma_shorter_base64(a: Seq<u8>, b: Seq<u8>)
    requires
        a.len() < b.len(),
    ensures
        base64_text(a) != base64_text(b),
{
    let x = base64_text(a);
    let y = base64_text(b);
    let n = a.len() as int;
    // The first place that no bit of `a` reaches.
    let k = (4 * n + 2) / 3;
    if x.len() == y.len() {
        assert(8 * n <= 6 * k);
        assert(6 * k < 8 * (n + 1));
        assert(6 * k < 8 * b.len());
        assert(k < x.len());
        assert(x[k] == '=');
        let g = k / 4;
        lemma_sextet(b, g);
        assert(k == 4 * g || k == 4 * g + 1 || k == 4 * g + 2 || k == 4 * g + 3);
        lemma_base64_char(sextet(b, k), 0);
        assert(y[k] != '=');
    }
}

// ---------------------------------------------------------------------------
// Hexadecimal
// ---------------------------------------------------------------------------

/// The lowercase hexadecimal digit for a value below 16.
pub open spec fn hex_digit(v: int) -> char {
    if v < 10 {
        (v + 48) as char
    } else {
        (v - 10 + 97) as char
    }
}

/// The lowercase hexadecimal text of `data`, two digits for each byte.
pub open spec fn hex_text(data: Seq<u8>) -> Seq<char> {
    Seq::new(
        2 * data.len(),
        |i: int|
            if i % 2 == 0 {
                hex_digit(data[i / 2] as int / 16)
            } else {
                hex_digit(data[i / 2] as int % 16)
            },
    )
}

/// The lowercase hexadecimal digit for a value below 16.
fn hex_char(v: u8) -> (r: char)
    requires
        v < 16,
    ensures
        r == hex_digit(v as int),
{
    if v < 10 {
        (v + 48) as char
    } else {
        (v - 10 + 97) as char
    }
}

/// Appends the lowercase hexadecimal text of `data`.
pub fn append_hex(out: &mut String, data: &[u8])
    ensures
        final(out)@ == old(out)@ + hex_text(data@),
{
    let mut i: usize = 0;
    let ghost start = out@;
    proof {
        assert(start + hex_text(data@).take(0) =~= start);
    }
    while i < data.len()
        invariant
            i <= data@.len(),
            out@ == start + hex_text(data@).take(2 * i),
        decreases data@.len() - i,
    {
        let b = data[i];
        out.push(hex_char(b / 16));
        out.push(hex_char(b % 16));
        proof {
            let all = hex_text(data@);
            assert(all[2 * i] == hex_digit(b as int / 16));
            assert(all[2 * i + 1] == hex_digit(b as int % 16));
            assert(all.take(2 * (i + 1)) =~= all.take(2 * i).push(all[2 * i]).push(all[2 * i + 1]));
            assert(out@ =~= start + all.take(2 * (i + 1)));
        }
        i = i + 1;
    }
    proof {
        assert(hex_text(data@).take(2 * i) =~= hex_text(data@));
    }
}

/// Different values have different digits.
proof fn lemma_hex_digit_injective(a: int, b: int)
    requires
        0 <= a < 16,
        0 <= b < 16,
        hex_digit(a) == hex_digit(b),
    ensures
        a == b,
{
}

/// Bytes are read back from their hexadecimal text.
pub proof fn lemma_hex_text_injective(a: Seq<u8>, b: Seq<u8>)
    requires
        hex_text(a) == hex_text(b),
    ensures
        a == b,
{
    let x = hex_text(a);
    let y = hex_text(b);
    assert(x.len() == 2 * a.len() && y.len() == 2 * b.len());
    assert forall|k: int| 0 <= k < a.len() implies a[k] == b[k] by {
        assert(x[2 * k] == hex_digit(a[k] as int / 16));
        assert(y[2 * k] == hex_digit(b[k] as int / 16));
        assert(x[2 * k + 1] == hex_digit(a[k] as int % 16));
        assert(y[2 * k + 1] == hex_digit(b[k] as int % 16));
        lemma_hex_digit_injective(a[k] as int / 16, b[k] as int / 16);
        lemma_hex_digit_injective(a[k] as int % 16, b[k] as int % 16);
    }
    assert(a =~= b);
}

// ---------------------------------------------------------------------------
// Decimal
// ---------------------------------------------------------------------------

/// The decimal text of `n`, without leading zeros.
pub open spec fn decimal_text(n: nat) -> Seq<char>
    decreases n,
{
    if n < 10 {
        seq![hex_digit(n as int)]
    } else {
        decimal_text(n / 10).push(hex_digit((n % 10) as int))
    }
}

/// The decimal text of `n` with zeros in front up to `width` characters.
pub open spec fn padded_decimal(n: nat, width: nat) -> Seq<char> {
    let digits = decimal_text(n);
    if digits.len() >= width {
        digits
    } else {
        Seq::new((width - digits.len()) as nat, |i: int| '0') + digits
    }
}

/// Appends the decimal text of `n`.
fn append_decimal(out: &mut Vec<char>, n: u64)
    ensures
        final(out)@ == old(out)@ + decimal_text(n as nat),
    decreases n,
{
    if n < 10 {
        out.push(hex_char(n as u8));
        proof {
            assert(out@ =~= old(out)@ + decimal_text(n as nat));
        }
    } else {
        append_decimal(out, n / 10);
        out.push(hex_char((n % 10) as u8));
        proof {
            assert(out@ =~= old(out)@ + decimal_text(n as nat));
        }
    }
}

/// Appends the decimal text of `n` with zeros in front up to `width` characters.
pub fn append_padded(out: &mut String, n: u64, width: usize)
    ensures
        final(out)@ == old(out)@ + padded_decimal(n as nat, width as nat),
{
    let mut digits: Vec<char> = Vec::new();
    append_decimal(&mut digits, n);
    proof {
        assert(digits@ =~= decimal_text(n as nat));
    }
    let ghost start = out@;
    let mut filled: usize = digits.len();
    while filled < width
        invariant
            digits@.len() <= filled,
            filled <= width || filled == digits@.len(),
            out@ == start + Seq::new((filled - digits@.len()) as nat, |i: int| '0'),
        decreases width - filled,
    {
        out.push('0');
        filled = filled + 1;
        proof {
            assert(out@ =~= start + Seq::new((filled - digits@.len()) as nat, |i: int| '0'));
        }
    }
    let ghost padded = out@;
    let mut i: usize = 0;
    while i < digits.len()
        invariant
            i <= digits@.len(),
            out@ == padded + digits@.take(i as int),
        decreases digits@.len() - i,
    {
        out.push(digits[i]);
        i = i + 1;
    }
    proof {
        assert(digits@.take(i as int) =~= digits@);
        assert(out@ =~= start + padded_decimal(n as nat, width as nat));
    }
}

/// A decimal text begins with `0` only if it is `0`, and holds only digits.
proof fn lemma_decimal_text(n: nat)
    ensures
        decimal_text(n).len() > 0,
        n > 0 ==> decimal_text(n)[0] != '0',
        n == 0 ==> decimal_text(n) == seq!['0'],
    decreases n,
{
    if n >= 10 {
        lemma_decimal_text(n / 10);
    }
}

/// Different numbers have different decimal texts.
proof fn lemma_decimal_text_injective(a: nat, b: nat)
    requires
        decimal_text(a) == decimal_text(b),
    ensures
        a == b,
    decreases a,
{
    let x = decimal_text(a);
    let y = decimal_text(b);
    if a < 10 {
        lemma_decimal_text(b / 10);
        assert(x.len() == 1);
        assert(b < 10);
        assert(x[0] == hex_digit(a as int));
        assert(y[0] == hex_digit(b as int));
        lemma_hex_digit_injective(a as int, b as int);
    } else {
        lemma_decimal_text(a / 10);
        assert(x.len() > 1);
        assert(b >= 10);
        assert(x.drop_last() =~= decimal_text(a / 10));
        assert(y.drop_last() =~= decimal_text(b / 10));
        assert(x.last() == hex_digit((a % 10) as int));
        assert(y.last() == hex_digit((b % 10) as int));
        lemma_decimal_text_injective(a / 10, b / 10);
        lemma_hex_digit_injective((a % 10) as int, (b % 10) as int);
    }
}

/// Different numbers have different padded decimal texts.
pub proof fn lemma_padded_decimal_injective(a: nat, b: nat, width: nat)
    requires
        padded_decimal(a, width) == padded_decimal(b, width),
    ensures
        a == b,
{
    lemma_decimal_text(a);
    lemma_decimal_text(b);
    let x = decimal_text(a);
    let y = decimal_text(b);
    let p = padded_decimal(a, width);
    let q = padded_decimal(b, width);
    assert(p.len() == q.len());
    let n = p.len();
    if x.len() < y.len() {
        assert(q[n - y.len()] == y[0]);
        assert(p[n - y.len()] == '0');
        assert(b == 0);
    } else if y.len() < x.len() {
        assert(p[n - x.len()] == x[0]);
        assert(q[n - x.len()] == '0');
        assert(a == 0);
    } else {
        assert forall|i: int| 0 <= i < x.len() implies x[i] == y[i] by {
            assert(p[n - x.len() + i] == x[i]);
            assert(q[n - y.len() + i] == y[i]);
        }
        assert(x =~= y);
        lemma_decimal_text_injective(a, b);
    }
}

proof fn lemma_decimal_digits(n: nat)
    ensures
        forall|i: int| 0 <= i < decimal_text(n).len() ==> is_digit(#[trigger] decimal_text(n)[i]),
    decreases n,
{
    if n >= 10 {
        lemma_decimal_digits(n / 10);
        let head = decimal_text(n / 10);
        let all = decimal_text(n);
        assert forall|i: int| 0 <= i < all.len() implies is_digit(#[trigger] all[i]) by {
            if i < head.len() {
                assert(all[i] == head[i]);
            }
        }
    }
}

/// A padded decimal text has at least the given width, and holds only digits.
pub proof fn lemma_padded_decimal(n: nat, width: nat)
    ensures
        padded_decimal(n, width).len() >= width,
        forall|i: int|
            0 <= i < padded_decimal(n, width).len() ==> is_digit(
                #[trigger] padded_decimal(n, width)[i],
            ),
{
    lemma_decimal_digits(n);
    let digits = decimal_text(n);
    let all = padded_decimal(n, width);
    assert forall|i: int| 0 <= i < all.len() implies is_digit(#[trigger] all[i]) by {
        let pad = all.len() - digits.len();
        if i >= pad {
            assert(all[i] == digits[i - pad]);
        }
    }
}

} // verus!
