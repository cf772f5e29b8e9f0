//! Big-endian integers and UTF-8 text as they appear on the wire.
use vstd::prelude::*;
use vstd::utf8::*;

verus! {

/// The value of four bytes read as a big-endian unsigned integer.
pub open spec fn be_u32(b: Seq<u8>) -> nat
    recommends
        b.len() >= 4,
{
    b[0] as nat * 16777216 + b[1] as nat * 65536 + b[2] as nat * 256 + b[3] as nat
}

/// The four big-endian bytes of `x`.
pub open spec fn be_bytes(x: u32) -> Seq<u8> {
    seq![
        (x / 16777216) as u8,
        ((x / 65536) % 256) as u8,
        ((x / 256) % 256) as u8,
        (x % 256) as u8,
    ]
}

pub proof fn lemma_be_round_trip(x: u32)
    ensures
        be_bytes(x).len() == 4,
        be_u32(be_bytes(x)) == x as nat,
{
    let b = be_bytes(x);
    assert(b[0] as nat == x as nat / 16777216);
    assert(b[1] as nat == (x as nat / 65536) % 256);
    assert(b[2] as nat == (x as nat / 256) % 256);
    assert(b[3] as nat == x as nat % 256);
    assert(be_u32(b) == x as nat) by (nonlinear_arith)
        requires
            b[0] as nat == x as nat / 16777216,
            b[1] as nat == (x as nat / 65536) % 256,
            b[2] as nat == (x as nat / 256) % 256,
            b[3] as nat == x as nat % 256,
            x as nat <= 0xffff_ffff,
            be_u32(b) == b[0] as nat * 16777216 + b[1] as nat * 65536 + b[2] as nat * 256 + b[3] as nat,
    ;
}

/// Appends the big-endian bytes of `x` to `out`.
pub fn push_be_u32(out: &mut Vec<u8>, x: u32)
    ensures
        final(out)@ == old(out)@ + be_bytes(x),
{
    out.push((x / 16777216) as u8);
    out.push(((x / 65536) % 256) as u8);
    out.push(((x / 256) % 256) as u8);
    out.push((x % 256) as u8);
    assert(final(out)@ =~= old(out)@ + be_bytes(x));
}

/// Reads the big-endian integer in `b[at..at + 4]`.
pub fn read_be_u32(b: &[u8], at: usize) -> (r: u32)
    requires
        at + 4 <= b@.len(),
    ensures
        r as nat == be_u32(b@.subrange(at as int, at as int + 4)),
{
    let r = (b[at] as u32) * 16777216 + (b[at + 1] as u32) * 65536 + (b[at + 2] as u32) * 256
        + (b[at + 3] as u32);
    r
}

/// Appends the bytes of `src` to `out`.
pub fn append_bytes(out: &mut Vec<u8>, src: &[u8])
    ensures
        final(out)@ == old(out)@ + src@,
{
    let mut i: usize = 0;
    while i < src.len()
        invariant
            0 <= i <= src@.len(),
            out@ == old(out)@ + src@.subrange(0, i as int),
        decreases src@.len() - i,
    {
        out.push(src[i]);
        i = i + 1;
        assert(src@.subrange(0, i as int) =~= src@.subrange(0, i - 1) + seq![src@[i - 1]]);
    }
    assert(src@.subrange(0, i as int) =~= src@);
}

/// The first position at or after `from`, and before `to`, that holds `c`;
/// `to` if there is none.
pub fn find_byte(b: &[u8], from: usize, to: usize, c: u8) -> (r: usize)
    requires
        from <= to <= b@.len(),
    ensures
        from <= r <= to,
        forall|k: int| from <= k < r ==> b@[k] != c,
        r < to ==> b@[r as int] == c,
{
    let mut i = from;
    while i < to
        invariant
            from <= i <= to,
            to <= b@.len(),
            forall|k: int| from <= k < i ==> b@[k] != c,
        decreases to - i,
    {
        if b[i] == c {
            return i;
        }
        i = i + 1;
    }
    i
}

/// `k` is the first position in `s` that holds `c`, or the length of `s`
/// when `c` does not occur.
pub open spec fn is_first(s: Seq<u8>, c: u8, k: int) -> bool {
    &&& 0 <= k <= s.len()
    &&& forall|i: int| 0 <= i < k ==> s[i] != c
    &&& k < s.len() ==> s[k] == c
}

/// The first position in `s` that holds `c`, or the length of `s`.
pub open spec fn first_sep(s: Seq<u8>, c: u8) -> int {
    choose|k: int| is_first(s, c, k)
}

pub proof fn lemma_first_sep(s: Seq<u8>, c: u8, k: int)
    requires
        is_first(s, c, k),
    ensures
        first_sep(s, c) == k,
{
    let j = first_sep(s, c);
    assert(is_first(s, c, j));
    if j < k {
        assert(s[j] == c);
    } else if k < j {
        assert(s[k] == c);
    }
}

/// Relies on `String::from_utf8`: it succeeds exactly on valid UTF-8, and the
/// string then holds the characters that the bytes encode.
#[verifier::external_body]
pub(crate) fn text_from_utf8(bytes: Vec<u8>) -> (r: Option<String>)
    ensures
        r is Some <==> valid_utf8(bytes@),
        r matches Some(s) ==> s@ == decode_utf8(bytes@),
{
    String::from_utf8(bytes).ok()
}

pub open spec fn digit_char(d: nat) -> char {
    ((d + 48) as u32) as char
}

/// The decimal digits of `n`, without sign or leading zeros.
pub open spec fn decimal(n: nat) -> Seq<char>
    decreases n,
{
    if n < 10 {
        seq![digit_char(n)]
    } else {
        decimal(n / 10).push(digit_char(n % 10))
    }
}

pub open spec fn is_digit(c: char) -> bool {
    '0' <= c && c <= '9'
}

/// The number that a run of decimal digits denotes.
pub open spec fn digits_value(s: Seq<char>) -> nat
    decreases s.len(),
{
    if s.len() == 0 {
        0
    } else {
        (digits_value(s.drop_last()) * 10 + ((s.last() as u32) as nat - 48)) as nat
    }
}

/// What an unsigned decimal reads as: an optional `+`, then one or more
/// digits whose value fits in 64 bits.
pub open spec fn decimal_value(s: Seq<char>) -> Option<u64> {
    let d = if s.len() > 0 && s[0] == '+' {
        s.drop_first()
    } else {
        s
    };
    if d.len() > 0 && (forall|i: int| 0 <= i < d.len() ==> is_digit(#[trigger] d[i])) && digits_value(d)
        <= u64::MAX {
        Some(digits_value(d) as u64)
    } else {
        None
    }
}

/// Relies on the `Display` impl of `u64`: it writes the decimal digits.
#[verifier::external_body]
pub fn decimal_text(n: u64) -> (r: String)
    ensures
        r@ == decimal(n as nat),
{
    n.to_string()
}

/// Relies on `u64::from_str`: an optional `+` and decimal digits whose value
/// fits, and nothing else, parse.
#[verifier::external_body]
pub fn parse_decimal(s: &str) -> (r: Option<u64>)
    ensures
        r == decimal_value(s@),
{
    s.parse::<u64>().ok()
}

} // verus!
