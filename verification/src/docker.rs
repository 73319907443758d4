//! Reading the host endpoint that Docker publishes for a container port out
//! of a Docker Engine inspect response. Talking to the Docker socket and
//! decoding JSON is left to the caller.

use crate::auth::{opt_str, trimmed_header, trimmed_nonempty};
use crate::instance::{EndpointView, ExternalServiceEndpoint};
use crate::text::{
    ascii_lower, char_ascii_lower, chars_of, copy_str, decimal, push_chars, push_decimal,
    push_str, string_from_chars, trim, trim_bounds, trim_end, trim_start, trim_str,
};
use vstd::prelude::*;

verus! {

// ---------------------------------------------------------------------------
// Searching
// ---------------------------------------------------------------------------

/// `pat` occurs in `s` at position `i`.
pub open spec fn occurs_at(s: Seq<char>, pat: Seq<char>, i: int) -> bool {
    0 <= i && i + pat.len() <= s.len() && s.subrange(i, i + pat.len()) == pat
}

/// `i` is the first position where `pat` occurs in `s`.
pub open spec fn is_first_occurrence(s: Seq<char>, pat: Seq<char>, i: int) -> bool {
    occurs_at(s, pat, i) && forall|j: int| 0 <= j < i ==> !occurs_at(s, pat, j)
}

/// The first position where `pat` occurs in `s`, if any.
pub open spec fn first_occurrence(s: Seq<char>, pat: Seq<char>) -> Option<int> {
    if exists|i: int| is_first_occurrence(s, pat, i) {
        Some(choose|i: int| is_first_occurrence(s, pat, i))
    } else {
        None
    }
}

/// The text `\r\n`.
pub open spec fn crlf() -> Seq<char> {
    seq!['\r', '\n']
}

/// The text `\r\n\r\n`.
pub open spec fn blank_line() -> Seq<char> {
    seq!['\r', '\n', '\r', '\n']
}

proof fn lemma_first_occurrence_unique(s: Seq<char>, pat: Seq<char>, i: int)
    requires
        is_first_occurrence(s, pat, i),
    ensures
        first_occurrence(s, pat) == Some(i),
{
    let k = choose|k: int| is_first_occurrence(s, pat, k);
    if k < i {
        assert(!occurs_at(s, pat, k));
    } else if i < k {
        assert(!occurs_at(s, pat, i));
    }
}

/// The first position at or after `from` where `pat` occurs in `cs`.
fn find_from(cs: &Vec<char>, pat: &Vec<char>, from: usize) -> (pos: Option<usize>)
    requires
        from <= cs@.len(),
        pat@.len() > 0,
    ensures
        match pos {
            Some(p) => from <= p && is_first_occurrence(cs@.skip(from as int), pat@, p - from),
            None => forall|j: int| !occurs_at(cs@.skip(from as int), pat@, j),
        },
{
    let ghost t = cs@.skip(from as int);
    let n = cs.len();
    let m = pat.len();
    let mut i = from;
    while i <= n && m <= n - i
        invariant
            from <= i,
            n == cs@.len(),
            m == pat@.len(),
            m > 0,
            t == cs@.skip(from as int),
            forall|j: int| 0 <= j < i - from ==> !occurs_at(t, pat@, j),
        decreases n - i,
    {
        let mut k: usize = 0;
        while k < m && cs[i + k] == pat[k]
            invariant
                k <= m,
                i <= n,
                m <= n - i,
                n == cs@.len(),
                m == pat@.len(),
                forall|q: int| 0 <= q < k ==> cs@[i + q] == pat@[q],
            decreases m - k,
        {
            k = k + 1;
        }
        if k == m {
            proof {
                assert(t.subrange(i - from, i - from + m) =~= pat@);
            }
            return Some(i);
        }
        proof {
            if occurs_at(t, pat@, i - from) {
                assert(t.subrange(i - from, i - from + m)[k as int] == pat@[k as int]);
            }
        }
        i = i + 1;
    }
    proof {
        assert forall|j: int| !occurs_at(t, pat@, j) by {
            if 0 <= j && j >= i - from {
                assert(i > n || m > n - i);
                assert(j + m > t.len());
            }
        }
    }
    None
}

// ---------------------------------------------------------------------------
// Numbers
// ---------------------------------------------------------------------------

/// The value of a digit in base `radix` (10 or 16), if it is one.
pub open spec fn digit_value(c: char, radix: nat) -> Option<nat> {
    let u = c as u32;
    if 48 <= u <= 57 && (u - 48) < radix {
        Some((u - 48) as nat)
    } else if radix == 16 && 97 <= u <= 102 {
        Some((u - 87) as nat)
    } else if radix == 16 && 65 <= u <= 70 {
        Some((u - 55) as nat)
    } else {
        None
    }
}

/// Every character is a digit in base `radix`.
pub open spec fn all_digits(d: Seq<char>, radix: nat) -> bool {
    forall|i: int| 0 <= i < d.len() ==> (#[trigger] digit_value(d[i], radix)) is Some
}

/// The value of a digit string in base `radix`.
pub open spec fn digits_value(d: Seq<char>, radix: nat) -> nat
    decreases d.len(),
{
    if d.len() == 0 {
        0
    } else {
        digits_value(d.drop_last(), radix) * radix + match digit_value(d.last(), radix) {
            Some(v) => v,
            None => 0,
        }
    }
}

/// The digits of an unsigned number: a leading `+` is dropped when more follows.
pub open spec fn unsigned_digits(t: Seq<char>) -> Seq<char> {
    if t.len() > 1 && t[0] == '+' {
        t.drop_first()
    } else {
        t
    }
}

/// Parsing an unsigned number in base `radix` no larger than `max`, as
/// `from_str_radix` does for unsigned types.
pub open spec fn parse_unsigned(t: Seq<char>, radix: nat, max: nat) -> Option<nat> {
    let d = unsigned_digits(t);
    if d.len() > 0 && all_digits(d, radix) && digits_value(d, radix) <= max {
        Some(digits_value(d, radix))
    } else {
        None
    }
}

proof fn lemma_digits_value_grows(d: Seq<char>, radix: nat, i: int, j: int)
    requires
        0 <= i <= j <= d.len(),
        radix > 0,
    ensures
        digits_value(d.take(i), radix) <= digits_value(d.take(j), radix),
    decreases j - i,
{
    if i < j {
        lemma_digits_value_grows(d, radix, i, j - 1);
        assert(d.take(j).drop_last() =~= d.take(j - 1));
        let v = digits_value(d.take(j - 1), radix);
        assert(v * radix >= v) by (nonlinear_arith)
            requires
                radix > 0,
        ;
    }
}

/// Parses `cs[lo..hi]` as an unsigned number in base `radix` no larger than `max`.
fn parse_unsigned_chars(cs: &Vec<char>, lo: usize, hi: usize, radix: u64, max: u64) -> (r: Option<u64>)
    requires
        lo <= hi <= cs@.len(),
        radix == 10 || radix == 16,
    ensures
        match r {
            Some(v) => parse_unsigned(cs@.subrange(lo as int, hi as int), radix as nat, max as nat)
                == Some(v as nat),
            None => parse_unsigned(cs@.subrange(lo as int, hi as int), radix as nat, max as nat) is None,
        },
{
    let ghost t = cs@.subrange(lo as int, hi as int);
    let start = if hi - lo > 1 && cs[lo] == '+' {
        lo + 1
    } else {
        lo
    };
    let ghost d = unsigned_digits(t);
    assert(d =~= cs@.subrange(start as int, hi as int));
    if start == hi {
        return None;
    }
    let mut value: u64 = 0;
    let mut i = start;
    while i < hi
        invariant
            lo <= start <= i <= hi <= cs@.len(),
            d == cs@.subrange(start as int, hi as int),
            d == unsigned_digits(cs@.subrange(lo as int, hi as int)),
            d.len() > 0,
            radix == 10 || radix == 16,
            all_digits(d.take(i - start), radix as nat),
            value as nat == digits_value(d.take(i - start), radix as nat),
            value <= max,
        decreases hi - i,
    {
        let c = cs[i];
        let u = c as u32;
        let dv: u64 = if 48 <= u && u <= 57 && ((u - 48) as u64) < radix {
            (u - 48) as u64
        } else if radix == 16 && 97 <= u && u <= 102 {
            (u - 87) as u64
        } else if radix == 16 && 65 <= u && u <= 70 {
            (u - 55) as u64
        } else {
            proof {
                assert(d[i - start] == c);
                assert(digit_value(d[i - start], radix as nat) is None);
            }
            return None;
        };
        assert(digit_value(c, radix as nat) == Some(dv as nat));
        let ghost k = i - start;
        assert(d.take(k + 1).drop_last() =~= d.take(k));
        assert(d.take(k + 1).last() == c);
        assert(digits_value(d.take(k + 1), radix as nat) == value * radix + dv);
        assert(all_digits(d.take(k + 1), radix as nat)) by {
            assert forall|q: int| 0 <= q < k + 1 implies (#[trigger] digit_value(
                d.take(k + 1)[q],
                radix as nat,
            )) is Some by {
                if q < k {
                    assert(d.take(k + 1)[q] == d.take(k)[q]);
                }
            }
        }
        if dv > max {
            proof {
                lemma_digits_value_grows(d, radix as nat, k + 1, d.len() as int);
                assert(d.take(d.len() as int) =~= d);
            }
            return None;
        }
        let limit = (max - dv) / radix;
        if value > limit {
            proof {
                let vv: int = value as int;
                let rr: int = radix as int;
                let mm: int = max - dv;
                let q: int = limit as int;
                assert(vv * rr > mm) by (nonlinear_arith)
                    requires
                        vv > q,
                        q == mm / rr,
                        rr > 0,
                        mm >= 0,
                ;
                lemma_digits_value_grows(d, radix as nat, k + 1, d.len() as int);
                assert(d.take(d.len() as int) =~= d);
            }
            return None;
        }
        proof {
            let vv: int = value as int;
            let rr: int = radix as int;
            let mm: int = max - dv;
            let q: int = limit as int;
            assert(vv * rr <= mm) by (nonlinear_arith)
                requires
                    vv <= q,
                    q == mm / rr,
                    rr > 0,
                    mm >= 0,
            ;
        }
        value = value * radix + dv;
        i = i + 1;
    }
    assert(d.take(hi - start) =~= d);
    Some(value)
}

// ---------------------------------------------------------------------------
// UTF-8 lengths
// ---------------------------------------------------------------------------

/// The UTF-8 width of a character in bytes.
pub open spec fn char_width(c: char) -> nat {
    let u = c as u32;
    if u < 0x80 {
        1
    } else if u < 0x800 {
        2
    } else if u < 0x10000 {
        3
    } else {
        4
    }
}

/// The UTF-8 length of a text in bytes.
pub open spec fn utf8_len(s: Seq<char>) -> nat
    decreases s.len(),
{
    if s.len() == 0 {
        0
    } else {
        char_width(s[0]) + utf8_len(s.drop_first())
    }
}

/// How many characters make up exactly the first `n` bytes of `s`; none when
/// byte `n` falls inside a character or past the end.
pub open spec fn chars_in_bytes(s: Seq<char>, n: nat) -> Option<nat>
    decreases s.len(),
{
    if n == 0 {
        Some(0)
    } else if s.len() == 0 || char_width(s[0]) > n {
        None
    } else {
        match chars_in_bytes(s.drop_first(), (n - char_width(s[0])) as nat) {
            Some(k) => Some(k + 1),
            None => None,
        }
    }
}

/// The characters making up a prefix of `n` bytes are at most all of
/// them, and at least one when `n` is not zero.
pub proof fn lemma_chars_in_bytes_bound(s: Seq<char>, n: nat)
    ensures
        chars_in_bytes(s, n) matches Some(k) ==> k <= s.len() && (n > 0 ==> k > 0),
    decreases s.len(),
{
    if n > 0 && s.len() > 0 && char_width(s[0]) <= n {
        lemma_chars_in_bytes_bound(s.drop_first(), (n - char_width(s[0])) as nat);
    }
}

fn width_of(c: char) -> (w: u64)
    ensures
        w == char_width(c),
{
    let u = c as u32;
    if u < 0x80 {
        1
    } else if u < 0x800 {
        2
    } else if u < 0x10000 {
        3
    } else {
        4
    }
}

/// The UTF-8 length of `cs[from..]`, saturating at `cap`.
fn utf8_len_from(cs: &Vec<char>, from: usize, cap: u128) -> (len: u128)
    requires
        from <= cs@.len(),
    ensures
        len == if utf8_len(cs@.skip(from as int)) < cap {
            utf8_len(cs@.skip(from as int))
        } else {
            cap as nat
        },
{
    let n = cs.len();
    let mut i = n;
    let mut total: u128 = 0;
    assert(cs@.skip(n as int) =~= Seq::<char>::empty());
    while i > from
        invariant
            from <= i <= n == cs@.len(),
            total == if utf8_len(cs@.skip(i as int)) < cap {
                utf8_len(cs@.skip(i as int))
            } else {
                cap as nat
            },
        decreases i,
    {
        i = i - 1;
        assert(cs@.skip(i as int).drop_first() =~= cs@.skip(i + 1));
        let w = width_of(cs[i]) as u128;
        total = if total >= cap || w >= cap - total {
            cap
        } else {
            total + w
        };
    }
    total
}

/// The number of characters of `cs[from..]` making up its first `n` bytes.
fn chars_in_bytes_from(cs: &Vec<char>, from: usize, n: u128) -> (k: Option<usize>)
    requires
        from <= cs@.len(),
    ensures
        match k {
            Some(k) => chars_in_bytes(cs@.skip(from as int), n as nat) == Some(k as nat),
            None => chars_in_bytes(cs@.skip(from as int), n as nat) is None,
        },
{
    let len = cs.len();
    let mut i = from;
    let mut left = n;
    while left > 0
        invariant
            from <= i <= len == cs@.len(),
            chars_in_bytes(cs@.skip(from as int), n as nat) == match chars_in_bytes(
                cs@.skip(i as int),
                left as nat,
            ) {
                Some(j) => Some((j + (i - from)) as nat),
                None => None::<nat>,
            },
        decreases left,
    {
        if i == len {
            assert(cs@.skip(i as int).len() == 0);
            return None;
        }
        let w = width_of(cs[i]) as u128;
        if w > left {
            return None;
        }
        assert(cs@.skip(i as int).drop_first() =~= cs@.skip(i + 1));
        left = left - w;
        i = i + 1;
    }
    Some(i - from)
}

// ---------------------------------------------------------------------------
// Chunked transfer encoding
// ---------------------------------------------------------------------------

/// Why a chunked body could not be decoded.
#[derive(Debug)]
pub enum ChunkError {
    /// A chunk size line has no `\r\n` after it.
    MissingSizeTerminator,
    /// A chunk size is not a hexadecimal number.
    InvalidSize,
    /// The body ends before a chunk's declared size.
    Truncated,
    /// A chunk boundary falls inside a character.
    SplitCharacter,
}

/// Where the data of a chunk of `size` bytes ends in `after` (the text that
/// follows its size line), and where the next chunk starts: `(k, k2)` in
/// characters. `None` when fewer than `size + 2` bytes follow, or when either
/// boundary falls inside a character.
pub open spec fn chunk_bounds(after: Seq<char>, size: nat) -> Option<(nat, nat)> {
    if utf8_len(after) < size + 2 {
        None
    } else {
        match (chars_in_bytes(after, size), chars_in_bytes(after, size + 2)) {
            (Some(k), Some(k2)) => Some((k, k2)),
            _ => None,
        }
    }
}

/// Decoding of a chunked body: each chunk is a hexadecimal size line ended by
/// `\r\n`, that many bytes of data and two more bytes; a zero size ends the
/// body. `None` when the body is malformed.
pub open spec fn decode_chunks(s: Seq<char>) -> Option<Seq<char>>
    decreases s.len(),
{
    match first_occurrence(s, crlf()) {
        None => None,
        Some(p) => if !(0 <= p && p + 2 <= s.len()) {
            None
        } else {
            let after = s.skip(p + 2);
            match parse_unsigned(trim(s.take(p)), 16, usize::MAX as nat) {
                None => None,
                Some(size) => if size == 0 {
                    Some(Seq::empty())
                } else {
                    match chunk_bounds(after, size) {
                        None => None,
                        Some((k, k2)) => if k2 <= after.len() {
                            prepend(after.take(k as int), decode_chunks(after.skip(k2 as int)))
                        } else {
                            None
                        },
                    }
                },
            }
        },
    }
}

/// `prefix` followed by the decoding of the rest, or failure.
pub open spec fn prepend(prefix: Seq<char>, rest: Option<Seq<char>>) -> Option<Seq<char>> {
    match rest {
        Some(r) => Some(prefix + r),
        None => None,
    }
}

/// Reads the chunk that starts at `pos`: `None` for the final zero-size
/// chunk, else the character range of its data and where the next chunk
/// starts.
fn next_chunk(cs: &Vec<char>, sep: &Vec<char>, pos: usize) -> (r: Result<
    Option<(usize, usize, usize)>,
    ChunkError,
>)
    requires
        pos <= cs@.len(),
        sep@ == crlf(),
    ensures
        match r {
            Err(_) => decode_chunks(cs@.skip(pos as int)) is None,
            Ok(None) => decode_chunks(cs@.skip(pos as int)) == Some(Seq::<char>::empty()),
            Ok(Some((a, b, next))) => {
                &&& pos <= a <= b <= cs@.len()
                &&& pos < next <= cs@.len()
                &&& decode_chunks(cs@.skip(pos as int)) == prepend(
                    cs@.subrange(a as int, b as int),
                    decode_chunks(cs@.skip(next as int)),
                )
            },
        },
{
    let ghost t = cs@.skip(pos as int);
    let n = cs.len();
    let p = match find_from(cs, sep, pos) {
        Some(p) => p,
        None => {
            proof {
                assert(!(exists|i: int| is_first_occurrence(t, crlf(), i)));
            }
            return Err(ChunkError::MissingSizeTerminator);
        },
    };
    proof {
        lemma_first_occurrence_unique(t, crlf(), p - pos);
        assert(occurs_at(t, crlf(), p - pos));
    }
    assert(p + 2 <= n);
    assert(cs@.subrange(pos as int, p as int) =~= t.take(p - pos));
    let (lo, hi) = trim_bounds_of(cs, pos, p);
    let size = match parse_unsigned_chars(cs, lo, hi, 16, usize::MAX as u64) {
        Some(v) => v,
        None => {
            return Err(ChunkError::InvalidSize);
        },
    };
    let after = p + 2;
    let ghost rest = cs@.skip(after as int);
    assert(t.skip(p - pos + 2) =~= rest);
    if size == 0 {
        return Ok(None);
    }
    let need: u128 = size as u128 + 2;
    let have = utf8_len_from(cs, after, need);
    if have < need {
        return Err(ChunkError::Truncated);
    }
    let k = match chars_in_bytes_from(cs, after, size as u128) {
        Some(k) => k,
        None => {
            return Err(ChunkError::SplitCharacter);
        },
    };
    let k2 = match chars_in_bytes_from(cs, after, need) {
        Some(k) => k,
        None => {
            return Err(ChunkError::SplitCharacter);
        },
    };
    proof {
        lemma_chars_in_bytes_bound(rest, size as nat);
        lemma_chars_in_bytes_bound(rest, (size + 2) as nat);
        assert(cs@.subrange(after as int, after + k) =~= rest.take(k as int));
        assert(rest.skip(k2 as int) =~= cs@.skip(after + k2));
    }
    assert(k <= n - after && k2 <= n - after);
    Ok(Some((after, after + k, after + k2)))
}

// ---------------------------------------------------------------------------
// Chunked encoding, for stating what decoding undoes
// ---------------------------------------------------------------------------

/// The lower-case hexadecimal digit of `d` (below 16).
pub open spec fn hex_digit(d: nat) -> char {
    if d < 10 {
        (48 + d) as char
    } else {
        (87 + d) as char
    }
}

/// Lower-case hexadecimal rendering of `n`, without leading zeros.
pub open spec fn hex(n: nat) -> Seq<char>
    decreases n,
{
    if n < 16 {
        seq![hex_digit(n)]
    } else {
        hex(n / 16).push(hex_digit(n % 16))
    }
}

/// One chunk as a sender writes it: its size in hexadecimal, `\r\n`, the
/// data and `\r\n`.
pub open spec fn encode_chunk(data: Seq<char>) -> Seq<char> {
    hex(data.len()) + crlf() + data + crlf()
}

/// A chunked body: every chunk in turn, then the final `0\r\n\r\n`.
pub open spec fn encode_chunks(chunks: Seq<Seq<char>>) -> Seq<char>
    decreases chunks.len(),
{
    if chunks.len() == 0 {
        hex(0) + crlf() + crlf()
    } else {
        encode_chunk(chunks[0]) + encode_chunks(chunks.drop_first())
    }
}

/// Every character is ASCII (one byte in UTF-8).
pub open spec fn is_ascii_text(s: Seq<char>) -> bool {
    forall|i: int| 0 <= i < s.len() ==> (#[trigger] s[i] as u32) < 0x80
}

/// `c` is a lower-case hexadecimal digit.
pub open spec fn is_hex_char(c: char) -> bool {
    (48 <= (c as u32) <= 57) || (97 <= (c as u32) <= 102)
}

proof fn lemma_hex_digit(d: nat)
    requires
        d < 16,
    ensures
        is_hex_char(hex_digit(d)),
        digit_value(hex_digit(d), 16) == Some(d),
{
}

proof fn lemma_hex(n: nat)
    ensures
        hex(n).len() > 0,
        forall|i: int| 0 <= i < hex(n).len() ==> is_hex_char(#[trigger] hex(n)[i]),
        all_digits(hex(n), 16),
        digits_value(hex(n), 16) == n,
    decreases n,
{
    let h = hex(n);
    if n < 16 {
        lemma_hex_digit(n);
        assert(h.drop_last() =~= Seq::<char>::empty());
        assert(h.last() == hex_digit(n));
        assert(digits_value(h.drop_last(), 16) == 0);
        assert(digits_value(h, 16) == digits_value(h.drop_last(), 16) * 16 + n);
    } else {
        lemma_hex(n / 16);
        lemma_hex_digit(n % 16);
        assert(h.drop_last() =~= hex(n / 16));
        assert(h.last() == hex_digit(n % 16));
        assert(digits_value(h, 16) == digits_value(h.drop_last(), 16) * 16 + n % 16);
        assert(n == (n / 16) * 16 + n % 16) by (nonlinear_arith);
        assert forall|i: int| 0 <= i < h.len() implies (#[trigger] digit_value(h[i], 16)) is Some by {
            if i < h.len() - 1 {
                assert(h[i] == hex(n / 16)[i]);
            }
        }
    }
}

proof fn lemma_hex_parses(n: nat)
    requires
        n <= usize::MAX,
    ensures
        trim(hex(n)) == hex(n),
        parse_unsigned(trim(hex(n)), 16, usize::MAX as nat) == Some(n),
{
    lemma_hex(n);
    let h = hex(n);
    assert(is_hex_char(h[0]));
    assert(is_hex_char(h.last()));
    assert(trim_start(h) == h);
    assert(trim_end(h) == h);
}

/// The first `\r\n` of `hex(n) + \r\n + rest` ends the size line.
proof fn lemma_size_line(n: nat, rest: Seq<char>)
    ensures
        first_occurrence(hex(n) + crlf() + rest, crlf()) == Some(hex(n).len() as int),
{
    lemma_hex(n);
    let h = hex(n);
    let s = h + crlf() + rest;
    let p = h.len() as int;
    assert(s.subrange(p, p + 2) =~= crlf());
    assert forall|j: int| 0 <= j < p implies !occurs_at(s, crlf(), j) by {
        assert(s[j] == h[j]);
        assert(is_hex_char(h[j]));
        if occurs_at(s, crlf(), j) {
            assert(s.subrange(j, j + 2)[0] == s[j]);
        }
    }
    lemma_first_occurrence_unique(s, crlf(), p);
}

proof fn lemma_utf8_len_ascii_concat(a: Seq<char>, b: Seq<char>)
    requires
        is_ascii_text(a),
    ensures
        utf8_len(a + b) == a.len() + utf8_len(b),
    decreases a.len(),
{
    if a.len() > 0 {
        assert((a + b).drop_first() =~= a.drop_first() + b);
        assert((a + b)[0] == a[0]);
        assert(is_ascii_text(a.drop_first())) by {
            assert forall|i: int| 0 <= i < a.drop_first().len() implies (#[trigger] a.drop_first()[i]
                as u32) < 0x80 by {
                assert(a.drop_first()[i] == a[i + 1]);
            }
        }
        lemma_utf8_len_ascii_concat(a.drop_first(), b);
    } else {
        assert(a + b =~= b);
    }
}

proof fn lemma_chars_in_ascii_prefix(a: Seq<char>, b: Seq<char>)
    requires
        is_ascii_text(a),
    ensures
        chars_in_bytes(a + b, a.len()) == Some(a.len()),
    decreases a.len(),
{
    if a.len() > 0 {
        assert((a + b).drop_first() =~= a.drop_first() + b);
        assert((a + b)[0] == a[0]);
        assert(is_ascii_text(a.drop_first())) by {
            assert forall|i: int| 0 <= i < a.drop_first().len() implies (#[trigger] a.drop_first()[i]
                as u32) < 0x80 by {
                assert(a.drop_first()[i] == a[i + 1]);
            }
        }
        lemma_chars_in_ascii_prefix(a.drop_first(), b);
    }
}

proof fn lemma_ascii_crlf(c: Seq<char>, rest: Seq<char>)
    requires
        is_ascii_text(c),
    ensures
        is_ascii_text(c + crlf()),
        utf8_len(c + crlf() + rest) == c.len() + 2 + utf8_len(rest),
        chars_in_bytes(c + crlf() + rest, c.len()) == Some(c.len()),
        chars_in_bytes(c + crlf() + rest, c.len() + 2) == Some((c.len() + 2) as nat),
{
    let cc = c + crlf();
    assert forall|i: int| 0 <= i < cc.len() implies (#[trigger] cc[i] as u32) < 0x80 by {
        if i >= c.len() {
            assert(cc[i] == crlf()[i - c.len()]);
        }
    }
    lemma_utf8_len_ascii_concat(cc, rest);
    lemma_chars_in_ascii_prefix(c, crlf() + rest);
    assert(c + crlf() + rest =~= c + (crlf() + rest));
    lemma_chars_in_ascii_prefix(cc, rest);
}

/// One chunk of ASCII text followed by `rest` decodes to the chunk followed
/// by what `rest` decodes to.
#[verifier::spinoff_prover]
#[verifier::rlimit(40)]
proof fn lemma_decode_chunk_step(c: Seq<char>, rest: Seq<char>)
    requires
        c.len() > 0,
        c.len() <= usize::MAX,
        is_ascii_text(c),
    ensures
        decode_chunks(encode_chunk(c) + rest) == prepend(c, decode_chunks(rest)),
{
    let size = c.len();
    let after = c + crlf() + rest;
    let s = encode_chunk(c) + rest;
    assert(s =~= hex(size) + crlf() + after);
    lemma_size_line(size, after);
    lemma_hex_parses(size);
    let p = hex(size).len() as int;
    assert(s.take(p) =~= hex(size));
    assert(s.skip(p + 2) =~= after);
    lemma_ascii_crlf(c, rest);
    assert(chunk_bounds(after, size) == Some((size, (size + 2) as nat)));
    assert(after.take(size as int) =~= c);
    assert(after.skip(size as int + 2) =~= rest);
}

/// Decoding a chunked body written from chunks of ASCII text gives the
/// chunks back, one after the other (chunk sizes being machine sizes).
pub proof fn law_chunked_encoding_round_trip(chunks: Seq<Seq<char>>)
    requires
        forall|k: int|
            0 <= k < chunks.len() ==> (#[trigger] chunks[k]).len() > 0 && chunks[k].len()
                <= usize::MAX && is_ascii_text(chunks[k]),
    ensures
        decode_chunks(encode_chunks(chunks)) == Some(chunks.flatten()),
    decreases chunks.len(),
{
    if chunks.len() == 0 {
        let s = encode_chunks(chunks);
        lemma_size_line(0, crlf());
        lemma_hex_parses(0);
        let p = hex(0).len() as int;
        assert(s.take(p) =~= hex(0));
    } else {
        let tail = chunks.drop_first();
        assert forall|k: int| 0 <= k < tail.len() implies (#[trigger] tail[k]).len() > 0
            && tail[k].len() <= usize::MAX && is_ascii_text(tail[k]) by {
            assert(tail[k] == chunks[k + 1]);
        }
        law_chunked_encoding_round_trip(tail);
        lemma_decode_chunk_step(chunks[0], encode_chunks(tail));
    }
}

/// Decodes a body sent with `transfer-encoding: chunked`.
pub fn decode_chunked_body(body: &str) -> (r: Result<String, ChunkError>)
    ensures
        match r {
            Ok(decoded) => decode_chunks(body@) == Some(decoded@),
            Err(_) => decode_chunks(body@) is None,
        },
{
    let cs = chars_of(body);
    let sep = chars_of("\r\n");
    proof {
        reveal_strlit("\r\n");
        assert(sep@ =~= crlf());
    }
    let mut decoded = String::new();
    let mut pos: usize = 0;
    assert(cs@.skip(0) =~= cs@);
    assert(prepend(Seq::empty(), decode_chunks(cs@)) == decode_chunks(cs@)) by {
        if let Some(x) = decode_chunks(cs@) {
            assert(Seq::<char>::empty() + x =~= x);
        }
    }
    loop
        invariant
            pos <= cs@.len(),
            cs@ == body@,
            sep@ == crlf(),
            decode_chunks(body@) == prepend(decoded@, decode_chunks(cs@.skip(pos as int))),
        decreases cs@.len() - pos,
    {
        match next_chunk(&cs, &sep, pos) {
            Err(e) => {
                return Err(e);
            },
            Ok(None) => {
                assert(decoded@ + Seq::<char>::empty() =~= decoded@);
                return Ok(decoded);
            },
            Ok(Some((a, b, next))) => {
                let ghost before = decoded@;
                push_chars(&mut decoded, &cs, a, b);
                proof {
                    if let Some(rest) = decode_chunks(cs@.skip(next as int)) {
                        assert(before + (cs@.subrange(a as int, b as int) + rest) =~= decoded@
                            + rest);
                    }
                }
                pos = next;
            },
        }
    }
}

/// The trimmed index range of `cs[lo..hi]`.
fn trim_bounds_of(cs: &Vec<char>, lo: usize, hi: usize) -> (r: (usize, usize))
    requires
        lo <= hi <= cs@.len(),
    ensures
        lo <= r.0 <= r.1 <= hi,
        cs@.subrange(r.0 as int, r.1 as int) == trim(cs@.subrange(lo as int, hi as int)),
{
    let mut part: Vec<char> = Vec::new();
    let mut i = lo;
    while i < hi
        invariant
            lo <= i <= hi <= cs@.len(),
            part@ == cs@.subrange(lo as int, i as int),
        decreases hi - i,
    {
        part.push(cs[i]);
        assert(cs@.subrange(lo as int, i + 1) =~= cs@.subrange(lo as int, i as int).push(cs@[i as int]));
        i = i + 1;
    }
    let (a, b) = trim_bounds(&part);
    assert(cs@.subrange(lo + a, lo + b) =~= part@.subrange(a as int, b as int));
    (lo + a, lo + b)
}

// ---------------------------------------------------------------------------
// Inspect responses
// ---------------------------------------------------------------------------

/// The header line `transfer-encoding: chunked` in lower case.
pub open spec fn chunked_header() -> Seq<char> {
    "transfer-encoding: chunked"@
}

/// `i` starts a line of `h`.
pub open spec fn is_line_start(h: Seq<char>, i: int) -> bool {
    i == 0 || (0 < i <= h.len() && h[i - 1] == '\n')
}

/// A line starting at `i` reads `transfer-encoding: chunked` in any ASCII
/// case (a `\r` before the line's `\n` is not part of the line).
pub open spec fn chunked_line_at(h: Seq<char>, i: int) -> bool {
    let n = chunked_header().len();
    &&& is_line_start(h, i)
    &&& i + n <= h.len()
    &&& h.subrange(i, i + n).map_values(|c: char| ascii_lower(c)) == chunked_header()
    &&& (i + n == h.len() || h[i + n] == '\n' || (h[i + n] == '\r' && i + n + 1 < h.len() && h[i + n
        + 1] == '\n'))
}

/// Some line of `h` reads `transfer-encoding: chunked`.
pub open spec fn has_chunked_line(h: Seq<char>) -> bool {
    exists|i: int| chunked_line_at(h, i)
}

/// Whether some header line announces chunked transfer encoding.
fn headers_announce_chunked(cs: &Vec<char>, end: usize) -> (b: bool)
    requires
        end <= cs@.len(),
    ensures
        b == has_chunked_line(cs@.take(end as int)),
{
    let target = chars_of("transfer-encoding: chunked");
    proof {
        reveal_strlit("transfer-encoding: chunked");
    }
    let ghost h = cs@.take(end as int);
    let n = target.len();
    let mut i: usize = 0;
    while i < end
        invariant
            i <= end,
            end <= cs@.len(),
            h == cs@.take(end as int),
            target@ == chunked_header(),
            n == target@.len(),
            n == 26,
            forall|j: int| 0 <= j < i ==> !chunked_line_at(h, j),
        decreases end - i,
    {
        let starts_line = i == 0 || cs[i - 1] == '\n';
        if starts_line && n <= end - i {
            let mut k: usize = 0;
            while k < n && char_ascii_lower(cs[i + k]) == target[k]
                invariant
                    k <= n,
                    n <= end - i,
                    end <= cs@.len(),
                    n == target@.len(),
                    forall|q: int| 0 <= q < k ==> ascii_lower(cs@[i + q]) == target@[q],
                decreases n - k,
            {
                k = k + 1;
            }
            let ends_line = n == end - i || cs[i + n] == '\n' || (cs[i + n] == '\r' && n + 1 < end - i
                && cs[i + n + 1] == '\n');
            let ghost sub = h.subrange(i as int, i + n).map_values(|c: char| ascii_lower(c));
            if k == n && ends_line {
                assert(sub =~= chunked_header());
                assert(chunked_line_at(h, i as int));
                return true;
            }
            proof {
                if k < n {
                    assert(sub[k as int] != chunked_header()[k as int]);
                }
            }
        }
        i = i + 1;
    }
    proof {
        assert forall|j: int| !chunked_line_at(h, j) by {
            if j >= end {
                assert(!(j + 26 <= h.len()));
            }
        }
    }
    false
}

/// Why a Docker inspect response yields no endpoint.
#[derive(Debug)]
pub enum InspectError {
    /// The response has no blank line separating headers and body.
    MissingBody,
    /// The chunked body is malformed.
    BadChunkedBody(ChunkError),
    /// The container port is not published.
    PortNotPublished,
    /// The container port is published without host bindings.
    NoHostBindings,
    /// The published host port is not a port number.
    InvalidHostPort,
}

/// The body of an inspect response: what follows the first blank line,
/// de-chunked when a header line announces chunked encoding.
pub open spec fn response_body(response: Seq<char>) -> Option<Seq<char>> {
    match first_occurrence(response, blank_line()) {
        None => None,
        Some(p) => if has_chunked_line(response.take(p)) {
            decode_chunks(response.skip(p + 4))
        } else {
            Some(response.skip(p + 4))
        },
    }
}

/// The body of a raw inspect response.
pub fn inspect_response_body(response: &str) -> (r: Result<String, InspectError>)
    ensures
        match r {
            Ok(body) => response_body(response@) == Some(body@),
            Err(_) => response_body(response@) is None,
        },
{
    let cs = chars_of(response);
    let sep = chars_of("\r\n\r\n");
    proof {
        reveal_strlit("\r\n\r\n");
        assert(sep@ =~= blank_line());
        assert(cs@.skip(0) =~= cs@);
    }
    let p = match find_from(&cs, &sep, 0) {
        Some(p) => p,
        None => {
            proof {
                assert(!(exists|i: int| is_first_occurrence(cs@, blank_line(), i)));
            }
            return Err(InspectError::MissingBody);
        },
    };
    proof {
        lemma_first_occurrence_unique(cs@, blank_line(), p as int);
        assert(occurs_at(cs@, blank_line(), p as int));
    }
    let n = cs.len();
    assert(p + 4 <= n);
    let body = string_from_chars(&cs, p + 4, cs.len());
    assert(body@ =~= cs@.skip(p + 4));
    if headers_announce_chunked(&cs, p) {
        match decode_chunked_body(body.as_str()) {
            Ok(decoded) => Ok(decoded),
            Err(e) => Err(InspectError::BadChunkedBody(e)),
        }
    } else {
        Ok(body)
    }
}

/// One host binding of a published container port.
#[derive(Debug)]
pub struct DockerPortBinding {
    pub host_ip: String,
    pub host_port: String,
}

/// The key of a container port in Docker's port map: `<port>/tcp`.
pub open spec fn port_key(port: u16) -> Seq<char> {
    decimal(port as nat) + seq!['/', 't', 'c', 'p']
}

/// The key of a container port in Docker's port map.
pub fn published_port_key(port: u16) -> (key: String)
    ensures
        key@ == port_key(port),
{
    let mut key = String::new();
    push_decimal(&mut key, port as u64);
    push_str(&mut key, "/tcp");
    proof {
        reveal_strlit("/tcp");
    }
    assert(key@ =~= port_key(port));
    key
}

/// The host a published endpoint is reached on: the configured public host
/// when set, else the binding's host with wildcard addresses read as
/// `127.0.0.1`.
pub open spec fn public_host_for(host_ip: Seq<char>, public_host: Option<Seq<char>>) -> Seq<char> {
    match trimmed_nonempty(public_host) {
        Some(h) => h,
        None => {
            let t = trim(host_ip);
            if t.len() == 0 || t == "0.0.0.0"@ || t == "::"@ {
                "127.0.0.1"@
            } else {
                t
            }
        },
    }
}

/// The host a published endpoint is reached on (see [`public_host_for`]).
pub fn normalize_public_host(host_ip: &str, public_host: Option<&str>) -> (host: String)
    ensures
        host@ == public_host_for(host_ip@, opt_str(public_host)),
{
    match trimmed_header(public_host) {
        Some(h) => h,
        None => {
            let t = trim_str(host_ip);
            if t.as_str().is_empty() || crate::text::str_equal(t.as_str(), "0.0.0.0")
                || crate::text::str_equal(t.as_str(), "::") {
                copy_str("127.0.0.1")
            } else {
                t
            }
        },
    }
}

/// The model of the bindings Docker reports for a port.
pub open spec fn bindings_view(b: Option<Vec<DockerPortBinding>>) -> Option<Seq<(Seq<char>, Seq<char>)>> {
    match b {
        Some(v) => Some(v@.map_values(|x: DockerPortBinding| (x.host_ip@, x.host_port@))),
        None => None,
    }
}

/// The endpoint for the first host binding of a published port: its host
/// (see [`public_host_for`]), its port parsed as a port number, scheme `http`.
pub open spec fn endpoint_from_bindings_spec(
    bindings: Option<Seq<(Seq<char>, Seq<char>)>>,
    public_host: Option<Seq<char>>,
) -> Option<EndpointView> {
    match bindings {
        None => None,
        Some(b) => if b.len() == 0 {
            None
        } else {
            match parse_unsigned(b[0].1, 10, 65535) {
                None => None,
                Some(port) => Some(
                    EndpointView {
                        ip: public_host_for(b[0].0, public_host),
                        port: port as u16,
                        scheme: "http"@,
                    },
                ),
            }
        },
    }
}

/// The endpoint published for a container port, from the host bindings
/// Docker reports for it (absent when the port is not published).
pub fn endpoint_from_bindings(bindings: Option<Vec<DockerPortBinding>>, public_host: Option<&str>) -> (r:
    Result<ExternalServiceEndpoint, InspectError>)
    ensures
        match r {
            Ok(e) => endpoint_from_bindings_spec(bindings_view(bindings), opt_str(public_host)) == Some(
                e@,
            ),
            Err(_) => endpoint_from_bindings_spec(bindings_view(bindings), opt_str(public_host)) is None,
        },
{
    let ghost bv = bindings_view(bindings);
    let list = match bindings {
        Some(list) => list,
        None => {
            return Err(InspectError::PortNotPublished);
        },
    };
    if list.len() == 0 {
        return Err(InspectError::NoHostBindings);
    }
    let first = &list[0];
    let cs = chars_of(first.host_port.as_str());
    assert(cs@.subrange(0, cs@.len() as int) =~= cs@);
    let port = match parse_unsigned_chars(&cs, 0, cs.len(), 10, 65535) {
        Some(p) => p as u16,
        None => {
            return Err(InspectError::InvalidHostPort);
        },
    };
    let ip = normalize_public_host(first.host_ip.as_str(), public_host);
    let scheme = copy_str("http");
    Ok(ExternalServiceEndpoint { ip, port, scheme })
}

/// What Docker's port map holds under a container port's key.
#[derive(Debug)]
pub enum PortsEntry {
    /// The key is not in the map.
    Missing,
    /// The key maps to `null`.
    Null,
    /// The key maps to something that is not a list of host bindings.
    Malformed,
    /// The key maps to a list of host bindings.
    Bindings(Vec<DockerPortBinding>),
}

/// The host bindings a port-map entry lists, if it lists any.
pub open spec fn entry_bindings(e: PortsEntry) -> Option<Seq<(Seq<char>, Seq<char>)>> {
    match e {
        PortsEntry::Bindings(v) => bindings_view(Some(v)),
        _ => None,
    }
}

/// The endpoint published for a container port, from its entry in Docker's
/// port map: a missing, `null` or malformed entry means the port is not
/// published.
pub fn endpoint_from_ports_entry(entry: PortsEntry, public_host: Option<&str>) -> (r: Result<
    ExternalServiceEndpoint,
    InspectError,
>)
    ensures
        match r {
            Ok(e) => endpoint_from_bindings_spec(entry_bindings(entry), opt_str(public_host)) == Some(
                e@,
            ),
            Err(_) => endpoint_from_bindings_spec(entry_bindings(entry), opt_str(public_host)) is None,
        },
{
    match entry {
        PortsEntry::Bindings(list) => endpoint_from_bindings(Some(list), public_host),
        _ => endpoint_from_bindings(None, public_host),
    }
}

/// The HTTP request that asks the Docker Engine to inspect a container.
pub open spec fn inspect_request_text(container_id: Seq<char>) -> Seq<char> {
    "GET /containers/"@ + container_id + "/json HTTP/1.1\r\nHost: docker\r\nConnection: close\r\n\r\n"@
}

/// The HTTP request that asks the Docker Engine to inspect a container.
pub fn inspect_request(container_id: &str) -> (request: String)
    ensures
        request@ == inspect_request_text(container_id@),
{
    let mut request = copy_str("GET /containers/");
    push_str(&mut request, container_id);
    push_str(&mut request, "/json HTTP/1.1\r\nHost: docker\r\nConnection: close\r\n\r\n");
    request
}

} // verus!
