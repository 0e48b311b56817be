//! Decoding an HTTP body sent with chunked transfer coding, leniently: a
//! body cut short keeps what was decoded so far.
use vstd::prelude::*;

verus! {

/// Why a chunked body could not be decoded at all.
#[derive(Clone, Copy, Debug, PartialEq, Eq, Structural)]
pub enum ChunkError {
    /// The first chunk-size line has no CRLF.
    IncompleteSizeLine,
    /// The first chunk size is not a hexadecimal number that fits.
    InvalidSize,
}

/// Bytes skipped between chunks: CR, LF and space.
pub open spec fn is_gap(b: u8) -> bool {
    b == 13 || b == 10 || b == 32
}

/// Blank bytes trimmed around a chunk size.
pub open spec fn is_blank(b: u8) -> bool {
    b == 32 || b == 9 || b == 10 || b == 11 || b == 12 || b == 13
}

pub open spec fn is_hex_byte(b: u8) -> bool {
    (48 <= b <= 57) || (97 <= b <= 102) || (65 <= b <= 70)
}

pub open spec fn hex_byte_value(b: u8) -> int {
    if 48 <= b <= 57 {
        b - 48
    } else if 97 <= b <= 102 {
        b - 87
    } else {
        b - 55
    }
}

/// The first position at or after `i` that is not a gap byte.
pub open spec fn skip_gaps(s: Seq<u8>, i: int) -> int
    decreases s.len() - i,
{
    if 0 <= i < s.len() && is_gap(s[i]) {
        skip_gaps(s, i + 1)
    } else {
        i
    }
}

/// The position of the first CR followed by LF at or after `i`.
pub open spec fn crlf_from(s: Seq<u8>, i: int) -> Option<int>
    decreases s.len() - i,
{
    if i < 0 || i + 1 >= s.len() {
        None
    } else if s[i] == 13 && s[i + 1] == 10 {
        Some(i)
    } else {
        crlf_from(s, i + 1)
    }
}

/// The position of the first `;` in `line` at or after `j`, or its length.
pub open spec fn semicolon_from(line: Seq<u8>, j: int) -> int
    decreases line.len() - j,
{
    if j < 0 || j >= line.len() {
        line.len() as int
    } else if line[j] == 59 {
        j
    } else {
        semicolon_from(line, j + 1)
    }
}

/// Where the size starts once leading blanks of `line[a..b]` are skipped.
pub open spec fn trim_start(line: Seq<u8>, a: int, b: int) -> int
    decreases b - a,
{
    if a < b && is_blank(line[a]) {
        trim_start(line, a + 1, b)
    } else {
        a
    }
}

/// Where the size ends once trailing blanks of `line[a..b]` are dropped.
pub open spec fn trim_end(line: Seq<u8>, a: int, b: int) -> int
    decreases b - a,
{
    if a < b && is_blank(line[b - 1]) {
        trim_end(line, a, b - 1)
    } else {
        b
    }
}

/// The number written in hexadecimal by `line[a..b]`.
pub open spec fn hex_number(line: Seq<u8>, a: int, b: int) -> int
    decreases b - a,
{
    if b <= a {
        0
    } else {
        hex_number(line, a, b - 1) * 16 + hex_byte_value(line[b - 1])
    }
}

/// What a chunk-size line says.
pub enum SizeLine {
    /// Nothing but blanks and extensions.
    Empty,
    /// Not a hexadecimal number that fits.
    Invalid,
    Size(nat),
}

/// The size on a chunk-size line: the text before any `;`, with blanks
/// trimmed, read as hexadecimal.
pub open spec fn size_line(line: Seq<u8>) -> SizeLine {
    let semi = semicolon_from(line, 0);
    let a = trim_start(line, 0, semi);
    let b = trim_end(line, a, semi);
    if a == b {
        SizeLine::Empty
    } else if (forall|k: int| a <= k < b ==> is_hex_byte(#[trigger] line[k])) && hex_number(line, a, b)
        <= usize::MAX {
        SizeLine::Size(hex_number(line, a, b) as nat)
    } else {
        SizeLine::Invalid
    }
}

/// Decoding from position `i`, with `acc` decoded so far: gaps are
/// skipped; a size line ends at CRLF; an empty size line is passed over; a
/// zero size ends the body; a chunk cut short keeps what is there; a chunk
/// may be followed by CRLF.  A missing or unreadable size line ends the
/// body when something was decoded, and is an error otherwise.
pub open spec fn decode_from(s: Seq<u8>, i: int, acc: Seq<u8>) -> Result<Seq<u8>, ChunkError>
    decreases s.len() - i,
{
    let j = skip_gaps(s, i);
    if i < 0 || j >= s.len() || j < i {
        Ok(acc)
    } else {
        match crlf_from(s, j) {
            None => if acc.len() > 0 {
                Ok(acc)
            } else {
                Err(ChunkError::IncompleteSizeLine)
            },
            Some(e) => if e < j || e + 2 > s.len() {
                Ok(acc)
            } else {
                match size_line(s.subrange(j, e)) {
                    SizeLine::Empty => decode_from(s, e + 2, acc),
                    SizeLine::Invalid => if acc.len() > 0 {
                        Ok(acc)
                    } else {
                        Err(ChunkError::InvalidSize)
                    },
                    SizeLine::Size(n) => {
                        let d = e + 2;
                        if n == 0 {
                            Ok(acc)
                        } else if d + n > s.len() {
                            Ok(acc + s.subrange(d, s.len() as int))
                        } else {
                            let k = d + n;
                            let k2 = if k + 1 < s.len() && s[k] == 13 && s[k + 1] == 10 {
                                k + 2
                            } else {
                                k
                            };
                            decode_from(s, k2, acc + s.subrange(d, k))
                        }
                    },
                }
            },
        }
    }
}

pub proof fn lemma_skip_gaps(s: Seq<u8>, i: int)
    requires
        0 <= i <= s.len(),
    ensures
        i <= skip_gaps(s, i) <= s.len(),
        skip_gaps(s, i) < s.len() ==> !is_gap(s[skip_gaps(s, i)]),
    decreases s.len() - i,
{
    if i < s.len() && is_gap(s[i]) {
        lemma_skip_gaps(s, i + 1);
    }
}

pub proof fn lemma_crlf_from(s: Seq<u8>, i: int)
    requires
        0 <= i,
    ensures
        crlf_from(s, i) matches Some(e) ==> i <= e && e + 1 < s.len(),
    decreases s.len() - i,
{
    if i + 1 < s.len() && !(s[i] == 13 && s[i + 1] == 10) {
        lemma_crlf_from(s, i + 1);
    }
}

fn skip_gaps_exec(s: &[u8], i: usize) -> (r: usize)
    requires
        i <= s@.len(),
    ensures
        r == skip_gaps(s@, i as int),
{
    let mut j = i;
    while j < s.len() && (s[j] == 13 || s[j] == 10 || s[j] == 32)
        invariant
            i <= j <= s@.len(),
            skip_gaps(s@, i as int) == skip_gaps(s@, j as int),
        decreases s@.len() - j,
    {
        j = j + 1;
    }
    j
}

fn crlf_from_exec(s: &[u8], i: usize) -> (r: Option<usize>)
    requires
        i <= s@.len(),
    ensures
        r matches Some(e) ==> crlf_from(s@, i as int) == Some(e as int),
        r is None ==> crlf_from(s@, i as int) is None,
{
    let mut j = i;
    while j < s.len() && j + 1 < s.len()
        invariant
            i <= j <= s@.len(),
            crlf_from(s@, i as int) == crlf_from(s@, j as int),
        decreases s@.len() - j,
    {
        if s[j] == 13 && s[j + 1] == 10 {
            return Some(j);
        }
        j = j + 1;
    }
    None
}

pub proof fn lemma_hex_number_grows(line: Seq<u8>, a: int, k: int, b: int)
    requires
        a <= k <= b,
        forall|m: int| a <= m < b ==> is_hex_byte(#[trigger] line[m]),
    ensures
        hex_number(line, a, k) <= hex_number(line, a, b),
        0 <= hex_number(line, a, k),
    decreases b - k,
{
    if k < b {
        lemma_hex_number_grows(line, a, k, b - 1);
        lemma_hex_number_grows(line, a, b - 1, b - 1);
        assert(hex_byte_value(line[b - 1]) >= 0);
    } else {
        lemma_hex_number_nonneg(line, a, b);
    }
}

pub proof fn lemma_hex_number_nonneg(line: Seq<u8>, a: int, b: int)
    requires
        forall|m: int| a <= m < b ==> is_hex_byte(#[trigger] line[m]),
    ensures
        0 <= hex_number(line, a, b),
    decreases b - a,
{
    if b > a {
        lemma_hex_number_nonneg(line, a, b - 1);
    }
}

/// Reads a chunk-size line.
fn size_line_exec(s: &[u8], start: usize, end: usize) -> (r: (u8, usize))
    requires
        start <= end <= s@.len(),
    ensures
        r.0 == 0 ==> size_line(s@.subrange(start as int, end as int)) is Empty,
        r.0 == 1 ==> size_line(s@.subrange(start as int, end as int)) is Invalid,
        r.0 == 2 ==> size_line(s@.subrange(start as int, end as int)) == SizeLine::Size(r.1 as nat),
        r.0 <= 2,
{
    let ghost line = s@.subrange(start as int, end as int);
    let len = end - start;
    let mut semi: usize = 0;
    while semi < len && s[start + semi] != 59
        invariant
            start <= end <= s@.len(),
            len == end - start,
            len == line.len(),
            line == s@.subrange(start as int, end as int),
            0 <= semi <= len,
            semicolon_from(line, 0) == semicolon_from(line, semi as int),
        decreases len - semi,
    {
        assert(line[semi as int] == s@[start + semi]);
        semi = semi + 1;
    }
    if semi < len {
        assert(line[semi as int] == s@[start + semi]);
    }
    assert(semicolon_from(line, semi as int) == semi);
    let mut a: usize = 0;
    while a < semi && (s[start + a] == 32 || (9 <= s[start + a] && s[start + a] <= 13))
        invariant
            start <= end <= s@.len(),
            len == end - start,
            len == line.len(),
            line == s@.subrange(start as int, end as int),
            semi <= len,
            0 <= a <= semi,
            trim_start(line, 0, semi as int) == trim_start(line, a as int, semi as int),
        decreases semi - a,
    {
        assert(line[a as int] == s@[start + a]);
        a = a + 1;
    }
    if a < semi {
        assert(line[a as int] == s@[start + a]);
    }
    assert(trim_start(line, a as int, semi as int) == a);
    let mut b: usize = semi;
    while b > a && (s[start + b - 1] == 32 || (9 <= s[start + b - 1] && s[start + b - 1] <= 13))
        invariant
            start <= end <= s@.len(),
            len == end - start,
            len == line.len(),
            line == s@.subrange(start as int, end as int),
            semi <= len,
            a <= b <= semi,
            trim_end(line, a as int, semi as int) == trim_end(line, a as int, b as int),
        decreases b - a,
    {
        assert(line[b - 1] == s@[start + b - 1]);
        b = b - 1;
    }
    if b > a {
        assert(line[b - 1] == s@[start + b - 1]);
    }
    assert(trim_end(line, a as int, b as int) == b);
    if a == b {
        return (0, 0);
    }
    let mut v: usize = 0;
    let mut k: usize = a;
    while k < b
        invariant
            start <= end <= s@.len(),
            len == end - start,
            len == line.len(),
            line == s@.subrange(start as int, end as int),
            a <= k <= b <= semi <= len,
            a < b,
            semicolon_from(line, 0) == semi,
            trim_start(line, 0, semi as int) == a,
            trim_end(line, a as int, semi as int) == b,
            forall|m: int| a <= m < k ==> is_hex_byte(#[trigger] line[m]),
            v == hex_number(line, a as int, k as int),
        decreases b - k,
    {
        let c = s[start + k];
        assert(c == line[k as int]);
        let d: usize = if 48 <= c && c <= 57 {
            (c - 48) as usize
        } else if 97 <= c && c <= 102 {
            (c - 87) as usize
        } else if 65 <= c && c <= 70 {
            (c - 55) as usize
        } else {
            assert(!is_hex_byte(line[k as int]));
            assert(!(forall|m: int| a <= m < b ==> is_hex_byte(#[trigger] line[m])));
            return (1, 0);
        };
        assert(is_hex_byte(line[k as int]));
        assert(d == hex_byte_value(line[k as int]));
        if v > (usize::MAX - d) / 16 {
            proof {
                assert(v * 16 + d > usize::MAX) by (nonlinear_arith)
                    requires
                        v > (usize::MAX - d) / 16,
                        d <= 15,
                ;
                assert(hex_number(line, a as int, k + 1) == v * 16 + d);
                if forall|m: int| a <= m < b ==> is_hex_byte(#[trigger] line[m]) {
                    lemma_hex_number_grows(line, a as int, k + 1, b as int);
                }
            }
            return (1, 0);
        }
        proof {
            assert(v * 16 + d <= usize::MAX) by (nonlinear_arith)
                requires
                    v <= (usize::MAX - d) / 16,
                    d <= 15,
            ;
        }
        v = v * 16 + d;
        k = k + 1;
    }
    (2, v)
}

/// Decodes a body sent with chunked transfer coding.
pub fn decode_chunked_body(body: &[u8]) -> (r: Result<Vec<u8>, ChunkError>)
    ensures
        r matches Ok(v) ==> decode_from(body@, 0, seq![]) == Ok::<Seq<u8>, ChunkError>(v@),
        r matches Err(e) ==> decode_from(body@, 0, seq![]) == Err::<Seq<u8>, ChunkError>(e),
{
    let mut result: Vec<u8> = Vec::new();
    let mut i: usize = 0;
    let ghost s = body@;
    loop
        invariant
            s == body@,
            0 <= i <= s.len(),
            decode_from(s, 0, seq![]) == decode_from(s, i as int, result@),
        decreases s.len() - i,
    {
        let j = skip_gaps_exec(body, i);
        proof {
            lemma_skip_gaps(s, i as int);
        }
        if j >= body.len() {
            return Ok(result);
        }
        let e = match crlf_from_exec(body, j) {
            Some(e) => e,
            None => {
                if result.len() > 0 {
                    return Ok(result);
                }
                return Err(ChunkError::IncompleteSizeLine);
            },
        };
        proof {
            lemma_crlf_from(s, j as int);
        }
        let (kind, n) = size_line_exec(body, j, e);
        if kind == 0 {
            i = e + 2;
            continue;
        }
        if kind == 1 {
            if result.len() > 0 {
                return Ok(result);
            }
            return Err(ChunkError::InvalidSize);
        }
        let d = e + 2;
        if n == 0 {
            return Ok(result);
        }
        if n > body.len() - d {
            let ghost before = result@;
            let mut t = d;
            while t < body.len()
                invariant
                    s == body@,
                    d <= t <= s.len(),
                    result@ == before + s.subrange(d as int, t as int),
                decreases s.len() - t,
            {
                result.push(body[t]);
                t = t + 1;
                assert(result@ =~= before + s.subrange(d as int, t as int));
            }
            return Ok(result);
        }
        let k = d + n;
        let ghost before = result@;
        let mut t = d;
        while t < k
            invariant
                s == body@,
                d <= t <= k <= s.len(),
                result@ == before + s.subrange(d as int, t as int),
            decreases k - t,
        {
            result.push(body[t]);
            t = t + 1;
            assert(result@ =~= before + s.subrange(d as int, t as int));
        }
        if k < body.len() && k + 1 < body.len() && body[k] == 13 && body[k + 1] == 10 {
            i = k + 2;
        } else {
            i = k;
        }
    }
}

/// The lower-case hexadecimal digit byte for a value below sixteen.
pub open spec fn hex_digit_byte(n: int) -> u8 {
    if n < 10 {
        (48 + n) as u8
    } else {
        (87 + n) as u8
    }
}

/// `n` in lower-case hexadecimal, without leading zeros.
pub open spec fn hex_repr(n: nat) -> Seq<u8>
    decreases n,
{
    if n < 16 {
        seq![hex_digit_byte(n as int)]
    } else {
        hex_repr(n / 16).push(hex_digit_byte((n % 16) as int))
    }
}

/// CR LF.
pub open spec fn crlf() -> Seq<u8> {
    seq![13u8, 10u8]
}

/// One chunk: its size in hexadecimal, CRLF, its bytes, CRLF.
pub open spec fn chunk_encoding(c: Seq<u8>) -> Seq<u8> {
    hex_repr(c.len()) + crlf() + c + crlf()
}

/// Chunks in turn, then the last chunk `0` and the final CRLF.
pub open spec fn chunks_encoding(cs: Seq<Seq<u8>>) -> Seq<u8>
    decreases cs.len(),
{
    if cs.len() == 0 {
        seq![48u8] + crlf() + crlf()
    } else {
        chunk_encoding(cs[0]) + chunks_encoding(cs.drop_first())
    }
}

/// The bytes of the chunks joined.
pub open spec fn joined(cs: Seq<Seq<u8>>) -> Seq<u8>
    decreases cs.len(),
{
    if cs.len() == 0 {
        Seq::empty()
    } else {
        cs[0] + joined(cs.drop_first())
    }
}

proof fn lemma_hex_repr_digits(n: nat)
    ensures
        hex_repr(n).len() >= 1,
        forall|k: int| 0 <= k < hex_repr(n).len() ==> is_hex_byte(#[trigger] hex_repr(n)[k])
            && !is_blank(hex_repr(n)[k]) && hex_repr(n)[k] != 59 && hex_repr(n)[k] != 13
            && !is_gap(hex_repr(n)[k]),
    decreases n,
{
    if n >= 16 {
        lemma_hex_repr_digits(n / 16);
    }
}

proof fn lemma_hex_number_prefix(x: Seq<u8>, d: u8, k: int)
    requires
        0 <= k <= x.len(),
    ensures
        hex_number(x.push(d), 0, k) == hex_number(x, 0, k),
    decreases k,
{
    if k > 0 {
        lemma_hex_number_prefix(x, d, k - 1);
    }
}

proof fn lemma_hex_repr_value(n: nat)
    ensures
        hex_number(hex_repr(n), 0, hex_repr(n).len() as int) == n,
    decreases n,
{
    if n >= 16 {
        let x = hex_repr(n / 16);
        lemma_hex_repr_value(n / 16);
        lemma_hex_number_prefix(x, hex_digit_byte((n % 16) as int), x.len() as int);
        let y = x.push(hex_digit_byte((n % 16) as int));
        assert(hex_repr(n) == y);
        let l = y.len() as int;
        assert(y[l - 1] == hex_digit_byte((n % 16) as int));
        assert(hex_byte_value(hex_digit_byte((n % 16) as int)) == n % 16);
        assert(hex_number(y, 0, l) == hex_number(y, 0, l - 1) * 16 + hex_byte_value(y[l - 1]));
        assert(l - 1 == x.len());
        assert(hex_number(y, 0, l - 1) == n / 16);
        assert((n / 16) * 16 + n % 16 == n) by (nonlinear_arith);
        assert(hex_number(y, 0, l) == n);
    } else {
        assert(hex_byte_value(hex_digit_byte(n as int)) == n);
        let y = hex_repr(n);
        assert(y.len() == 1 && y[0] == hex_digit_byte(n as int));
        assert(hex_number(y, 0, 0) == 0);
        assert(hex_number(y, 0, 1) == hex_number(y, 0, 0) * 16 + hex_byte_value(y[0]));
    }
}

proof fn lemma_semicolon_absent(line: Seq<u8>, j: int)
    requires
        0 <= j <= line.len(),
        forall|k: int| j <= k < line.len() ==> #[trigger] line[k] != 59,
    ensures
        semicolon_from(line, j) == line.len(),
    decreases line.len() - j,
{
    if j < line.len() {
        lemma_semicolon_absent(line, j + 1);
    }
}

proof fn lemma_trim_end_none(line: Seq<u8>, b: int)
    requires
        0 < b <= line.len(),
        !is_blank(line[b - 1]),
    ensures
        trim_end(line, 0, b) == b,
{
}

/// A size line written as the hexadecimal of `n` reads as `n`.
proof fn lemma_size_line_of_repr(n: nat)
    requires
        n <= usize::MAX,
    ensures
        size_line(hex_repr(n)) == SizeLine::Size(n),
{
    let line = hex_repr(n);
    lemma_hex_repr_digits(n);
    lemma_semicolon_absent(line, 0);
    assert(trim_start(line, 0, line.len() as int) == 0);
    lemma_trim_end_none(line, line.len() as int);
    lemma_hex_repr_value(n);
}

proof fn lemma_crlf_after(s: Seq<u8>, i: int, e: int)
    requires
        0 <= i <= e,
        e + 1 < s.len(),
        s[e] == 13 && s[e + 1] == 10,
        forall|p: int| i <= p < e ==> #[trigger] s[p] != 13,
    ensures
        crlf_from(s, i) == Some(e),
    decreases e - i,
{
    if i < e {
        lemma_crlf_after(s, i + 1, e);
    }
}

proof fn lemma_joined_step(acc: Seq<u8>, c: Seq<u8>, cs: Seq<Seq<u8>>)
    requires
        cs.len() > 0,
        cs[0] == c,
    ensures
        acc + joined(cs) == (acc + c) + joined(cs.drop_first()),
{
    assert(acc + (c + joined(cs.drop_first())) =~= (acc + c) + joined(cs.drop_first()));
}

/// Decoding from a position where the canonical encoding of `cs` begins
/// appends the chunks' bytes.
pub proof fn lemma_decode_encoding_from(s: Seq<u8>, i: int, acc: Seq<u8>, cs: Seq<Seq<u8>>)
    requires
        0 <= i <= s.len(),
        s.subrange(i, s.len() as int) == chunks_encoding(cs),
        forall|k: int| 0 <= k < cs.len() ==> 0 < (#[trigger] cs[k]).len() <= usize::MAX,
    ensures
        decode_from(s, i, acc) == Ok::<Seq<u8>, ChunkError>(acc + joined(cs)),
    decreases cs.len(),
{
    let t = s.subrange(i, s.len() as int);
    if cs.len() == 0 {
        assert(t[0] == 48u8 && t[1] == 13u8 && t[2] == 10u8);
        assert(s[i] == 48u8 && s[i + 1] == 13u8 && s[i + 2] == 10u8);
        assert(skip_gaps(s, i) == i);
        lemma_crlf_after(s, i, i + 1);
        let line = s.subrange(i, i + 1);
        assert(line =~= hex_repr(0));
        lemma_size_line_of_repr(0);
        assert(acc + joined(cs) =~= acc);
    } else {
        let c = cs[0];
        let h = hex_repr(c.len());
        let L = h.len() as int;
        let n = c.len() as int;
        lemma_hex_repr_digits(c.len());
        assert(t == chunk_encoding(c) + chunks_encoding(cs.drop_first()));
        assert forall|p: int| 0 <= p < L implies #[trigger] s[i + p] == h[p] by {
            assert(t[p] == h[p]);
        }
        assert(s[i + L] == 13u8 && s[i + L + 1] == 10u8) by {
            assert(t[L] == 13u8 && t[L + 1] == 10u8);
        }
        assert(t[0] == h[0]);
        assert(s[i] == t[0]);
        assert(skip_gaps(s, i) == i);
        assert forall|p: int| i <= p < i + L implies #[trigger] s[p] != 13 by {
            assert(s[i + (p - i)] == h[p - i]);
        }
        lemma_crlf_after(s, i, i + L);
        assert(s.subrange(i, i + L) =~= h);
        lemma_size_line_of_repr(c.len());
        let d = i + L + 2;
        let k = d + n;
        assert(k + 2 <= s.len());
        assert(s.subrange(d, k) =~= c) by {
            assert forall|p: int| 0 <= p < n implies s.subrange(d, k)[p] == c[p] by {
                assert(t[L + 2 + p] == c[p]);
            }
        }
        assert(s[k] == 13u8 && s[k + 1] == 10u8) by {
            assert(t[L + 2 + n] == 13u8 && t[L + 2 + n + 1] == 10u8);
        }
        assert(s.subrange(k + 2, s.len() as int) =~= chunks_encoding(cs.drop_first())) by {
            assert(t.subrange(L + 2 + n + 2, t.len() as int) =~= chunks_encoding(cs.drop_first()));
        }
        lemma_decode_encoding_from(s, k + 2, acc + c, cs.drop_first());
        lemma_joined_step(acc, c, cs);
    }
}

/// A body in canonical chunked coding of non-empty chunks decodes to the
/// chunks' bytes joined.
pub proof fn lemma_decode_round_trip(cs: Seq<Seq<u8>>)
    requires
        forall|k: int| 0 <= k < cs.len() ==> 0 < (#[trigger] cs[k]).len() <= usize::MAX,
    ensures
        decode_from(chunks_encoding(cs), 0, Seq::empty()) == Ok::<Seq<u8>, ChunkError>(joined(cs)),
{
    let s = chunks_encoding(cs);
    assert(s.subrange(0, s.len() as int) =~= s);
    lemma_decode_encoding_from(s, 0, Seq::empty(), cs);
    assert(Seq::<u8>::empty() + joined(cs) =~= joined(cs));
}

} // verus!
