//! Byte-level codecs the token format is built from: decimal numbers and
//! JSON string escaping. Everything here is verified against exact
//! specifications, and the reading direction is proved to invert the
//! writing direction.

use vstd::prelude::*;
use vstd::arithmetic::div_mod::lemma_fundamental_div_mod;

verus! {

// ---------------------------------------------------------------------------
// Small byte helpers
// ---------------------------------------------------------------------------

/// ASCII decimal digit.
pub open spec fn is_digit(b: u8) -> bool {
    48 <= b && b <= 57
}

/// Lowercase hex digit for a value below 16.
pub open spec fn hex_digit(v: u8) -> u8 {
    if v < 10 {
        (48 + v) as u8
    } else {
        (87 + v) as u8
    }
}

/// ASCII bytes that `hex_digit` can produce.
pub open spec fn is_hex_lower(b: u8) -> bool {
    (48 <= b && b <= 57) || (97 <= b && b <= 102)
}

/// Value of a lowercase hex digit byte.
pub open spec fn hex_val(b: u8) -> u8 {
    if b <= 57 {
        (b - 48) as u8
    } else {
        (b - 87) as u8
    }
}

proof fn lemma_hex_roundtrip(v: u8)
    requires
        v < 16,
    ensures
        is_hex_lower(hex_digit(v)),
        hex_val(hex_digit(v)) == v,
{
}

/// Append a slice to a byte vector.
pub fn write_bytes(out: &mut Vec<u8>, s: &[u8])
    ensures
        final(out)@ == old(out)@ + s@,
{
    let n: usize = s.len();
    for i in 0..n
        invariant
            n == s@.len(),
            out@ == old(out)@ + s@.take(i as int),
    {
        out.push(s[i]);
        assert(s@.take(i + 1) == s@.take(i as int).push(s@[i as int]));
    }
    assert(s@.take(n as int) == s@);
}

/// Compare two byte strings.
pub fn bytes_eq(a: &[u8], b: &[u8]) -> (r: bool)
    ensures
        r == (a@ == b@),
{
    if a.len() != b.len() {
        return false;
    }
    let n: usize = a.len();
    for i in 0..n
        invariant
            n == a@.len() && n == b@.len(),
            forall|k: int| 0 <= k < i ==> a@[k] == #[trigger] b@[k],
    {
        if a[i] != b[i] {
            return false;
        }
    }
    proof {
        assert(a@ =~= b@);
    }
    true
}

/// Whether `lit` occurs in `buf` starting at `pos`.
pub open spec fn has_lit_at(buf: Seq<u8>, pos: int, lit: Seq<u8>) -> bool {
    &&& 0 <= pos
    &&& pos + lit.len() <= buf.len()
    &&& buf.subrange(pos, pos + lit.len()) == lit
}

/// Check that `buf` continues with the literal `lit` at `pos`; on success
/// the returned position is just past the literal.
pub fn expect_lit(buf: &[u8], pos: usize, lit: &[u8]) -> (r: Option<usize>)
    ensures
        match r {
            Some(p) => p == pos + lit@.len() && has_lit_at(buf@, pos as int, lit@),
            None => !has_lit_at(buf@, pos as int, lit@),
        },
{
    if pos > buf.len() || lit.len() > buf.len() - pos {
        return None;
    }
    let n: usize = lit.len();
    for i in 0..n
        invariant
            n == lit@.len(),
            pos + n <= buf@.len(),
            pos + n <= usize::MAX,
            forall|k: int| 0 <= k < i ==> buf@[pos + k] == #[trigger] lit@[k],
    {
        if buf[pos + i] != lit[i] {
            proof {
                if has_lit_at(buf@, pos as int, lit@) {
                    assert(buf@.subrange(pos as int, pos + lit@.len())[i as int]
                        == lit@[i as int]);
                }
            }
            return None;
        }
    }
    proof {
        assert(buf@.subrange(pos as int, pos + lit@.len()) =~= lit@);
    }
    Some(pos + n)
}

/// The first index at or after `pos` where byte `b` occurs, or the length.
pub open spec fn byte_pos(t: Seq<u8>, pos: int, b: u8) -> int
    decreases t.len() - pos,
{
    if 0 <= pos < t.len() && t[pos] != b {
        byte_pos(t, pos + 1, b)
    } else {
        pos
    }
}

pub proof fn lemma_byte_pos(t: Seq<u8>, pos: int, b: u8)
    requires
        0 <= pos <= t.len(),
    ensures
        pos <= byte_pos(t, pos, b) <= t.len(),
        forall|i: int| pos <= i < byte_pos(t, pos, b) ==> t[i] != b,
        byte_pos(t, pos, b) < t.len() ==> t[byte_pos(t, pos, b)] == b,
    decreases t.len() - pos,
{
    if pos < t.len() && t[pos] != b {
        lemma_byte_pos(t, pos + 1, b);
    }
}

/// A stretch free of `b` followed by `b` (or the end) pins `byte_pos`.
pub proof fn lemma_byte_run(t: Seq<u8>, pos: int, d: int, b: u8)
    requires
        0 <= pos <= d <= t.len(),
        forall|i: int| pos <= i < d ==> t[i] != b,
        d < t.len() ==> t[d] == b,
    ensures
        byte_pos(t, pos, b) == d,
    decreases d - pos,
{
    if pos < d {
        lemma_byte_run(t, pos + 1, d, b);
    }
}

/// Find the first occurrence of byte `b` at or after `pos`.
pub fn find_byte(t: &[u8], pos: usize, b: u8) -> (r: usize)
    requires
        pos <= t@.len(),
    ensures
        r == byte_pos(t@, pos as int, b),
        pos <= r <= t@.len(),
        r < t@.len() ==> t@[r as int] == b,
        forall|i: int| pos <= i < r ==> t@[i] != b,
{
    let mut i: usize = pos;
    while i < t.len() && t[i] != b
        invariant
            pos <= i <= t@.len(),
            forall|k: int| pos <= k < i ==> t@[k] != b,
        decreases t@.len() - i,
    {
        i = i + 1;
    }
    proof {
        lemma_byte_run(t@, pos as int, i as int, b);
    }
    i
}

/// Copy the bytes of `t` between `a` and `b`.
pub fn copy_range(t: &[u8], a: usize, b: usize) -> (r: Vec<u8>)
    requires
        a <= b <= t@.len(),
    ensures
        r@ == t@.subrange(a as int, b as int),
{
    let mut out: Vec<u8> = Vec::new();
    let mut i: usize = a;
    while i < b
        invariant
            a <= i <= b <= t@.len(),
            out@ == t@.subrange(a as int, i as int),
        decreases b - i,
    {
        out.push(t[i]);
        proof {
            assert(t@.subrange(a as int, i + 1)
                =~= t@.subrange(a as int, i as int).push(t@[i as int]));
        }
        i = i + 1;
    }
    out
}

// ---------------------------------------------------------------------------
// Decimal numbers
// ---------------------------------------------------------------------------

/// The decimal digit string of `n`, most significant digit first.
pub open spec fn dec_of(n: nat) -> Seq<u8>
    decreases n,
{
    if n < 10 {
        seq![(48 + n) as u8]
    } else {
        dec_of(n / 10).push((48 + n % 10) as u8)
    }
}

/// The numeric value of a digit string.
pub open spec fn dec_val(s: Seq<u8>) -> int
    decreases s.len(),
{
    if s.len() == 0 {
        0
    } else {
        dec_val(s.drop_last()) * 10 + s.last() - 48
    }
}

/// Every byte of `dec_of(n)` is a digit, the string is non-empty, and its
/// value is `n`.
pub proof fn lemma_dec_of(n: nat)
    ensures
        dec_of(n).len() >= 1,
        forall|i: int| 0 <= i < dec_of(n).len() ==> is_digit(#[trigger] dec_of(n)[i]),
        dec_val(dec_of(n)) == n,
    decreases n,
{
    if n < 10 {
        let s = dec_of(n);
        assert(s == seq![(48 + n) as u8]);
        assert(s.drop_last() =~= Seq::<u8>::empty());
        assert(dec_val(s.drop_last()) == 0);
        assert(s.last() == (48 + n) as u8);
        assert(dec_val(s) == n);
    } else {
        lemma_dec_of(n / 10);
        lemma_fundamental_div_mod(n as int, 10);
        let s = dec_of(n);
        assert(s == dec_of(n / 10).push((48 + n % 10) as u8));
        assert(s.drop_last() =~= dec_of(n / 10));
        assert(s.last() == (48 + n % 10) as u8);
        assert(dec_val(s) == dec_val(dec_of(n / 10)) * 10 + s.last() - 48);
        assert(dec_val(s) == (n / 10) * 10 + n % 10);
        assert(forall|i: int| 0 <= i < s.len() - 1 ==> #[trigger] s[i] == dec_of(n / 10)[i]);
    }
}

proof fn lemma_dec_val_nonneg(s: Seq<u8>)
    requires
        forall|i: int| 0 <= i < s.len() ==> is_digit(#[trigger] s[i]),
    ensures
        dec_val(s) >= 0,
    decreases s.len(),
{
    if s.len() > 0 {
        lemma_dec_val_nonneg(s.drop_last());
    }
}

/// A digit string's value dominates the value of each of its prefixes.
proof fn lemma_dec_val_take_mono(s: Seq<u8>, k: int)
    requires
        0 <= k <= s.len(),
        forall|i: int| 0 <= i < s.len() ==> is_digit(#[trigger] s[i]),
    ensures
        0 <= dec_val(s.take(k)) <= dec_val(s),
    decreases s.len() - k,
{
    if k == s.len() {
        assert(s.take(k) =~= s);
        lemma_dec_val_nonneg(s);
    } else {
        lemma_dec_val_take_mono(s, k + 1);
        assert(s.take(k + 1).drop_last() =~= s.take(k));
        assert(s.take(k + 1).last() == s[k]);
        assert(forall|i: int| 0 <= i < s.take(k).len() ==> is_digit(#[trigger] s.take(k)[i]));
        lemma_dec_val_nonneg(s.take(k));
        assert(dec_val(s.take(k + 1)) == dec_val(s.take(k)) * 10 + s[k] - 48);
    }
}

/// Write `n` in decimal.
pub fn write_u64(out: &mut Vec<u8>, n: u64)
    ensures
        final(out)@ == old(out)@ + dec_of(n as nat),
    decreases n,
{
    if n < 10 {
        out.push(48 + (n as u8));
    } else {
        write_u64(out, n / 10);
        out.push(48 + ((n % 10) as u8));
    }
}

/// Index just past the run of digits that starts at `pos`.
pub open spec fn digit_run_end(buf: Seq<u8>, pos: int) -> int
    decreases buf.len() - pos,
{
    if 0 <= pos < buf.len() && is_digit(buf[pos]) {
        digit_run_end(buf, pos + 1)
    } else {
        pos
    }
}

proof fn lemma_digit_run_end(buf: Seq<u8>, pos: int)
    requires
        0 <= pos <= buf.len(),
    ensures
        pos <= digit_run_end(buf, pos) <= buf.len(),
        forall|i: int| pos <= i < digit_run_end(buf, pos) ==> is_digit(#[trigger] buf[i]),
        digit_run_end(buf, pos) < buf.len() ==> !is_digit(buf[digit_run_end(buf, pos)]),
    decreases buf.len() - pos,
{
    if pos < buf.len() && is_digit(buf[pos]) {
        lemma_digit_run_end(buf, pos + 1);
    }
}

/// What `read_u64` returns: the maximal digit run starting at `pos`,
/// provided it is non-empty and its value fits in a `u64`.
pub open spec fn spec_read_u64(buf: Seq<u8>, pos: int) -> Option<(u64, int)> {
    let end = digit_run_end(buf, pos);
    if end > pos && 0 <= dec_val(buf.subrange(pos, end)) <= u64::MAX {
        Some((dec_val(buf.subrange(pos, end)) as u64, end))
    } else {
        None
    }
}

/// Read a decimal number: the maximal digit run starting at `pos`.
/// Fails on an empty run or on a value that does not fit in a `u64`.
pub fn read_u64(buf: &[u8], pos: usize) -> (r: Option<(u64, usize)>)
    requires
        pos <= buf@.len(),
    ensures
        match r {
            Some((n, p)) => spec_read_u64(buf@, pos as int) == Some((n, p as int))
                && pos < p <= buf@.len(),
            None => spec_read_u64(buf@, pos as int) is None,
        },
{
    let ghost end = digit_run_end(buf@, pos as int);
    proof {
        lemma_digit_run_end(buf@, pos as int);
    }
    let mut i: usize = pos;
    let mut val: u64 = 0;
    while i < buf.len() && 48 <= buf[i] && buf[i] <= 57
        invariant
            pos <= i <= end <= buf@.len(),
            end == digit_run_end(buf@, pos as int),
            forall|k: int| pos <= k < end ==> is_digit(#[trigger] buf@[k]),
            end < buf@.len() ==> !is_digit(buf@[end as int]),
            val == dec_val(buf@.subrange(pos as int, i as int)),
        decreases buf@.len() - i,
    {
        proof {
            if i == end {
                assert(!is_digit(buf@[i as int]));
            }
        }
        let d: u8 = buf[i] - 48;
        proof {
            assert(buf@.subrange(pos as int, i + 1).drop_last()
                =~= buf@.subrange(pos as int, i as int));
            assert(buf@.subrange(pos as int, i + 1).last() == buf@[i as int]);
        }
        if val > (u64::MAX - (d as u64)) / 10 {
            // The run's value already exceeds u64::MAX.
            proof {
                lemma_fundamental_div_mod((u64::MAX - d) as int, 10);
                assert(dec_val(buf@.subrange(pos as int, i + 1)) > u64::MAX);
                lemma_read_u64_overflow(buf@, pos as int, i + 1);
            }
            return None;
        }
        proof {
            lemma_fundamental_div_mod((u64::MAX - d) as int, 10);
        }
        val = val * 10 + (d as u64);
        i = i + 1;
    }
    proof {
        if i < end {
            assert(is_digit(buf@[i as int]));
            assert(false);
        }
        assert(i == end);
    }
    if i == pos {
        return None;
    }
    Some((val, i))
}

/// If a prefix of the digit run already exceeds `u64::MAX`, so does the
/// whole run.
proof fn lemma_read_u64_overflow(buf: Seq<u8>, pos: int, k: int)
    requires
        0 <= pos <= k <= digit_run_end(buf, pos),
        digit_run_end(buf, pos) <= buf.len(),
        forall|i: int| pos <= i < digit_run_end(buf, pos) ==> is_digit(#[trigger] buf[i]),
        dec_val(buf.subrange(pos, k)) > u64::MAX,
    ensures
        spec_read_u64(buf, pos) is None,
{
    let end = digit_run_end(buf, pos);
    let run = buf.subrange(pos, end);
    assert(forall|i: int| 0 <= i < run.len() ==> is_digit(#[trigger] run[i]));
    lemma_dec_val_take_mono(run, k - pos);
    assert(run.take(k - pos) =~= buf.subrange(pos, k));
}

/// A stretch of digits followed by a non-digit (or the end) is exactly the
/// maximal digit run.
proof fn lemma_run_of_digits(buf: Seq<u8>, pos: int, end: int)
    requires
        0 <= pos <= end <= buf.len(),
        forall|i: int| pos <= i < end ==> is_digit(#[trigger] buf[i]),
        end < buf.len() ==> !is_digit(buf[end]),
    ensures
        digit_run_end(buf, pos) == end,
    decreases end - pos,
{
    if pos < end {
        lemma_run_of_digits(buf, pos + 1, end);
    }
}

/// Reading directly after writing: if `buf` carries `dec_of(n)` at `pos`,
/// followed by a non-digit or the end, the read returns exactly `n`.
pub proof fn lemma_read_dec_of(buf: Seq<u8>, pos: int, n: u64)
    requires
        0 <= pos,
        pos + dec_of(n as nat).len() <= buf.len(),
        buf.subrange(pos, pos + dec_of(n as nat).len()) == dec_of(n as nat),
        pos + dec_of(n as nat).len() < buf.len()
            ==> !is_digit(buf[pos + dec_of(n as nat).len()]),
    ensures
        spec_read_u64(buf, pos) == Some((n, pos + dec_of(n as nat).len())),
{
    let l = dec_of(n as nat).len() as int;
    lemma_dec_of(n as nat);
    assert forall|i: int| pos <= i < pos + l implies is_digit(#[trigger] buf[i]) by {
        assert(buf[i] == buf.subrange(pos, pos + l)[i - pos]);
    }
    lemma_run_of_digits(buf, pos, pos + l);
    assert(dec_val(buf.subrange(pos, pos + l)) == n);
}

// ---------------------------------------------------------------------------
// JSON string escaping
// ---------------------------------------------------------------------------

/// How one byte appears inside a JSON string: quote and backslash get a
/// backslash escape, control bytes become `\u00XX`, everything else is
/// written as itself.
pub open spec fn esc_byte(b: u8) -> Seq<u8> {
    if b == 34 {
        seq![92u8, 34u8]
    } else if b == 92 {
        seq![92u8, 92u8]
    } else if b < 32 {
        seq![92u8, 117u8, 48u8, 48u8, hex_digit(b / 16), hex_digit(b % 16)]
    } else {
        seq![b]
    }
}

/// The escaped form of a whole byte string.
pub open spec fn json_esc(s: Seq<u8>) -> Seq<u8>
    decreases s.len(),
{
    if s.len() == 0 {
        Seq::empty()
    } else {
        esc_byte(s.first()) + json_esc(s.drop_first())
    }
}

pub proof fn lemma_json_esc_push(s: Seq<u8>, b: u8)
    ensures
        json_esc(s.push(b)) == json_esc(s) + esc_byte(b),
    decreases s.len(),
{
    if s.len() == 0 {
        assert(s.push(b).first() == b);
        assert(s.push(b).drop_first() =~= Seq::<u8>::empty());
        assert(json_esc(s.push(b)) == esc_byte(b) + json_esc(Seq::<u8>::empty()));
        assert(json_esc(s.push(b)) =~= json_esc(s) + esc_byte(b));
    } else {
        lemma_json_esc_push(s.drop_first(), b);
        assert(s.push(b).first() == s.first());
        assert(s.push(b).drop_first() =~= s.drop_first().push(b));
        assert(json_esc(s.push(b))
            == esc_byte(s.first()) + json_esc(s.drop_first().push(b)));
        assert(json_esc(s.push(b)) =~= json_esc(s) + esc_byte(b));
    }
}

/// Append `s` to `out` in escaped form.
pub fn write_json_str(out: &mut Vec<u8>, s: &[u8])
    ensures
        final(out)@ == old(out)@ + json_esc(s@),
{
    let n: usize = s.len();
    for i in 0..n
        invariant
            n == s@.len(),
            out@ == old(out)@ + json_esc(s@.take(i as int)),
    {
        let b: u8 = s[i];
        if b == 34 {
            out.push(92);
            out.push(34);
        } else if b == 92 {
            out.push(92);
            out.push(92);
        } else if b < 32 {
            out.push(92);
            out.push(117);
            out.push(48);
            out.push(48);
            out.push(if b / 16 < 10 { 48 + b / 16 } else { 87 + b / 16 });
            out.push(if b % 16 < 10 { 48 + b % 16 } else { 87 + b % 16 });
        } else {
            out.push(b);
        }
        proof {
            lemma_json_esc_push(s@.take(i as int), b);
            assert(s@.take(i + 1) == s@.take(i as int).push(s@[i as int]));
        }
    }
    assert(s@.take(n as int) == s@);
}

/// Prepend a byte to the result of a string read.
pub open spec fn cons_read(b: u8, r: Option<(Seq<u8>, int)>) -> Option<(Seq<u8>, int)> {
    match r {
        Some((v, p)) => Some((seq![b] + v, p)),
        None => None,
    }
}

/// What `read_json_str` returns: the unescaped contents of the JSON string
/// that starts at `pos` (just after the opening quote), together with the
/// index just past the closing quote. Only the escapes the writer produces
/// are accepted, and raw control bytes are refused, so a successful read
/// consumes exactly the escaped image of its result.
pub open spec fn spec_read_str(buf: Seq<u8>, pos: int) -> Option<(Seq<u8>, int)>
    decreases buf.len() - pos,
{
    if !(0 <= pos < buf.len()) {
        None
    } else if buf[pos] == 34 {
        Some((Seq::empty(), pos + 1))
    } else if buf[pos] == 92 {
        if pos + 1 < buf.len() && buf[pos + 1] == 34 {
            cons_read(34, spec_read_str(buf, pos + 2))
        } else if pos + 1 < buf.len() && buf[pos + 1] == 92 {
            cons_read(92, spec_read_str(buf, pos + 2))
        } else if pos + 5 < buf.len() && buf[pos + 1] == 117 && buf[pos + 2] == 48
            && buf[pos + 3] == 48 && is_hex_lower(buf[pos + 4]) && is_hex_lower(buf[pos + 5])
            && hex_val(buf[pos + 4]) * 16 + hex_val(buf[pos + 5]) < 32 {
            cons_read(
                (hex_val(buf[pos + 4]) * 16 + hex_val(buf[pos + 5])) as u8,
                spec_read_str(buf, pos + 6),
            )
        } else {
            None
        }
    } else if buf[pos] >= 32 {
        cons_read(buf[pos], spec_read_str(buf, pos + 1))
    } else {
        None
    }
}

/// The accumulator-carrying loop invariant of `read_json_str`: continuing
/// the read from `i` with `acc` already collected yields the read from
/// `pos`.
pub open spec fn read_str_inv(buf: Seq<u8>, pos: int, acc: Seq<u8>, i: int) -> bool {
    match spec_read_str(buf, i) {
        Some((v, p)) => spec_read_str(buf, pos) == Some((acc + v, p)) && i < p <= buf.len(),
        None => spec_read_str(buf, pos) is None,
    }
}

proof fn lemma_read_start(buf: Seq<u8>, pos: int)
    requires
        0 <= pos,
    ensures
        read_str_inv(buf, pos, Seq::empty(), pos),
{
    lemma_spec_read_str_bounds(buf, pos);
    match spec_read_str(buf, pos) {
        Some((v, p)) => {
            assert(Seq::<u8>::empty() + v =~= v);
        },
        None => {},
    }
}

proof fn lemma_read_step(buf: Seq<u8>, pos: int, acc: Seq<u8>, i: int, b: u8, j: int)
    requires
        0 <= i < j,
        read_str_inv(buf, pos, acc, i),
        spec_read_str(buf, i) == cons_read(b, spec_read_str(buf, j)),
    ensures
        read_str_inv(buf, pos, acc.push(b), j),
{
    lemma_spec_read_str_bounds(buf, j);
    match spec_read_str(buf, j) {
        Some((v2, p2)) => {
            assert(acc + (seq![b] + v2) =~= acc.push(b) + v2);
        },
        None => {},
    }
}

/// Read a JSON string body starting at `pos` (just after the opening
/// quote), up to and including the closing quote.
pub fn read_json_str(buf: &[u8], pos: usize) -> (r: Option<(Vec<u8>, usize)>)
    requires
        pos <= buf@.len(),
    ensures
        match r {
            Some((v, p)) => spec_read_str(buf@, pos as int) == Some((v@, p as int))
                && pos < p <= buf@.len(),
            None => spec_read_str(buf@, pos as int) is None,
        },
{
    let mut i: usize = pos;
    let mut acc: Vec<u8> = Vec::new();
    proof {
        lemma_read_start(buf@, pos as int);
        assert(acc@ =~= Seq::<u8>::empty());
    }
    loop
        invariant
            pos <= i <= buf@.len(),
            read_str_inv(buf@, pos as int, acc@, i as int),
        decreases buf@.len() - i,
    {
        if i >= buf.len() {
            return None;
        }
        let b: u8 = buf[i];
        if b == 34 {
            proof {
                assert(spec_read_str(buf@, i as int) == Some((Seq::<u8>::empty(), i + 1)));
                assert(acc@ + Seq::<u8>::empty() =~= acc@);
            }
            return Some((acc, i + 1));
        } else if b == 92 {
            if buf.len() - i > 1 && buf[i + 1] == 34 {
                proof {
                    assert(spec_read_str(buf@, i as int)
                        == cons_read(34, spec_read_str(buf@, i + 2)));
                    lemma_read_step(buf@, pos as int, acc@, i as int, 34, i + 2);
                }
                acc.push(34);
                i = i + 2;
            } else if buf.len() - i > 1 && buf[i + 1] == 92 {
                proof {
                    assert(spec_read_str(buf@, i as int)
                        == cons_read(92, spec_read_str(buf@, i + 2)));
                    lemma_read_step(buf@, pos as int, acc@, i as int, 92, i + 2);
                }
                acc.push(92);
                i = i + 2;
            } else if buf.len() - i > 5 && buf[i + 1] == 117 && buf[i + 2] == 48
                && buf[i + 3] == 48 && is_hex_lower_exec(buf[i + 4])
                && is_hex_lower_exec(buf[i + 5])
                && hex_val_exec(buf[i + 4]) * 16 + hex_val_exec(buf[i + 5]) < 32 {
                let v: u8 = hex_val_exec(buf[i + 4]) * 16 + hex_val_exec(buf[i + 5]);
                proof {
                    assert(spec_read_str(buf@, i as int)
                        == cons_read(v, spec_read_str(buf@, i + 6)));
                    lemma_read_step(buf@, pos as int, acc@, i as int, v, i + 6);
                }
                acc.push(v);
                i = i + 6;
            } else {
                return None;
            }
        } else if b >= 32 {
            proof {
                assert(spec_read_str(buf@, i as int)
                    == cons_read(b, spec_read_str(buf@, i + 1)));
                lemma_read_step(buf@, pos as int, acc@, i as int, b, i + 1);
            }
            acc.push(b);
            i = i + 1;
        } else {
            return None;
        }
    }
}

fn is_hex_lower_exec(b: u8) -> (r: bool)
    ensures
        r == is_hex_lower(b),
{
    (48 <= b && b <= 57) || (97 <= b && b <= 102)
}

fn hex_val_exec(b: u8) -> (r: u8)
    requires
        is_hex_lower(b),
    ensures
        r == hex_val(b) && r < 16,
{
    if b <= 57 {
        b - 48
    } else {
        b - 87
    }
}

/// A successful read always moves forward and stays inside the buffer.
proof fn lemma_spec_read_str_bounds(buf: Seq<u8>, pos: int)
    requires
        0 <= pos,
    ensures
        match spec_read_str(buf, pos) {
            Some((v, p)) => pos < p <= buf.len(),
            None => true,
        },
    decreases buf.len() - pos,
{
    if 0 <= pos < buf.len() {
        if buf[pos] == 92 {
            if pos + 1 < buf.len() && (buf[pos + 1] == 34 || buf[pos + 1] == 92) {
                lemma_spec_read_str_bounds(buf, pos + 2);
            } else if pos + 5 < buf.len() {
                lemma_spec_read_str_bounds(buf, pos + 6);
            }
        } else if buf[pos] != 34 && buf[pos] >= 32 {
            lemma_spec_read_str_bounds(buf, pos + 1);
        }
    }
}

/// Reading directly after writing: a buffer that carries `json_esc(x)`
/// followed by a closing quote at `pos` reads back as exactly `x`.
pub proof fn lemma_read_json_esc(buf: Seq<u8>, pos: int, x: Seq<u8>)
    requires
        0 <= pos,
        pos + json_esc(x).len() + 1 <= buf.len(),
        buf.subrange(pos, pos + json_esc(x).len()) == json_esc(x),
        buf[pos + json_esc(x).len()] == 34,
    ensures
        spec_read_str(buf, pos) == Some((x, pos + json_esc(x).len() + 1)),
    decreases x.len(),
{
    if x.len() == 0 {
        assert(buf[pos] == 34);
    } else {
        let b = x.first();
        let e = esc_byte(b);
        let rest = json_esc(x.drop_first());
        assert(json_esc(x) == e + rest);
        let l = e.len() as int;
        assert forall|i: int| 0 <= i < l implies buf[pos + i] == #[trigger] e[i] by {
            assert(e[i] == (e + rest)[i]);
            assert(buf[pos + i] == buf.subrange(pos, pos + json_esc(x).len())[i]);
        }
        assert(buf.subrange(pos + l, pos + l + rest.len()) =~= rest) by {
            assert forall|i: int| 0 <= i < rest.len()
                implies buf.subrange(pos + l, pos + l + rest.len())[i] == #[trigger] rest[i] by {
                assert(rest[i] == (e + rest)[l + i]);
                assert(buf.subrange(pos + l, pos + l + rest.len())[i] == buf[pos + l + i]);
                assert(buf[pos + l + i]
                    == buf.subrange(pos, pos + json_esc(x).len())[l + i]);
            }
        }
        lemma_read_json_esc(buf, pos + l, x.drop_first());
        assert(seq![b] + x.drop_first() =~= x);
        if b == 34 {
            assert(buf[pos] == e[0] && buf[pos + 1] == e[1]);
            assert(buf[pos] == 92 && buf[pos + 1] == 34);
        } else if b == 92 {
            assert(buf[pos] == e[0] && buf[pos + 1] == e[1]);
            assert(buf[pos] == 92 && buf[pos + 1] == 92);
        } else if b < 32 {
            assert(buf[pos] == e[0] && buf[pos + 1] == e[1] && buf[pos + 2] == e[2]
                && buf[pos + 3] == e[3] && buf[pos + 4] == e[4] && buf[pos + 5] == e[5]);
            assert(buf[pos] == 92 && buf[pos + 1] == 117 && buf[pos + 2] == 48
                && buf[pos + 3] == 48);
            lemma_hex_roundtrip(b / 16);
            lemma_hex_roundtrip(b % 16);
            lemma_fundamental_div_mod(b as int, 16);
            assert(hex_val(buf[pos + 4]) * 16 + hex_val(buf[pos + 5]) == b);
        } else {
            assert(buf[pos] == e[0]);
            assert(buf[pos] == b);
        }
    }
}

} // verus!
