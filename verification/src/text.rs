//! Plain text: lines, tokens and numbers.
//!
//! A description is a sequence of lines that end in a line feed. Within a
//! line, a number sign begins a comment that runs to the end of the line, and
//! tokens are the longest runs of bytes that hold no blank and no number
//! sign. A number is an optional minus sign and one or more decimal digits.

use vstd::prelude::*;

verus! {

/// The byte that ends a line.
pub const LINE_FEED: u8 = 10;

/// The byte that begins a comment.
pub const NUMBER_SIGN: u8 = 35;

/// The byte that makes a number negative.
pub const MINUS_SIGN: u8 = 45;

/// The largest magnitude of a number.
pub const MAX_NUMBER: u64 = 9_223_372_036_854_775_807;

/// Every byte is a character of seven bits, and none is zero.
pub open spec fn is_text(bytes: Seq<u8>) -> bool {
    forall|i: int| 0 <= i < bytes.len() ==> 0 < #[trigger] bytes[i] < 128
}

/// The byte is a space, a tab, a carriage return or a line feed.
pub open spec fn is_blank(b: u8) -> bool {
    b == 32 || b == 9 || b == 13 || b == 10
}

/// The byte is a decimal digit.
pub open spec fn is_digit(b: u8) -> bool {
    48 <= b <= 57
}

/// The contents of a sequence of byte vectors.
pub open spec fn byte_rows(rows: Seq<Vec<u8>>) -> Seq<Seq<u8>> {
    Seq::new(rows.len(), |i: int| rows[i]@)
}

/// The lines of a text: the runs of bytes between its line feeds. A text
/// without a line feed is one line.
pub open spec fn lines_of(text: Seq<u8>) -> Seq<Seq<u8>>
    decreases text.len(),
{
    if text.len() == 0 {
        seq![Seq::empty()]
    } else {
        let before = lines_of(text.drop_last());
        if text.last() == LINE_FEED {
            before.push(Seq::empty())
        } else {
            before.drop_last().push(before.last().push(text.last()))
        }
    }
}

/// What has been read of a line: the tokens that have ended, the token that
/// has begun, and whether a comment has begun.
pub struct Scan {
    pub done: Seq<Seq<u8>>,
    pub current: Seq<u8>,
    pub comment: bool,
}

/// The tokens of a scan, with the one that has begun, if any.
pub open spec fn scanned(s: Scan) -> Seq<Seq<u8>> {
    if s.current.len() > 0 {
        s.done.push(s.current)
    } else {
        s.done
    }
}

/// The scan of a line, byte by byte from the left.
pub open spec fn scan_of(line: Seq<u8>) -> Scan
    decreases line.len(),
{
    if line.len() == 0 {
        Scan { done: Seq::empty(), current: Seq::empty(), comment: false }
    } else {
        let s = scan_of(line.drop_last());
        let b = line.last();
        if s.comment {
            s
        } else if b == NUMBER_SIGN {
            Scan { done: scanned(s), current: Seq::empty(), comment: true }
        } else if is_blank(b) {
            Scan { done: scanned(s), current: Seq::empty(), comment: false }
        } else {
            Scan { done: s.done, current: s.current.push(b), comment: false }
        }
    }
}

/// The tokens of a line, from the left, without its comment.
pub open spec fn tokens_of(line: Seq<u8>) -> Seq<Seq<u8>> {
    scanned(scan_of(line))
}

/// The number that a run of decimal digits denotes.
pub open spec fn digits_value(digits: Seq<u8>) -> int
    decreases digits.len(),
{
    if digits.len() == 0 {
        0
    } else {
        digits_value(digits.drop_last()) * 10 + (digits.last() - 48)
    }
}

/// There is a digit, and there is nothing else.
pub open spec fn all_digits(s: Seq<u8>) -> bool {
    s.len() > 0 && forall|i: int| 0 <= i < s.len() ==> is_digit(#[trigger] s[i])
}

/// The number that a run of digits denotes, if it is one and the number is
/// not too large.
pub open spec fn magnitude(s: Seq<u8>) -> Option<int> {
    if all_digits(s) && digits_value(s) <= MAX_NUMBER {
        Some(digits_value(s))
    } else {
        None
    }
}

/// The number that a token denotes, if it denotes one.
pub open spec fn number_value(token: Seq<u8>) -> Option<i64> {
    if token.len() > 0 && token[0] == MINUS_SIGN {
        match magnitude(token.subrange(1, token.len() as int)) {
            Some(v) => Some((-v) as i64),
            None => None,
        }
    } else {
        match magnitude(token) {
            Some(v) => Some(v as i64),
            None => None,
        }
    }
}

/// The value of a run of digits is not negative, and no less than that of
/// any run that it begins with.
pub proof fn lemma_digits_value_grows(digits: Seq<u8>, k: int)
    requires
        forall|i: int| 0 <= i < digits.len() ==> is_digit(#[trigger] digits[i]),
        0 <= k <= digits.len(),
    ensures
        0 <= digits_value(digits.take(k)) <= digits_value(digits),
    decreases digits.len(),
{
    if k == digits.len() {
        assert(digits.take(k) =~= digits);
        if digits.len() > 0 {
            lemma_digits_value_grows(digits.drop_last(), k - 1);
        }
    } else {
        lemma_digits_value_grows(digits.drop_last(), k);
        assert(digits.drop_last().take(k) =~= digits.take(k));
    }
}

/// Tells whether two byte strings are equal.
pub fn equal_bytes(a: &[u8], b: &[u8]) -> (r: bool)
    ensures
        r == (a@ == b@),
{
    if a.len() != b.len() {
        return false;
    }
    let n: usize = a.len();
    let mut i: usize = 0;
    while i < n
        invariant
            n == a@.len(),
            n == b@.len(),
            i <= n,
            forall|k: int| 0 <= k < i ==> a@[k] == b@[k],
        decreases n - i,
    {
        if a[i] != b[i] {
            return false;
        }
        i += 1;
    }
    assert(a@ =~= b@);
    true
}

/// Tells whether the bytes are plain text.
pub fn check_text(bytes: &[u8]) -> (r: bool)
    ensures
        r == is_text(bytes@),
{
    let n: usize = bytes.len();
    let mut i: usize = 0;
    while i < n
        invariant
            n == bytes@.len(),
            i <= n,
            forall|k: int| 0 <= k < i ==> 0 < #[trigger] bytes@[k] < 128,
        decreases n - i,
    {
        if bytes[i] == 0 || bytes[i] >= 128 {
            return false;
        }
        i += 1;
    }
    true
}

/// Splits a text into its lines.
pub fn split_lines(text: &[u8]) -> (lines: Vec<Vec<u8>>)
    ensures
        byte_rows(lines@) == lines_of(text@),
{
    let n: usize = text.len();
    let mut lines: Vec<Vec<u8>> = Vec::new();
    let mut current: Vec<u8> = Vec::new();
    let mut i: usize = 0;
    assert(text@.take(0) =~= Seq::<u8>::empty());
    assert(byte_rows(lines@).push(current@) =~= seq![Seq::<u8>::empty()]);
    while i < n
        invariant
            n == text@.len(),
            i <= n,
            byte_rows(lines@).push(current@) == lines_of(text@.take(i as int)),
        decreases n - i,
    {
        let b: u8 = text[i];
        let ghost rows = byte_rows(lines@);
        let ghost open = current@;
        proof {
            assert(text@.take(i + 1).drop_last() =~= text@.take(i as int));
            assert(rows.push(open).drop_last() =~= rows);
        }
        if b == LINE_FEED {
            lines.push(current);
            current = Vec::new();
            assert(byte_rows(lines@) =~= rows.push(open));
        } else {
            current.push(b);
        }
        assert(byte_rows(lines@).push(current@) =~= lines_of(text@.take(i + 1)));
        i += 1;
    }
    let ghost rows = byte_rows(lines@);
    let ghost open = current@;
    lines.push(current);
    proof {
        assert(text@.take(n as int) =~= text@);
        assert(byte_rows(lines@) =~= rows.push(open));
    }
    lines
}

/// Splits a line into its tokens.
pub fn split_tokens(line: &[u8]) -> (tokens: Vec<Vec<u8>>)
    ensures
        byte_rows(tokens@) == tokens_of(line@),
{
    let n: usize = line.len();
    let mut tokens: Vec<Vec<u8>> = Vec::new();
    let mut current: Vec<u8> = Vec::new();
    let mut i: usize = 0;
    assert(line@.take(0) =~= Seq::<u8>::empty());
    assert(byte_rows(tokens@) =~= Seq::<Seq<u8>>::empty());
    while i < n
        invariant
            n == line@.len(),
            i <= n,
            !scan_of(line@.take(i as int)).comment,
            byte_rows(tokens@) == scan_of(line@.take(i as int)).done,
            current@ == scan_of(line@.take(i as int)).current,
        decreases n - i,
    {
        let b: u8 = line[i];
        let ghost rows = byte_rows(tokens@);
        let ghost open = current@;
        proof {
            assert(line@.take(i + 1).drop_last() =~= line@.take(i as int));
        }
        if b == NUMBER_SIGN {
            if current.len() > 0 {
                tokens.push(current);
                assert(byte_rows(tokens@) =~= rows.push(open));
            }
            proof {
                assert(line@.take(i + 1).last() == b);
                assert(scan_of(line@.take(i + 1)).comment);
                assert(scan_of(line@.take(i + 1)).done == byte_rows(tokens@));
                lemma_comment_runs_on(line@, i + 1, n as int);
                assert(line@.take(n as int) =~= line@);
            }
            return tokens;
        } else if b == 32 || b == 9 || b == 13 || b == 10 {
            if current.len() > 0 {
                tokens.push(current);
                assert(byte_rows(tokens@) =~= rows.push(open));
            }
            current = Vec::new();
        } else {
            current.push(b);
        }
        i += 1;
    }
    let ghost rows = byte_rows(tokens@);
    let ghost open = current@;
    if current.len() > 0 {
        tokens.push(current);
        assert(byte_rows(tokens@) =~= rows.push(open));
    }
    proof {
        assert(line@.take(n as int) =~= line@);
    }
    tokens
}

/// Once a comment has begun, the scan does not change.
pub proof fn lemma_comment_runs_on(line: Seq<u8>, from: int, to: int)
    requires
        0 <= from <= to <= line.len(),
        scan_of(line.take(from)).comment,
    ensures
        scan_of(line.take(to)) == scan_of(line.take(from)),
    decreases to - from,
{
    if from < to {
        lemma_comment_runs_on(line, from, to - 1);
        assert(line.take(to).drop_last() =~= line.take(to - 1));
    }
}

/// Reads a token as a number.
pub fn parse_number(token: &[u8]) -> (r: Option<i64>)
    ensures
        r == number_value(token@),
{
    let n: usize = token.len();
    if n == 0 {
        return None;
    }
    let negative: bool = token[0] == MINUS_SIGN;
    let start: usize = if negative {
        1
    } else {
        0
    };
    let ghost digits = token@.subrange(start as int, n as int);
    proof {
        if !negative {
            assert(digits =~= token@);
        }
    }
    if start == n {
        return None;
    }
    let mut acc: u64 = 0;
    let mut i: usize = start;
    assert(digits.take(0) =~= Seq::<u8>::empty());
    while i < n
        invariant
            n == token@.len(),
            start <= i <= n,
            start < n,
            negative == (token@[0] == MINUS_SIGN),
            !negative ==> digits == token@,
            start == (if negative {
                1int
            } else {
                0int
            }),
            digits == token@.subrange(start as int, n as int),
            acc == digits_value(digits.take(i - start)),
            acc <= MAX_NUMBER,
            forall|k: int| 0 <= k < i - start ==> is_digit(#[trigger] digits[k]),
        decreases n - i,
    {
        let b: u8 = token[i];
        assert(b == digits[i - start]);
        if b < 48 || b > 57 {
            assert(!is_digit(digits[i - start]));
            return None;
        }
        let d: u64 = (b - 48) as u64;
        proof {
            assert(digits.take(i - start + 1).drop_last() =~= digits.take(i - start));
            assert(digits.take(i - start + 1).last() == b);
            assert(digits_value(digits.take(i - start + 1)) == acc * 10 + d);
        }
        if acc > (MAX_NUMBER - d) / 10 {
            proof {
                if all_digits(digits) {
                    lemma_digits_value_grows(digits, i - start + 1);
                }
            }
            return None;
        }
        acc = acc * 10 + d;
        i += 1;
    }
    proof {
        assert(digits.take(n - start) =~= digits);
    }
    if negative {
        Some(-(acc as i64))
    } else {
        Some(acc as i64)
    }
}

} // verus!
