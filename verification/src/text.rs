//! The lexical layer of the table format: the file is a sequence of lines, each
//! line holds one value (an integer, a real number or a free text).

use vstd::prelude::*;

verus! {

// ---------------------------------------------------------------------------
// Characters and strings
// ---------------------------------------------------------------------------

/// The characters of a string slice, in order.
pub fn str_chars(s: &str) -> (r: Vec<char>)
    ensures
        r@ == s@,
{
    broadcast use vstd::string::axiom_spec_iter;

    let mut v: Vec<char> = Vec::new();
    for c in it: s.chars()
        invariant
            v@ == it.seq().take(it.index()),
    {
        v.push(c);
    }
    assert(v@ =~= s@);
    v
}

/// The string made of the given characters, in order.
#[verifier::external_body]
pub fn string_from_chars(v: &[char]) -> (r: String)
    ensures
        r@ == v@,
{
    v.iter().collect()
}

pub open spec fn is_digit(c: char) -> bool {
    '0' <= c && c <= '9'
}

pub open spec fn digit_value(c: char) -> int {
    (c as int) - ('0' as int)
}

pub open spec fn digit_char(v: int) -> char {
    ((v + ('0' as int)) as u8) as char
}

fn is_digit_exec(c: char) -> (b: bool)
    ensures
        b == is_digit(c),
{
    '0' <= c && c <= '9'
}

fn digit_value_exec(c: char) -> (v: usize)
    requires
        is_digit(c),
    ensures
        v == digit_value(c),
        v < 10,
{
    (c as u32 - '0' as u32) as usize
}

fn digit_char_exec(v: usize) -> (c: char)
    requires
        v < 10,
    ensures
        c == digit_char(v as int),
        is_digit(c),
        digit_value(c) == v,
{
    ((v as u8) + 48u8) as char
}

// ---------------------------------------------------------------------------
// Integers
// ---------------------------------------------------------------------------

/// Why a line does not hold an integer of the requested type.
#[derive(Debug, Clone, Copy, PartialEq, Eq)]
pub enum IntErrorKind {
    /// The line is empty.
    Empty,
    /// The line holds a character that is not a digit where a digit belongs.
    InvalidDigit,
    /// The number is above the largest value of the type.
    PosOverflow,
    /// The number is below the smallest value of the type.
    NegOverflow,
}

/// What goes wrong while reading the digits of a magnitude.
pub enum ScanError {
    InvalidDigit,
    Overflow,
}

/// Reads the digits `d[i..]` from left to right, starting from the magnitude
/// `acc`; the first character that is not a digit, or the first digit that
/// takes the magnitude above `lim`, decides the failure.
pub open spec fn scan_digits(d: Seq<char>, i: int, acc: int, lim: int) -> Result<int, ScanError>
    decreases d.len() - i,
{
    if i < 0 || i >= d.len() {
        Ok(acc)
    } else if !is_digit(d[i]) {
        Err(ScanError::InvalidDigit)
    } else if acc * 10 + digit_value(d[i]) > lim {
        Err(ScanError::Overflow)
    } else {
        scan_digits(d, i + 1, acc * 10 + digit_value(d[i]), lim)
    }
}

/// A decimal integer of an unsigned type: an optional `+`, then digits.
pub open spec fn spec_parse_unsigned(s: Seq<char>, max: int) -> Result<int, IntErrorKind> {
    if s.len() == 0 {
        Err(IntErrorKind::Empty)
    } else if s.len() == 1 && (s[0] == '+' || s[0] == '-') {
        Err(IntErrorKind::InvalidDigit)
    } else {
        let start = if s[0] == '+' { 1int } else { 0int };
        match scan_digits(s, start, 0, max) {
            Ok(v) => Ok(v),
            Err(ScanError::InvalidDigit) => Err(IntErrorKind::InvalidDigit),
            Err(ScanError::Overflow) => Err(IntErrorKind::PosOverflow),
        }
    }
}

/// A decimal integer of a signed type: an optional `+` or `-`, then digits.
pub open spec fn spec_parse_signed(s: Seq<char>, min: int, max: int) -> Result<int, IntErrorKind> {
    if s.len() == 0 {
        Err(IntErrorKind::Empty)
    } else if s.len() == 1 && (s[0] == '+' || s[0] == '-') {
        Err(IntErrorKind::InvalidDigit)
    } else if s[0] == '-' {
        match scan_digits(s, 1, 0, -min) {
            Ok(v) => Ok(-v),
            Err(ScanError::InvalidDigit) => Err(IntErrorKind::InvalidDigit),
            Err(ScanError::Overflow) => Err(IntErrorKind::NegOverflow),
        }
    } else {
        let start = if s[0] == '+' { 1int } else { 0int };
        match scan_digits(s, start, 0, max) {
            Ok(v) => Ok(v),
            Err(ScanError::InvalidDigit) => Err(IntErrorKind::InvalidDigit),
            Err(ScanError::Overflow) => Err(IntErrorKind::PosOverflow),
        }
    }
}

pub open spec fn spec_parse_usize(s: Seq<char>) -> Result<usize, IntErrorKind> {
    match spec_parse_unsigned(s, usize::MAX as int) {
        Ok(v) => Ok(v as usize),
        Err(e) => Err(e),
    }
}

pub open spec fn spec_parse_isize(s: Seq<char>) -> Result<isize, IntErrorKind> {
    match spec_parse_signed(s, isize::MIN as int, isize::MAX as int) {
        Ok(v) => Ok(v as isize),
        Err(e) => Err(e),
    }
}

proof fn lemma_scan_bounds(d: Seq<char>, i: int, acc: int, lim: int)
    requires
        0 <= acc <= lim,
    ensures
        scan_digits(d, i, acc, lim) matches Ok(v) ==> 0 <= v <= lim,
    decreases d.len() - i,
{
    if 0 <= i < d.len() && is_digit(d[i]) && acc * 10 + digit_value(d[i]) <= lim {
        lemma_scan_bounds(d, i + 1, acc * 10 + digit_value(d[i]), lim);
    }
}

/// The magnitude written by the digits of `d[start..]`, at most `lim`.
fn scan_magnitude(d: &Vec<char>, start: usize, lim: usize) -> (r: Result<usize, ScanError>)
    requires
        start <= d@.len(),
    ensures
        match r {
            Ok(v) => scan_digits(d@, start as int, 0, lim as int) == Ok::<int, ScanError>(v as int),
            Err(ScanError::InvalidDigit) => scan_digits(d@, start as int, 0, lim as int)
                is Err && scan_digits(d@, start as int, 0, lim as int)->Err_0 is InvalidDigit,
            Err(ScanError::Overflow) => scan_digits(d@, start as int, 0, lim as int)
                is Err && scan_digits(d@, start as int, 0, lim as int)->Err_0 is Overflow,
        },
{
    let mut acc: usize = 0;
    let mut i: usize = start;
    while i < d.len()
        invariant
            start <= i <= d@.len(),
            acc <= lim,
            scan_digits(d@, start as int, 0, lim as int) == scan_digits(
                d@,
                i as int,
                acc as int,
                lim as int,
            ),
        decreases d@.len() - i,
    {
        let c = d[i];
        if !is_digit_exec(c) {
            return Err(ScanError::InvalidDigit);
        }
        let v = digit_value_exec(c);
        match acc.checked_mul(10) {
            None => {
                return Err(ScanError::Overflow);
            },
            Some(a) => match a.checked_add(v) {
                None => {
                    return Err(ScanError::Overflow);
                },
                Some(b) => {
                    if b > lim {
                        return Err(ScanError::Overflow);
                    }
                    acc = b;
                },
            },
        }
        i = i + 1;
    }
    Ok(acc)
}

/// Reads a line as an unsigned integer.
pub fn parse_usize(s: &Vec<char>) -> (r: Result<usize, IntErrorKind>)
    ensures
        r == spec_parse_usize(s@),
{
    if s.len() == 0 {
        return Err(IntErrorKind::Empty);
    }
    if s.len() == 1 && (s[0] == '+' || s[0] == '-') {
        return Err(IntErrorKind::InvalidDigit);
    }
    let start: usize = if s[0] == '+' { 1 } else { 0 };
    match scan_magnitude(s, start, usize::MAX) {
        Ok(v) => Ok(v),
        Err(ScanError::InvalidDigit) => Err(IntErrorKind::InvalidDigit),
        Err(ScanError::Overflow) => Err(IntErrorKind::PosOverflow),
    }
}

/// Reads a line as a signed integer.
pub fn parse_isize(s: &Vec<char>) -> (r: Result<isize, IntErrorKind>)
    ensures
        r == spec_parse_isize(s@),
{
    if s.len() == 0 {
        return Err(IntErrorKind::Empty);
    }
    if s.len() == 1 && (s[0] == '+' || s[0] == '-') {
        return Err(IntErrorKind::InvalidDigit);
    }
    if s[0] == '-' {
        let lim: usize = (isize::MAX as usize) + 1;
        proof {
            lemma_scan_bounds(s@, 1, 0, lim as int);
        }
        match scan_magnitude(s, 1, lim) {
            Ok(v) => {
                if v == lim {
                    Ok(isize::MIN)
                } else {
                    Ok(-(v as isize))
                }
            },
            Err(ScanError::InvalidDigit) => Err(IntErrorKind::InvalidDigit),
            Err(ScanError::Overflow) => Err(IntErrorKind::NegOverflow),
        }
    } else {
        let start: usize = if s[0] == '+' { 1 } else { 0 };
        let lim: usize = isize::MAX as usize;
        proof {
            lemma_scan_bounds(s@, start as int, 0, lim as int);
        }
        match scan_magnitude(s, start, lim) {
            Ok(v) => Ok(v as isize),
            Err(ScanError::InvalidDigit) => Err(IntErrorKind::InvalidDigit),
            Err(ScanError::Overflow) => Err(IntErrorKind::PosOverflow),
        }
    }
}

/// The decimal digits of `n`, most significant first, without leading zeros.
pub open spec fn decimal(n: nat) -> Seq<char>
    decreases n,
{
    if n < 10 {
        seq![digit_char(n as int)]
    } else {
        decimal(n / 10).push(digit_char((n % 10) as int))
    }
}

/// The decimal form of an integer, with a leading `-` when it is negative.
pub open spec fn signed_decimal(n: int) -> Seq<char> {
    if n < 0 {
        seq!['-'] + decimal((-n) as nat)
    } else {
        decimal(n as nat)
    }
}

/// The decimal digits of `n`.
pub fn format_usize(n: usize) -> (r: Vec<char>)
    ensures
        r@ == decimal(n as nat),
    decreases n,
{
    if n < 10 {
        let mut v: Vec<char> = Vec::new();
        v.push(digit_char_exec(n));
        v
    } else {
        let mut v = format_usize(n / 10);
        v.push(digit_char_exec(n % 10));
        v
    }
}

/// The decimal form of a signed integer.
pub fn format_isize(n: isize) -> (r: Vec<char>)
    ensures
        r@ == signed_decimal(n as int),
{
    if n < 0 {
        let m: usize = if n == isize::MIN {
            (isize::MAX as usize) + 1
        } else {
            (-n) as usize
        };
        let digits = format_usize(m);
        let mut v: Vec<char> = Vec::new();
        v.push('-');
        let mut i: usize = 0;
        while i < digits.len()
            invariant
                i <= digits@.len(),
                v@ == seq!['-'] + digits@.subrange(0, i as int),
            decreases digits@.len() - i,
        {
            v.push(digits[i]);
            proof {
                assert(digits@.subrange(0, i + 1) == digits@.subrange(0, i as int).push(digits@[i as int]));
            }
            i = i + 1;
        }
        proof {
            assert(digits@.subrange(0, digits@.len() as int) == digits@);
        }
        v
    } else {
        format_usize(n as usize)
    }
}

pub proof fn lemma_decimal_digits(n: nat)
    ensures
        decimal(n).len() >= 1,
        forall|i: int| 0 <= i < decimal(n).len() ==> is_digit(#[trigger] decimal(n)[i]),
    decreases n,
{
    if n >= 10 {
        lemma_decimal_digits(n / 10);
        assert forall|i: int| 0 <= i < decimal(n).len() implies is_digit(#[trigger] decimal(n)[i]) by {
            if i < decimal(n / 10).len() {
                assert(decimal(n)[i] == decimal(n / 10)[i]);
            }
        }
    }
}

/// Scanning `s + t` goes through `s` first.
proof fn lemma_scan_concat(s: Seq<char>, t: Seq<char>, i: int, acc: int, lim: int)
    requires
        0 <= i <= s.len(),
    ensures
        scan_digits(s + t, i, acc, lim) == match scan_digits(s, i, acc, lim) {
            Ok(v) => scan_digits(s + t, s.len() as int, v, lim),
            Err(e) => Err(e),
        },
    decreases s.len() - i,
{
    if i < s.len() {
        assert((s + t)[i] == s[i]);
        if is_digit(s[i]) && acc * 10 + digit_value(s[i]) <= lim {
            lemma_scan_concat(s, t, i + 1, acc * 10 + digit_value(s[i]), lim);
        }
    }
}

/// Scanning the decimal digits of `n` gives `n` back.
pub proof fn lemma_scan_decimal(n: nat, lim: int)
    requires
        n <= lim,
    ensures
        scan_digits(decimal(n), 0, 0, lim) == Ok::<int, ScanError>(n as int),
    decreases n,
{
    if n < 10 {
        assert(digit_value(digit_char(n as int)) == n);
        let d = decimal(n);
        assert(scan_digits(d, 1, n as int, lim) == Ok::<int, ScanError>(n as int));
    } else {
        let p = decimal(n / 10);
        let c = digit_char((n % 10) as int);
        lemma_scan_decimal(n / 10, lim);
        assert(decimal(n) == p + seq![c]);
        lemma_scan_concat(p, seq![c], 0, 0, lim);
        assert(digit_value(c) == n % 10);
        assert((p + seq![c])[p.len() as int] == c);
        assert((n / 10) * 10 + n % 10 == n);
        assert(scan_digits(p + seq![c], p.len() as int + 1, n as int, lim) == Ok::<int, ScanError>(n as int));
    }
}

/// Scanning after a leading character skips it.
proof fn lemma_scan_shift(c: char, d: Seq<char>, i: int, acc: int, lim: int)
    requires
        0 <= i <= d.len(),
    ensures
        scan_digits(seq![c] + d, i + 1, acc, lim) == scan_digits(d, i, acc, lim),
    decreases d.len() - i,
{
    if i < d.len() {
        assert((seq![c] + d)[i + 1] == d[i]);
        if is_digit(d[i]) && acc * 10 + digit_value(d[i]) <= lim {
            lemma_scan_shift(c, d, i + 1, acc * 10 + digit_value(d[i]), lim);
        }
    }
}

/// Reading the decimal form of an unsigned integer gives it back.
pub proof fn lemma_parse_format_usize(n: usize)
    ensures
        spec_parse_usize(decimal(n as nat)) == Ok::<usize, IntErrorKind>(n),
{
    lemma_decimal_digits(n as nat);
    let d = decimal(n as nat);
    assert(is_digit(d[0]));
    lemma_scan_decimal(n as nat, usize::MAX as int);
}

/// Reading the decimal form of a signed integer gives it back.
pub proof fn lemma_parse_format_isize(n: isize)
    ensures
        spec_parse_isize(signed_decimal(n as int)) == Ok::<isize, IntErrorKind>(n),
{
    if n < 0 {
        let m: nat = (-(n as int)) as nat;
        let d = decimal(m);
        lemma_decimal_digits(m);
        lemma_scan_decimal(m, -(isize::MIN as int));
        lemma_scan_shift('-', d, 0, 0, -(isize::MIN as int));
        let s = seq!['-'] + d;
        assert(s[0] == '-');
        assert(s.len() >= 2);
    } else {
        lemma_decimal_digits(n as nat);
        let d = decimal(n as nat);
        assert(is_digit(d[0]));
        lemma_scan_decimal(n as nat, isize::MAX as int);
    }
}


// ---------------------------------------------------------------------------
// Real numbers
// ---------------------------------------------------------------------------

/// A letter in lower case; other characters are left as they are.
pub open spec fn lower(c: char) -> char {
    if 'A' <= c && c <= 'Z' {
        ((c as int) + 32) as char
    } else {
        c
    }
}

/// `s[i..]` spells `word` (given in lower case), ignoring case.
pub open spec fn spells(s: Seq<char>, i: int, word: Seq<char>) -> bool {
    &&& s.len() - i == word.len()
    &&& forall|k: int| 0 <= k < word.len() ==> lower(#[trigger] s[i + k]) == word[k]
}

/// The number of digits in a row from position `i` on.
pub open spec fn digit_run(s: Seq<char>, i: int) -> nat
    decreases s.len() - i,
{
    if 0 <= i < s.len() && is_digit(s[i]) {
        1 + digit_run(s, i + 1)
    } else {
        0
    }
}

/// `s[i..]` is empty or an exponent: `e` or `E`, an optional sign, digits.
pub open spec fn is_exponent_tail(s: Seq<char>, i: int) -> bool {
    i == s.len() || (0 <= i < s.len() && lower(s[i]) == 'e' && {
        let j = if i + 1 < s.len() && (s[i + 1] == '+' || s[i + 1] == '-') {
            i + 2
        } else {
            i + 1
        };
        j < s.len() && j + digit_run(s, j) == s.len()
    })
}

/// `s[i..]` is a decimal number: digits with an optional fraction, at least
/// one digit in all, then an optional exponent.
pub open spec fn is_decimal_number(s: Seq<char>, i: int) -> bool {
    let a = digit_run(s, i);
    let k = i + a;
    if k < s.len() && s[k] == '.' {
        let b = digit_run(s, k + 1);
        a + b > 0 && is_exponent_tail(s, k + 1 + b)
    } else {
        a > 0 && is_exponent_tail(s, k)
    }
}

/// The text of a real number as the standard library reads one: an optional
/// sign, then `inf`, `infinity`, `nan` (in any case) or a decimal number.
pub open spec fn is_real_literal(s: Seq<char>) -> bool {
    let i = if s.len() > 0 && (s[0] == '+' || s[0] == '-') {
        1int
    } else {
        0int
    };
    ||| spells(s, i, seq!['i', 'n', 'f'])
    ||| spells(s, i, seq!['i', 'n', 'f', 'i', 'n', 'i', 't', 'y'])
    ||| spells(s, i, seq!['n', 'a', 'n'])
    ||| is_decimal_number(s, i)
}

fn lower_exec(c: char) -> (r: char)
    ensures
        r == lower(c),
{
    if 'A' <= c && c <= 'Z' {
        ((c as u8) + 32u8) as char
    } else {
        c
    }
}

fn spells_exec(s: &Vec<char>, i: usize, word: &[char]) -> (r: bool)
    requires
        i <= s@.len(),
    ensures
        r == spells(s@, i as int, word@),
{
    if s.len() - i != word.len() {
        return false;
    }
    let mut k: usize = 0;
    let slen = s.len();
    while k < word.len()
        invariant
            slen == s@.len(),
            i <= s@.len(),
            s@.len() - i == word@.len(),
            k <= word@.len(),
            forall|q: int| 0 <= q < k ==> lower(#[trigger] s@[i + q]) == word@[q],
        decreases word@.len() - k,
    {
        assert(i + k < s@.len());
        if lower_exec(s[i + k]) != word[k] {
            return false;
        }
        k = k + 1;
    }
    true
}

fn digit_run_exec(s: &Vec<char>, i: usize) -> (r: usize)
    requires
        i <= s@.len(),
    ensures
        r == digit_run(s@, i as int),
        i + r <= s@.len(),
{
    let mut j: usize = i;
    while j < s.len() && is_digit_exec(s[j])
        invariant
            i <= j <= s@.len(),
            digit_run(s@, i as int) == (j - i) + digit_run(s@, j as int),
        decreases s@.len() - j,
    {
        j = j + 1;
    }
    j - i
}

fn is_exponent_tail_exec(s: &Vec<char>, i: usize) -> (r: bool)
    requires
        i <= s@.len(),
    ensures
        r == is_exponent_tail(s@, i as int),
{
    if i == s.len() {
        return true;
    }
    if lower_exec(s[i]) != 'e' {
        return false;
    }
    let j: usize = if i + 1 < s.len() && (s[i + 1] == '+' || s[i + 1] == '-') {
        i + 2
    } else {
        i + 1
    };
    if j >= s.len() {
        return false;
    }
    j + digit_run_exec(s, j) == s.len()
}

/// Whether a line holds a real number.
pub fn is_real_literal_exec(s: &Vec<char>) -> (r: bool)
    ensures
        r == is_real_literal(s@),
{
    let i: usize = if s.len() > 0 && (s[0] == '+' || s[0] == '-') {
        1
    } else {
        0
    };
    if spells_exec(s, i, &['i', 'n', 'f']) {
        return true;
    }
    if spells_exec(s, i, &['i', 'n', 'f', 'i', 'n', 'i', 't', 'y']) {
        return true;
    }
    if spells_exec(s, i, &['n', 'a', 'n']) {
        return true;
    }
    let a = digit_run_exec(s, i);
    let k = i + a;
    if k < s.len() && s[k] == '.' {
        let b = digit_run_exec(s, k + 1);
        a + b > 0 && is_exponent_tail_exec(s, k + 1 + b)
    } else {
        a > 0 && is_exponent_tail_exec(s, k)
    }
}

// ---------------------------------------------------------------------------
// Lines
// ---------------------------------------------------------------------------

/// The first position at or after `i` that holds `c`, or the length.
pub open spec fn find_char(s: Seq<char>, c: char, i: int) -> int
    decreases s.len() - i,
{
    if i < 0 || i >= s.len() {
        s.len() as int
    } else if s[i] == c {
        i
    } else {
        find_char(s, c, i + 1)
    }
}

/// A line without the carriage return that ends it, if any.
pub open spec fn strip_cr(l: Seq<char>) -> Seq<char> {
    if l.len() > 0 && l.last() == '\r' {
        l.drop_last()
    } else {
        l
    }
}

/// The lines of `s[i..]` as the standard library splits a text: at `\n` or
/// `\r\n`, which are not part of the lines; the last line needs no ending.
pub open spec fn split_lines_from(s: Seq<char>, i: int) -> Seq<Seq<char>>
    decreases s.len() - i,
{
    if i < 0 || i >= s.len() {
        seq![]
    } else {
        let k = find_char(s, '\n', i);
        proof {
            lemma_find_char_bounds(s, '\n', i);
        }
        if k >= s.len() {
            seq![s.subrange(i, s.len() as int)]
        } else {
            seq![strip_cr(s.subrange(i, k))] + split_lines_from(s, k + 1)
        }
    }
}

pub open spec fn split_lines(s: Seq<char>) -> Seq<Seq<char>> {
    split_lines_from(s, 0)
}

/// The text made of the given lines, each followed by `\n`.
pub open spec fn join_lines(ls: Seq<Seq<char>>) -> Seq<char>
    decreases ls.len(),
{
    if ls.len() == 0 {
        seq![]
    } else {
        ls[0] + seq!['\n'] + join_lines(ls.drop_first())
    }
}

/// A line that comes back unchanged when a text holding it is split:
/// it holds no `\n` and does not end with `\r`.
pub open spec fn is_line_safe(l: Seq<char>) -> bool {
    &&& forall|i: int| 0 <= i < l.len() ==> #[trigger] l[i] != '\n'
    &&& !(l.len() > 0 && l.last() == '\r')
}

pub proof fn lemma_find_char_bounds(s: Seq<char>, c: char, i: int)
    requires
        0 <= i <= s.len(),
    ensures
        i <= find_char(s, c, i) <= s.len(),
        find_char(s, c, i) < s.len() ==> s[find_char(s, c, i)] == c,
        forall|q: int| i <= q < find_char(s, c, i) ==> #[trigger] s[q] != c,
    decreases s.len() - i,
{
    if i < s.len() && s[i] != c {
        lemma_find_char_bounds(s, c, i + 1);
    }
}

/// Splits a text into its lines.
pub fn split_lines_exec(s: &Vec<char>) -> (r: Vec<Vec<char>>)
    ensures
        r.deep_view() == split_lines(s@),
{
    let mut lines: Vec<Vec<char>> = Vec::new();
    let mut i: usize = 0;
    while i < s.len()
        invariant
            i <= s@.len(),
            lines.deep_view() + split_lines_from(s@, i as int) == split_lines(s@),
        decreases s@.len() - i,
    {
        let mut line: Vec<char> = Vec::new();
        let mut k: usize = i;
        proof {
            lemma_find_char_bounds(s@, '\n', i as int);
        }
        while k < s.len() && s[k] != '\n'
            invariant
                i <= k <= s@.len(),
                find_char(s@, '\n', i as int) == find_char(s@, '\n', k as int),
                line@ == s@.subrange(i as int, k as int),
            decreases s@.len() - k,
        {
            line.push(s[k]);
            proof {
                assert(s@.subrange(i as int, k + 1) == s@.subrange(i as int, k as int).push(s@[k as int]));
            }
            k = k + 1;
        }
        let ghost old_lines = lines.deep_view();
        if k < s.len() {
            if line.len() > 0 && line[line.len() - 1] == '\r' {
                line.pop();
            }
            proof {
                lemma_chars_deep_view(&line);
            }
            lines.push(line);
            proof {
                assert(lines.deep_view() =~= old_lines.push(strip_cr(s@.subrange(i as int, k as int))));
                assert(old_lines.push(strip_cr(s@.subrange(i as int, k as int))) + split_lines_from(s@, k + 1)
                    == old_lines + (seq![strip_cr(s@.subrange(i as int, k as int))] + split_lines_from(s@, k + 1)));
            }
            i = k + 1;
        } else {
            proof {
                lemma_chars_deep_view(&line);
            }
            lines.push(line);
            proof {
                assert(lines.deep_view() =~= old_lines.push(s@.subrange(i as int, s@.len() as int)));
                assert(split_lines_from(s@, s@.len() as int) == Seq::<Seq<char>>::empty());
                assert(old_lines.push(s@.subrange(i as int, s@.len() as int)) + Seq::<Seq<char>>::empty()
                    == old_lines + seq![s@.subrange(i as int, s@.len() as int)]);
            }
            i = s.len();
        }
    }
    proof {
        assert(lines.deep_view() + split_lines_from(s@, i as int) == lines.deep_view());
    }
    lines
}

/// The deep view of a vector of characters is its view.
pub proof fn lemma_chars_deep_view(v: &Vec<char>)
    ensures
        v.deep_view() == v@,
{
    assert(v.deep_view() =~= v@);
}

pub proof fn lemma_join_concat(a: Seq<Seq<char>>, b: Seq<Seq<char>>)
    ensures
        join_lines(a + b) == join_lines(a) + join_lines(b),
    decreases a.len(),
{
    if a.len() == 0 {
        assert(a + b == b);
    } else {
        lemma_join_concat(a.drop_first(), b);
        assert((a + b).drop_first() == a.drop_first() + b);
        assert((a + b)[0] == a[0]);
    }
}

proof fn lemma_split_join_from(pre: Seq<char>, ls: Seq<Seq<char>>)
    requires
        forall|i: int| 0 <= i < ls.len() ==> is_line_safe(#[trigger] ls[i]),
    ensures
        split_lines_from(pre + join_lines(ls), pre.len() as int) == ls,
    decreases ls.len(),
{
    let s = pre + join_lines(ls);
    if ls.len() == 0 {
        assert(s.len() == pre.len());
    } else {
        let l = ls[0];
        let rest = ls.drop_first();
        assert(is_line_safe(l));
        assert(join_lines(ls) == l + seq!['\n'] + join_lines(rest));
        let pre2 = pre + l + seq!['\n'];
        assert(s == pre2 + join_lines(rest));
        let k: int = (pre.len() + l.len()) as int;
        assert forall|q: int| pre.len() <= q < k implies #[trigger] s[q] != '\n' by {
            assert(s[q] == l[q - pre.len()]);
        }
        assert(s[k] == '\n');
        lemma_find_from(s, pre.len() as int, k);
        assert(s.subrange(pre.len() as int, k) == l);
        assert(strip_cr(l) == l);
        assert forall|i: int| 0 <= i < rest.len() implies is_line_safe(#[trigger] rest[i]) by {
            assert(rest[i] == ls[i + 1]);
        }
        lemma_split_join_from(pre2, rest);
        assert(pre2.len() == k + 1);
        assert(seq![l] + rest == ls);
    }
}

proof fn lemma_find_from(s: Seq<char>, i: int, k: int)
    requires
        0 <= i <= k < s.len(),
        s[k] == '\n',
        forall|q: int| i <= q < k ==> #[trigger] s[q] != '\n',
    ensures
        find_char(s, '\n', i) == k,
    decreases k - i,
{
    if i < k {
        lemma_find_from(s, i + 1, k);
    }
}

/// Splitting the text of line-safe lines gives the lines back.
pub proof fn lemma_split_join(ls: Seq<Seq<char>>)
    requires
        forall|i: int| 0 <= i < ls.len() ==> is_line_safe(#[trigger] ls[i]),
    ensures
        split_lines(join_lines(ls)) == ls,
{
    lemma_split_join_from(seq![], ls);
    assert(Seq::<char>::empty() + join_lines(ls) == join_lines(ls));
}

} // verus!
