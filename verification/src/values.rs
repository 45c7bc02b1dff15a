//! Values that stand on a line of their own, and the readers that take them
//! from the lines of a table one after the other.

use vstd::prelude::*;

use crate::error::{backquoted, ReadError, ReadFailure, SpecFailure, SpecReadError};
use crate::table::Float;
use crate::text::{
    decimal, format_isize, format_usize, is_digit, is_line_safe, is_real_literal,
    is_real_literal_exec, lemma_chars_deep_view, lemma_decimal_digits, lemma_parse_format_isize,
    lemma_parse_format_usize, parse_isize, parse_usize, signed_decimal, spec_parse_isize,
    spec_parse_usize, string_from_chars,
};

verus! {

/// The lines of a text, as the readers see them.
pub type Lines = Seq<Seq<char>>;

/// What a reader gives: the value and the position of the next line, or how
/// reading failed.
pub type SR<T> = Result<(T, int), SpecFailure>;

pub open spec fn result_view<T: DeepView>(r: Result<T, ReadError>) -> Result<T::V, SpecReadError> {
    match r {
        Ok(v) => Ok(v.deep_view()),
        Err(e) => Err(e@),
    }
}

pub open spec fn sr_view<T: DeepView>(r: Result<(T, usize), ReadFailure>) -> SR<T::V> {
    match r {
        Ok((v, p)) => Ok((v.deep_view(), p as int)),
        Err(f) => Err(f@),
    }
}

/// A successful read ends at a position within the text.
pub open spec fn ends_within<T>(r: Result<(T, usize), ReadFailure>, n: int) -> bool {
    r matches Ok((_, q)) ==> q <= n
}

/// A value that is written as one line of text.
pub trait LineValue: Sized + DeepView {
    /// The name of the type, as messages give it.
    spec fn label() -> Seq<char>;

    /// What reading a line as a value of this type gives.
    spec fn spec_from_line(l: Seq<char>) -> Result<Self::V, SpecReadError>;

    /// The line that holds a value.
    spec fn spec_to_line(v: Self::V) -> Seq<char>;

    /// Values that come back unchanged when written and read again.
    spec fn writable(v: Self::V) -> bool;

    fn label_exec() -> (r: String)
        ensures
            r@ == Self::label(),
    ;

    fn from_line(l: &Vec<char>) -> (r: Result<Self, ReadError>)
        ensures
            result_view(r) == Self::spec_from_line(l@),
    ;

    fn to_line(&self) -> (r: String)
        ensures
            r@ == Self::spec_to_line(self.deep_view()),
    ;

    proof fn lemma_line_roundtrip(v: Self::V)
        requires
            Self::writable(v),
        ensures
            Self::spec_from_line(Self::spec_to_line(v)) == Ok::<Self::V, SpecReadError>(v),
            is_line_safe(Self::spec_to_line(v)),
    ;
}

proof fn lemma_digits_line_safe(s: Seq<char>)
    requires
        forall|i: int| 0 <= i < s.len() ==> is_digit(#[trigger] s[i]),
    ensures
        is_line_safe(s),
{
    if s.len() > 0 {
        assert(is_digit(s[s.len() - 1]));
    }
}

impl LineValue for usize {
    open spec fn label() -> Seq<char> {
        "usize"@
    }

    open spec fn spec_from_line(l: Seq<char>) -> Result<usize, SpecReadError> {
        match spec_parse_usize(l) {
            Ok(v) => Ok(v),
            Err(k) => Err(SpecReadError::ParseIntError(k)),
        }
    }

    open spec fn spec_to_line(v: usize) -> Seq<char> {
        decimal(v as nat)
    }

    open spec fn writable(v: usize) -> bool {
        true
    }

    fn label_exec() -> (r: String) {
        String::from_str("usize")
    }

    fn from_line(l: &Vec<char>) -> (r: Result<usize, ReadError>) {
        match parse_usize(l) {
            Ok(v) => Ok(v),
            Err(k) => Err(ReadError::ParseIntError(k)),
        }
    }

    fn to_line(&self) -> (r: String) {
        let v = format_usize(*self);
        string_from_chars(v.as_slice())
    }

    proof fn lemma_line_roundtrip(v: usize) {
        lemma_parse_format_usize(v);
        lemma_decimal_digits(v as nat);
        lemma_digits_line_safe(decimal(v as nat));
    }
}

impl LineValue for isize {
    open spec fn label() -> Seq<char> {
        "isize"@
    }

    open spec fn spec_from_line(l: Seq<char>) -> Result<isize, SpecReadError> {
        match spec_parse_isize(l) {
            Ok(v) => Ok(v),
            Err(k) => Err(SpecReadError::ParseIntError(k)),
        }
    }

    open spec fn spec_to_line(v: isize) -> Seq<char> {
        signed_decimal(v as int)
    }

    open spec fn writable(v: isize) -> bool {
        true
    }

    fn label_exec() -> (r: String) {
        String::from_str("isize")
    }

    fn from_line(l: &Vec<char>) -> (r: Result<isize, ReadError>) {
        match parse_isize(l) {
            Ok(v) => Ok(v),
            Err(k) => Err(ReadError::ParseIntError(k)),
        }
    }

    fn to_line(&self) -> (r: String) {
        let v = format_isize(*self);
        string_from_chars(v.as_slice())
    }

    proof fn lemma_line_roundtrip(v: isize) {
        lemma_parse_format_isize(v);
        if v < 0 {
            let d = decimal((-(v as int)) as nat);
            lemma_decimal_digits((-(v as int)) as nat);
            let s = seq!['-'] + d;
            assert(s.last() == d.last());
            assert forall|i: int| 0 <= i < s.len() implies #[trigger] s[i] != '\n' by {
                if i > 0 {
                    assert(s[i] == d[i - 1]);
                }
            }
        } else {
            lemma_decimal_digits(v as nat);
            lemma_digits_line_safe(decimal(v as nat));
        }
    }
}

impl LineValue for String {
    open spec fn label() -> Seq<char> {
        "alloc::string::String"@
    }

    open spec fn spec_from_line(l: Seq<char>) -> Result<Seq<char>, SpecReadError> {
        Ok(l)
    }

    open spec fn spec_to_line(v: Seq<char>) -> Seq<char> {
        v
    }

    open spec fn writable(v: Seq<char>) -> bool {
        is_line_safe(v)
    }

    fn label_exec() -> (r: String) {
        String::from_str("alloc::string::String")
    }

    fn from_line(l: &Vec<char>) -> (r: Result<String, ReadError>) {
        Ok(string_from_chars(l.as_slice()))
    }

    fn to_line(&self) -> (r: String) {
        self.clone()
    }

    proof fn lemma_line_roundtrip(v: Seq<char>) {
    }
}

impl LineValue for Float {
    open spec fn label() -> Seq<char> {
        "f64"@
    }

    open spec fn spec_from_line(l: Seq<char>) -> Result<Seq<char>, SpecReadError> {
        if is_real_literal(l) {
            Ok(l)
        } else {
            Err(SpecReadError::ParseFloatError)
        }
    }

    open spec fn spec_to_line(v: Seq<char>) -> Seq<char> {
        v
    }

    open spec fn writable(v: Seq<char>) -> bool {
        is_real_literal(v) && is_line_safe(v)
    }

    fn label_exec() -> (r: String) {
        String::from_str("f64")
    }

    fn from_line(l: &Vec<char>) -> (r: Result<Float, ReadError>) {
        if is_real_literal_exec(l) {
            Ok(Float { text: string_from_chars(l.as_slice()) })
        } else {
            Err(ReadError::ParseFloatError)
        }
    }

    fn to_line(&self) -> (r: String) {
        self.text.clone()
    }

    proof fn lemma_line_roundtrip(v: Seq<char>) {
    }
}

// ---------------------------------------------------------------------------
// Readers
// ---------------------------------------------------------------------------

pub open spec fn eof_failure(what: Seq<char>) -> SpecFailure {
    SpecFailure::Error(SpecReadError::UnexpectedEOFError(what))
}

/// One value from the line at `p`.
pub open spec fn sp_take<T: LineValue>(ls: Lines, p: int) -> SR<T::V> {
    if p < 0 || p >= ls.len() {
        Err(eof_failure(backquoted(T::label())))
    } else {
        match T::spec_from_line(ls[p]) {
            Ok(v) => Ok((v, p + 1)),
            Err(e) => Err(SpecFailure::Error(e)),
        }
    }
}

/// The values of the (at most `n`) lines from `p` on that the text still
/// holds, or the first of them that does not hold a value.
pub open spec fn sp_items<T: LineValue>(ls: Lines, p: int, n: nat) -> Result<Seq<T::V>, SpecReadError>
    decreases n,
{
    if n == 0 || p < 0 || p >= ls.len() {
        Ok(seq![])
    } else {
        match T::spec_from_line(ls[p]) {
            Err(e) => Err(e),
            Ok(v) => match sp_items::<T>(ls, p + 1, (n - 1) as nat) {
                Ok(vs) => Ok(seq![v] + vs),
                Err(e) => Err(e),
            },
        }
    }
}

pub open spec fn times_message(n: nat, label: Seq<char>, found: nat) -> Seq<char> {
    backquoted(decimal(n)) + " times "@ + backquoted(label) + ", found "@ + backquoted(decimal(found))
}

/// `n` values from the lines from `p` on; a text that ends before gives an
/// error that says how many it held.
pub open spec fn sp_take_multiple<T: LineValue>(ls: Lines, p: int, n: nat) -> SR<Seq<T::V>> {
    match sp_items::<T>(ls, p, n) {
        Err(e) => Err(SpecFailure::Error(e)),
        Ok(vs) => if vs.len() == n {
            Ok((vs, p + n))
        } else {
            Err(eof_failure(times_message(n, T::label(), vs.len())))
        },
    }
}

/// A count, then that many values; a line that does not hold the count
/// stops the reading.
pub open spec fn sp_take_counted<T: LineValue>(ls: Lines, p: int) -> SR<Seq<T::V>> {
    match sp_take::<usize>(ls, p) {
        Ok((n, q)) => sp_take_multiple::<T>(ls, q, n as nat),
        Err(_) => Err(SpecFailure::Abort),
    }
}

/// `n` lists, each a count and that many values.
pub open spec fn sp_nested<T: LineValue>(ls: Lines, p: int, n: nat) -> SR<Seq<Seq<T::V>>>
    decreases n,
{
    if n == 0 {
        Ok((seq![], p))
    } else {
        match sp_take::<usize>(ls, p) {
            Err(e) => Err(e),
            Ok((m, q)) => match sp_take_multiple::<T>(ls, q, m as nat) {
                Err(e) => Err(e),
                Ok((row, q2)) => match sp_nested::<T>(ls, q2, (n - 1) as nat) {
                    Err(e) => Err(e),
                    Ok((rows, q3)) => Ok((seq![row] + rows, q3)),
                },
            },
        }
    }
}

/// A count of lists, then the lists; a line that does not hold the count
/// stops the reading.
pub open spec fn sp_nested_counted<T: LineValue>(ls: Lines, p: int) -> SR<Seq<Seq<T::V>>> {
    match sp_take::<usize>(ls, p) {
        Ok((n, q)) => sp_nested::<T>(ls, q, n as nat),
        Err(_) => Err(SpecFailure::Abort),
    }
}

/// `n` values, one line each, read one after the other.
pub open spec fn sp_takes<T: LineValue>(ls: Lines, p: int, n: nat) -> SR<Seq<T::V>>
    decreases n,
{
    if n == 0 {
        Ok((seq![], p))
    } else {
        match sp_take::<T>(ls, p) {
            Err(e) => Err(e),
            Ok((v, q)) => match sp_takes::<T>(ls, q, (n - 1) as nat) {
                Err(e) => Err(e),
                Ok((vs, q2)) => Ok((seq![v] + vs, q2)),
            },
        }
    }
}

/// `rows` rows of `cols` values; any failure stops the reading.
pub open spec fn sp_matrix_strict<T: LineValue>(ls: Lines, p: int, rows: nat, cols: nat) -> SR<
    Seq<Seq<T::V>>,
>
    decreases rows,
{
    if rows == 0 {
        Ok((seq![], p))
    } else {
        match sp_takes::<T>(ls, p, cols) {
            Err(_) => Err(SpecFailure::Abort),
            Ok((row, q)) => match sp_matrix_strict::<T>(ls, q, (rows - 1) as nat, cols) {
                Err(e) => Err(e),
                Ok((rest, q2)) => Ok((seq![row] + rest, q2)),
            },
        }
    }
}

proof fn lemma_items_len<T: LineValue>(ls: Lines, p: int, n: nat)
    requires
        0 <= p,
    ensures
        sp_items::<T>(ls, p, n) matches Ok(vs) ==> vs.len() <= n && (vs.len() == n || p + vs.len()
            == ls.len()) && p + vs.len() <= ls.len() || (vs.len() == 0 && p >= ls.len()),
    decreases n,
{
    if n > 0 && p < ls.len() {
        lemma_items_len::<T>(ls, p + 1, (n - 1) as nat);
    }
}

/// Reads one value.
pub fn take<T: LineValue>(ls: &Vec<Vec<char>>, p: usize) -> (r: Result<(T, usize), ReadFailure>)
    ensures
        sr_view(r) == sp_take::<T>(ls.deep_view(), p as int),
        ends_within(r, ls@.len() as int),
        r matches Ok((_, q)) ==> q == p + 1,
{
    if p >= ls.len() {
        let mut msg = String::from_str("`");
        let label = T::label_exec();
        msg.append(label.as_str());
        msg.append("`");
        proof {
            reveal_strlit("`");
            assert(msg@ =~= backquoted(T::label()));
        }
        return Err(ReadFailure::Error(ReadError::UnexpectedEOFError(msg)));
    }
    proof {
        lemma_chars_deep_view(&ls@[p as int]);
    }
    match T::from_line(&ls[p]) {
        Ok(v) => Ok((v, p + 1)),
        Err(e) => Err(ReadFailure::Error(e)),
    }
}

pub open spec fn prepend_items<V>(a: Seq<V>, r: Result<Seq<V>, SpecReadError>) -> Result<
    Seq<V>,
    SpecReadError,
> {
    match r {
        Ok(vs) => Ok(a + vs),
        Err(e) => Err(e),
    }
}

/// The message of a list that the text holds only in part.
fn times_message_exec(n: usize, label: String, found: usize) -> (r: String)
    ensures
        r@ == times_message(n as nat, label@, found as nat),
{
    let mut r = String::from_str("`");
    let a = format_usize(n);
    let a = string_from_chars(a.as_slice());
    r.append(a.as_str());
    r.append("` times `");
    r.append(label.as_str());
    r.append("`, found `");
    let b = format_usize(found);
    let b = string_from_chars(b.as_slice());
    r.append(b.as_str());
    r.append("`");
    proof {
        reveal_strlit("`");
        reveal_strlit("` times `");
        reveal_strlit(" times ");
        reveal_strlit("`, found `");
        reveal_strlit(", found ");
        assert(r@ =~= times_message(n as nat, label@, found as nat));
    }
    r
}

/// Reads `n` values.
pub fn take_multiple<T: LineValue>(ls: &Vec<Vec<char>>, p: usize, n: usize) -> (r: Result<
    (Vec<T>, usize),
    ReadFailure,
>)
    requires
        p <= ls@.len(),
    ensures
        sr_view(r) == sp_take_multiple::<T>(ls.deep_view(), p as int, n as nat),
        ends_within(r, ls@.len() as int),
{
    let ghost l = ls.deep_view();
    let mut vals: Vec<T> = Vec::new();
    let mut i: usize = 0;
    let len = ls.len();
    while i < n && p + i < len
        invariant
            len == ls@.len(),
            l == ls.deep_view(),
            p <= ls@.len(),
            i <= n,
            p + i <= ls@.len(),
            vals@.len() == i,
            sp_items::<T>(l, p as int, n as nat) == prepend_items(
                vals.deep_view(),
                sp_items::<T>(l, p + i, (n - i) as nat),
            ),
        decreases n - i,
    {
        proof {
            lemma_chars_deep_view(&ls@[(p + i) as int]);
        }
        match T::from_line(&ls[p + i]) {
            Ok(v) => {
                let ghost old_vals = vals.deep_view();
                vals.push(v);
                proof {
                    assert(vals.deep_view() =~= old_vals + seq![v.deep_view()]);
                    assert(old_vals + (seq![v.deep_view()] + sp_items::<T>(l, p + i + 1, (n - i - 1) as nat)->Ok_0)
                        == old_vals + seq![v.deep_view()] + sp_items::<T>(l, p + i + 1, (n - i - 1) as nat)->Ok_0);
                }
                i = i + 1;
            },
            Err(e) => {
                return Err(ReadFailure::Error(e));
            },
        }
    }
    proof {
        assert(sp_items::<T>(l, p + i, (n - i) as nat) == Ok::<Seq<T::V>, SpecReadError>(seq![]));
        assert(vals.deep_view() + Seq::<T::V>::empty() == vals.deep_view());
    }
    if i == n {
        Ok((vals, p + n))
    } else {
        let label = T::label_exec();
        Err(ReadFailure::Error(ReadError::UnexpectedEOFError(times_message_exec(n, label, i))))
    }
}

/// Reads a count, then that many values.
pub fn take_counted<T: LineValue>(ls: &Vec<Vec<char>>, p: usize) -> (r: Result<
    (Vec<T>, usize),
    ReadFailure,
>)
    requires
        p <= ls@.len(),
    ensures
        sr_view(r) == sp_take_counted::<T>(ls.deep_view(), p as int),
        ends_within(r, ls@.len() as int),
{
    match take::<usize>(ls, p) {
        Ok((n, q)) => take_multiple::<T>(ls, q, n),
        Err(_) => Err(ReadFailure::Abort),
    }
}

pub open spec fn prepend_sr<V>(a: Seq<V>, r: SR<Seq<V>>) -> SR<Seq<V>> {
    match r {
        Ok((vs, q)) => Ok((a + vs, q)),
        Err(e) => Err(e),
    }
}

/// Reads `n` lists, each a count and that many values.
pub fn take_nested_vec<T: LineValue>(ls: &Vec<Vec<char>>, p: usize, n: usize) -> (r: Result<
    (Vec<Vec<T>>, usize),
    ReadFailure,
>)
    requires
        p <= ls@.len(),
    ensures
        sr_view(r) == sp_nested::<T>(ls.deep_view(), p as int, n as nat),
        ends_within(r, ls@.len() as int),
{
    let ghost l = ls.deep_view();
    let mut rows: Vec<Vec<T>> = Vec::new();
    let mut q: usize = p;
    let mut i: usize = 0;
    while i < n
        invariant
            l == ls.deep_view(),
            q <= ls@.len(),
            i <= n,
            sp_nested::<T>(l, p as int, n as nat) == prepend_sr(
                rows.deep_view(),
                sp_nested::<T>(l, q as int, (n - i) as nat),
            ),
        decreases n - i,
    {
        let (m, q1) = match take::<usize>(ls, q) {
            Ok(x) => x,
            Err(e) => {
                return Err(e);
            },
        };
        let (row, q2) = match take_multiple::<T>(ls, q1, m) {
            Ok(x) => x,
            Err(e) => {
                return Err(e);
            },
        };
        let ghost old_rows = rows.deep_view();
        let ghost rv = row.deep_view();
        rows.push(row);
        proof {
            assert(rows.deep_view() =~= old_rows + seq![rv]);
            let rest = sp_nested::<T>(l, q2 as int, (n - i - 1) as nat);
            if rest is Ok {
                assert(old_rows + (seq![rv] + rest->Ok_0.0) == old_rows + seq![rv] + rest->Ok_0.0);
            }
        }
        q = q2;
        i = i + 1;
    }
    proof {
        assert(rows.deep_view() + Seq::<Seq<T::V>>::empty() == rows.deep_view());
    }
    Ok((rows, q))
}

/// Reads a count of lists, then the lists.
pub fn take_nested_counted<T: LineValue>(ls: &Vec<Vec<char>>, p: usize) -> (r: Result<
    (Vec<Vec<T>>, usize),
    ReadFailure,
>)
    requires
        p <= ls@.len(),
    ensures
        sr_view(r) == sp_nested_counted::<T>(ls.deep_view(), p as int),
        ends_within(r, ls@.len() as int),
{
    match take::<usize>(ls, p) {
        Ok((n, q)) => take_nested_vec::<T>(ls, q, n),
        Err(_) => Err(ReadFailure::Abort),
    }
}

/// Reads `n` values one after the other.
pub fn takes<T: LineValue>(ls: &Vec<Vec<char>>, p: usize, n: usize) -> (r: Result<
    (Vec<T>, usize),
    ReadFailure,
>)
    requires
        p <= ls@.len(),
    ensures
        sr_view(r) == sp_takes::<T>(ls.deep_view(), p as int, n as nat),
        ends_within(r, ls@.len() as int),
{
    let ghost l = ls.deep_view();
    let mut vals: Vec<T> = Vec::new();
    let mut q: usize = p;
    let mut i: usize = 0;
    while i < n
        invariant
            l == ls.deep_view(),
            q <= ls@.len(),
            i <= n,
            sp_takes::<T>(l, p as int, n as nat) == prepend_sr(
                vals.deep_view(),
                sp_takes::<T>(l, q as int, (n - i) as nat),
            ),
        decreases n - i,
    {
        let (v, q1) = match take::<T>(ls, q) {
            Ok(x) => x,
            Err(e) => {
                return Err(e);
            },
        };
        let ghost old_vals = vals.deep_view();
        let ghost vv = v.deep_view();
        vals.push(v);
        proof {
            assert(vals.deep_view() =~= old_vals + seq![vv]);
            let rest = sp_takes::<T>(l, q1 as int, (n - i - 1) as nat);
            if rest is Ok {
                assert(old_vals + (seq![vv] + rest->Ok_0.0) == old_vals + seq![vv] + rest->Ok_0.0);
            }
        }
        q = q1;
        i = i + 1;
    }
    proof {
        assert(vals.deep_view() + Seq::<T::V>::empty() == vals.deep_view());
    }
    Ok((vals, q))
}

/// Reads `rows` rows of `cols` values; any failure stops the reading.
pub fn take_matrix_strict<T: LineValue>(
    ls: &Vec<Vec<char>>,
    p: usize,
    rows: usize,
    cols: usize,
) -> (r: Result<(Vec<Vec<T>>, usize), ReadFailure>)
    requires
        p <= ls@.len(),
    ensures
        sr_view(r) == sp_matrix_strict::<T>(ls.deep_view(), p as int, rows as nat, cols as nat),
        ends_within(r, ls@.len() as int),
{
    let ghost l = ls.deep_view();
    let mut out: Vec<Vec<T>> = Vec::new();
    let mut q: usize = p;
    let mut i: usize = 0;
    while i < rows
        invariant
            l == ls.deep_view(),
            q <= ls@.len(),
            i <= rows,
            sp_matrix_strict::<T>(l, p as int, rows as nat, cols as nat) == prepend_sr(
                out.deep_view(),
                sp_matrix_strict::<T>(l, q as int, (rows - i) as nat, cols as nat),
            ),
        decreases rows - i,
    {
        let (row, q1) = match takes::<T>(ls, q, cols) {
            Ok(x) => x,
            Err(_) => {
                return Err(ReadFailure::Abort);
            },
        };
        let ghost old_out = out.deep_view();
        let ghost rv = row.deep_view();
        out.push(row);
        proof {
            assert(out.deep_view() =~= old_out + seq![rv]);
            let rest = sp_matrix_strict::<T>(l, q1 as int, (rows - i - 1) as nat, cols as nat);
            if rest is Ok {
                assert(old_out + (seq![rv] + rest->Ok_0.0) == old_out + seq![rv] + rest->Ok_0.0);
            }
        }
        q = q1;
        i = i + 1;
    }
    proof {
        assert(out.deep_view() + Seq::<Seq<T::V>>::empty() == out.deep_view());
    }
    Ok((out, q))
}

} // verus!
