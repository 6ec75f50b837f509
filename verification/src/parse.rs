//! The per-kind text parsing the delimited-text reader leans on: integer
//! and boolean parsing, the number-shape test used by schema inference,
//! the inference ladder itself, and the parse of a whole text column into
//! a typed one.

use vstd::prelude::*;
use crate::dtype::{DataType, dtype_eq};
use crate::error::{AxionError, AxionResult};
use crate::scalar::{Scalar, ScalarV};
use crate::series::{Series, SeriesFlags, SeriesV, cell_ok};

verus! {

/// Whether a character is a decimal digit.
pub open spec fn is_digit(c: char) -> bool {
    '0' <= c && c <= '9'
}

/// The value of one decimal digit.
pub open spec fn digit_val(c: char) -> int {
    c as int - '0' as int
}

/// The value of the first `t` characters read as decimal digits.
pub open spec fn digits_val(s: Seq<char>, t: int) -> int
    decreases t,
{
    if t <= 0 {
        0
    } else {
        digits_val(s, t - 1) * 10 + digit_val(s[t - 1])
    }
}

/// Whether the characters from `from` to `to` are all digits.
pub open spec fn all_digits(s: Seq<char>, from: int, to: int) -> bool {
    forall|i: int| from <= i < to ==> is_digit(#[trigger] s[i])
}

/// A digit run's value is never negative.
proof fn lemma_digits_val_nonneg(s: Seq<char>, t: int)
    requires
        all_digits(s, 0, t),
    ensures
        digits_val(s, t) >= 0,
    decreases t,
{
    if t > 0 {
        lemma_digits_val_nonneg(s, t - 1);
    }
}

/// A digit run's value never shrinks as it grows.
proof fn lemma_digits_val_grows(s: Seq<char>, t1: int, t2: int)
    requires
        0 <= t1 <= t2,
        all_digits(s, 0, t2),
    ensures
        digits_val(s, t1) <= digits_val(s, t2),
    decreases t2,
{
    if t2 > t1 {
        lemma_digits_val_grows(s, t1, t2 - 1);
        lemma_digits_val_nonneg(s, t2 - 1);
    }
}

/// The integer a text denotes: an optional sign, then at least one
/// digit, the value in the signed 64-bit range; anything else denotes
/// nothing.
pub open spec fn parse_i64_spec(s: Seq<char>) -> Option<i64> {
    let start: int = if s.len() > 0 && (s[0] == '-' || s[0] == '+') {
        1
    } else {
        0
    };
    let neg = s.len() > 0 && s[0] == '-';
    let d = s.subrange(start, s.len() as int);
    if d.len() == 0 || !all_digits(d, 0, d.len() as int) {
        None
    } else {
        let mag = digits_val(d, d.len() as int);
        if neg {
            if -mag >= i64::MIN {
                Some((-mag) as i64)
            } else {
                None
            }
        } else {
            if mag <= i64::MAX {
                Some(mag as i64)
            } else {
                None
            }
        }
    }
}

/// Parses a text as a signed 64-bit integer.
pub fn try_parse_i64(s: &str) -> (r: Option<i64>)
    ensures
        r == parse_i64_spec(s@),
{
    let len = s.unicode_len();
    if len == 0 {
        return None;
    }
    let first = s.get_char(0);
    let neg = first == '-';
    let start: usize = if first == '-' || first == '+' {
        1
    } else {
        0
    };
    let ghost d = s@.subrange(start as int, s@.len() as int);
    if len == start {
        proof {
            assert(d.len() == 0);
        }
        return None;
    }
    let mut acc: i128 = 0;
    let mut i: usize = start;
    while i < len
        invariant
            start <= i <= len,
            len == s@.len(),
            start == 0 || start == 1,
            start == 1 ==> (s@[0] == '-' || s@[0] == '+'),
            start == 0 ==> !(s@[0] == '-' || s@[0] == '+'),
            neg == (s@[0] == '-'),
            len > start,
            d == s@.subrange(start as int, s@.len() as int),
            all_digits(d, 0, i - start),
            acc as int == digits_val(d, i - start),
            0 <= acc <= 0x8000_0000_0000_0000,
        decreases len - i,
    {
        let c = s.get_char(i);
        if !(c >= '0' && c <= '9') {
            proof {
                assert(d[i - start] == s@[i as int]);
                assert(!is_digit(d[i - start]));
                assert(!all_digits(d, 0, d.len() as int)) by {
                    if all_digits(d, 0, d.len() as int) {
                        assert(is_digit(d[i - start]));
                    }
                }
                let sp_start: int = if s@.len() > 0 && (s@[0] == '-' || s@[0] == '+') {
                    1
                } else {
                    0
                };
                assert(sp_start == start as int);
                assert(s@.subrange(sp_start, s@.len() as int) == d);
                assert(parse_i64_spec(s@) is None);
            }
            return None;
        }
        proof {
            assert(d[i - start] == s@[i as int]);
        }
        let digit: i128 = (c as u32) as i128 - 48;
        let next = acc * 10 + digit;
        if next > 0x8000_0000_0000_0000i128 {
            // the magnitude already exceeds the 64-bit range and digits
            // only grow it; the remaining text decides nothing
            proof {
                assert(digits_val(d, i + 1 - start) == next as int);
                let sp_start: int = if s@.len() > 0 && (s@[0] == '-' || s@[0] == '+') {
                    1
                } else {
                    0
                };
                assert(sp_start == start as int);
                assert(s@.subrange(sp_start, s@.len() as int) == d);
                if all_digits(d, 0, d.len() as int) {
                    lemma_digits_val_grows(d, i + 1 - start, d.len() as int);
                    assert(digits_val(d, d.len() as int) > 0x8000_0000_0000_0000);
                    assert(parse_i64_spec(s@) is None);
                } else {
                    assert(parse_i64_spec(s@) is None);
                }
            }
            return None;
        }
        acc = next;
        i = i + 1;
    }
    proof {
        assert(i - start == d.len());
        assert(all_digits(d, 0, d.len() as int));
        assert(acc as int == digits_val(d, d.len() as int));
    }
    if neg {
        Some((-acc) as i64)
    } else {
        if acc > 0x7FFF_FFFF_FFFF_FFFFi128 {
            return None;
        }
        Some(acc as i64)
    }
}

/// Case-blind equality of a text against a lowercase ASCII word.
pub open spec fn seq_ci_eq(s: Seq<char>, w: Seq<char>) -> bool {
    s.len() == w.len() && (forall|i: int|
        0 <= i < s.len() ==> ((#[trigger] s[i]) == w[i] || s[i] as int == w[i] as int - 32))
}

/// Case-blind comparison of a text against a lowercase ASCII word.
pub fn str_ci_eq(s: &str, w: &str) -> (r: bool)
    ensures
        r == seq_ci_eq(s@, w@),
{
    let sl = s.unicode_len();
    let wl = w.unicode_len();
    if sl != wl {
        return false;
    }
    let mut i: usize = 0;
    while i < sl
        invariant
            0 <= i <= sl,
            sl == s@.len(),
            sl == w@.len(),
            forall|j: int|
                0 <= j < i ==> ((#[trigger] s@[j]) == w@[j] || s@[j] as int == w@[j] as int - 32),
        decreases sl - i,
    {
        let a = s.get_char(i) as u32;
        let b = w.get_char(i) as u32;
        let same = a == b || (b >= 32 && a == b - 32);
        if !same {
            return false;
        }
        i = i + 1;
    }
    true
}

/// The boolean a text denotes, blind to ASCII case: the words for truth
/// are `true`, `t`, `yes`, `y` and `1`; for falsehood `false`, `f`,
/// `no`, `n` and `0`; anything else denotes nothing.
pub open spec fn parse_bool_spec(s: Seq<char>) -> Option<bool> {
    if seq_ci_eq(s, seq!['t', 'r', 'u', 'e']) || seq_ci_eq(s, seq!['t']) || seq_ci_eq(
        s,
        seq!['y', 'e', 's'],
    ) || seq_ci_eq(s, seq!['y']) || seq_ci_eq(s, seq!['1']) {
        Some(true)
    } else if seq_ci_eq(s, seq!['f', 'a', 'l', 's', 'e']) || seq_ci_eq(s, seq!['f']) || seq_ci_eq(
        s,
        seq!['n', 'o'],
    ) || seq_ci_eq(s, seq!['n']) || seq_ci_eq(s, seq!['0']) {
        Some(false)
    } else {
        None
    }
}

/// Parses a text as a boolean.
pub fn try_parse_bool(s: &str) -> (r: Option<bool>)
    ensures
        r == parse_bool_spec(s@),
{
    proof {
        reveal_strlit("true");
        reveal_strlit("t");
        reveal_strlit("yes");
        reveal_strlit("y");
        reveal_strlit("1");
        reveal_strlit("false");
        reveal_strlit("f");
        reveal_strlit("no");
        reveal_strlit("n");
        reveal_strlit("0");
        assert("true"@ =~= seq!['t', 'r', 'u', 'e']);
        assert("t"@ =~= seq!['t']);
        assert("yes"@ =~= seq!['y', 'e', 's']);
        assert("y"@ =~= seq!['y']);
        assert("1"@ =~= seq!['1']);
        assert("false"@ =~= seq!['f', 'a', 'l', 's', 'e']);
        assert("f"@ =~= seq!['f']);
        assert("no"@ =~= seq!['n', 'o']);
        assert("n"@ =~= seq!['n']);
        assert("0"@ =~= seq!['0']);
    }
    if str_ci_eq(s, "true") || str_ci_eq(s, "t") || str_ci_eq(s, "yes") || str_ci_eq(s, "y")
        || str_ci_eq(s, "1") {
        Some(true)
    } else if str_ci_eq(s, "false") || str_ci_eq(s, "f") || str_ci_eq(s, "no") || str_ci_eq(s, "n")
        || str_ci_eq(s, "0") {
        Some(false)
    } else {
        None
    }
}

/// The first position at or after `from` that is not a digit.
pub open spec fn digits_end(s: Seq<char>, from: int) -> int
    decreases s.len() - from,
{
    if 0 <= from < s.len() && is_digit(s[from]) {
        digits_end(s, from + 1)
    } else {
        from
    }
}

proof fn lemma_digits_end(s: Seq<char>, from: int)
    requires
        0 <= from <= s.len(),
    ensures
        from <= digits_end(s, from) <= s.len(),
    decreases s.len() - from,
{
    if from < s.len() && is_digit(s[from]) {
        lemma_digits_end(s, from + 1);
    }
}

/// The first non-digit position, executable form.
fn find_digits_end(s: &str, from: usize) -> (r: usize)
    requires
        from <= s@.len(),
    ensures
        r == digits_end(s@, from as int),
        from <= r <= s@.len(),
{
    proof {
        lemma_digits_end(s@, from as int);
    }
    let len = s.unicode_len();
    let mut i = from;
    while i < len
        invariant
            from <= i <= len,
            len == s@.len(),
            digits_end(s@, from as int) == digits_end(s@, i as int),
            digits_end(s@, from as int) >= i,
        decreases len - i,
    {
        let c = s.get_char(i);
        if !(c >= '0' && c <= '9') {
            proof {
                assert(!is_digit(s@[i as int]));
            }
            return i;
        }
        proof {
            lemma_digits_end(s@, i as int + 1);
        }
        i = i + 1;
    }
    len
}

/// Whether a text has the shape of a floating-point number: an optional
/// sign, then the words `inf`, `infinity` or `nan` blind to case, or a
/// significand — digits, digits with a point, or a point with digits —
/// with an optional exponent part.
pub open spec fn is_float_text(s: Seq<char>) -> bool {
    let start: int = if s.len() > 0 && (s[0] == '-' || s[0] == '+') {
        1
    } else {
        0
    };
    let body = s.subrange(start, s.len() as int);
    if seq_ci_eq(body, seq!['i', 'n', 'f']) || seq_ci_eq(
        body,
        seq!['i', 'n', 'f', 'i', 'n', 'i', 't', 'y'],
    ) || seq_ci_eq(body, seq!['n', 'a', 'n']) {
        true
    } else {
        let d1 = digits_end(s, start);
        let has_int = d1 > start;
        let frac_end = if d1 < s.len() && s[d1] == '.' {
            digits_end(s, d1 + 1)
        } else {
            d1
        };
        let has_frac = d1 < s.len() && s[d1] == '.' && frac_end > d1 + 1;
        if !has_int && !has_frac {
            false
        } else if frac_end == s.len() {
            true
        } else if s[frac_end] == 'e' || s[frac_end] == 'E' {
            let e0 = frac_end + 1;
            let e1 = if e0 < s.len() && (s[e0] == '-' || s[e0] == '+') {
                e0 + 1
            } else {
                e0
            };
            let e2 = digits_end(s, e1);
            e2 > e1 && e2 == s.len()
        } else {
            false
        }
    }
}

/// Tests a text for the shape of a floating-point number.
pub fn is_float_literal(s: &str) -> (r: bool)
    ensures
        r == is_float_text(s@),
{
    proof {
        reveal_strlit("inf");
        reveal_strlit("infinity");
        reveal_strlit("nan");
        assert("inf"@ =~= seq!['i', 'n', 'f']);
        assert("infinity"@ =~= seq!['i', 'n', 'f', 'i', 'n', 'i', 't', 'y']);
        assert("nan"@ =~= seq!['n', 'a', 'n']);
    }
    let len = s.unicode_len();
    let start: usize = if len > 0 {
        let c = s.get_char(0);
        if c == '-' || c == '+' {
            1
        } else {
            0
        }
    } else {
        0
    };
    let body = s.substring_char(start, len);
    proof {
        assert(body@ == s@.subrange(start as int, s@.len() as int));
    }
    if str_ci_eq(body, "inf") || str_ci_eq(body, "infinity") || str_ci_eq(body, "nan") {
        return true;
    }
    let d1 = find_digits_end(s, start);
    let has_int = d1 > start;
    let mut frac_end = d1;
    let mut has_frac = false;
    if d1 < len && s.get_char(d1) == '.' {
        frac_end = find_digits_end(s, d1 + 1);
        has_frac = frac_end > d1 + 1;
    }
    if !has_int && !has_frac {
        return false;
    }
    if frac_end == len {
        return true;
    }
    let ec = s.get_char(frac_end);
    if ec == 'e' || ec == 'E' {
        let e0 = frac_end + 1;
        let e1: usize = if e0 < len {
            let c = s.get_char(e0);
            if c == '-' || c == '+' {
                e0 + 1
            } else {
                e0
            }
        } else {
            e0
        };
        let e2 = find_digits_end(s, e1);
        e2 > e1 && e2 == len
    } else {
        false
    }
}

/// The present, non-empty texts among the first `n` cells, in order.
pub open spec fn present_texts(vals: Seq<Option<Seq<char>>>, n: int) -> Seq<Seq<char>>
    decreases n,
{
    if n <= 0 {
        Seq::empty()
    } else {
        let rest = present_texts(vals, n - 1);
        match vals[n - 1] {
            Some(s) => if s.len() > 0 {
                rest.push(s)
            } else {
                rest
            },
            None => rest,
        }
    }
}

/// The inference sample: the present, non-empty texts, at most `limit`
/// of them when a limit is given.
pub open spec fn sample_texts(
    vals: Seq<Option<Seq<char>>>,
    n: int,
    limit: Option<usize>,
) -> Seq<Seq<char>> {
    let p = present_texts(vals, n);
    match limit {
        Some(l) => if p.len() > l {
            p.take(l as int)
        } else {
            p
        },
        None => p,
    }
}

/// The kind a text column is inferred to carry, from its sample: the
/// fallback ladder tries integer, then float, then boolean, and settles
/// on text; an empty sample reads as text.
pub open spec fn infer_kind_spec(vals: Seq<Option<Seq<char>>>, n: int, limit: Option<usize>) -> DataType {
    let smp = sample_texts(vals, n, limit);
    if smp.len() == 0 {
        DataType::String
    } else if forall|i: int| 0 <= i < smp.len() ==> parse_i64_spec(#[trigger] smp[i]) is Some {
        DataType::Int64
    } else if forall|i: int| 0 <= i < smp.len() ==> is_float_text(#[trigger] smp[i]) {
        DataType::Float64
    } else if forall|i: int| 0 <= i < smp.len() ==> parse_bool_spec(#[trigger] smp[i]) is Some {
        DataType::Bool
    } else {
        DataType::String
    }
}

/// Infers one column's kind by sampling its non-empty texts through the
/// fallback ladder integer, float, boolean, text.
pub fn infer_column_type(column_values: &Vec<Option<String>>, infer_length: Option<usize>) -> (r:
    DataType)
    ensures
        r == infer_kind_spec(
            column_values.deep_view(),
            column_values.deep_view().len() as int,
            infer_length,
        ),
{
    let ghost dv = column_values.deep_view();
    let n = column_values.len();
    let mut smp: Vec<String> = Vec::new();
    let mut i: usize = 0;
    while i < n
        invariant
            0 <= i <= n,
            n == dv.len(),
            dv == column_values.deep_view(),
            smp.deep_view() == sample_texts(dv, i as int, infer_length),
            smp.deep_view().len() <= present_texts(dv, i as int).len(),
        decreases n - i,
    {
        proof {
            assert(dv[i as int] == column_values@[i as int].deep_view());
        }
        let take_more = match infer_length {
            Some(l) => smp.len() < l,
            None => true,
        };
        match &column_values[i] {
            Some(s) => {
                if s.as_str().unicode_len() > 0 {
                    if take_more {
                        smp.push(s.clone());
                    }
                    proof {
                        assert(present_texts(dv, i as int + 1) =~= present_texts(
                            dv,
                            i as int,
                        ).push(s@));
                        if !take_more {
                            let l = infer_length->0;
                            assert(present_texts(dv, i as int).take(l as int).push(s@).take(l as int)
                                =~= present_texts(dv, i as int).take(l as int));
                            assert(present_texts(dv, i as int).push(s@).take(l as int)
                                =~= present_texts(dv, i as int).take(l as int));
                        }
                        assert(smp.deep_view() =~= sample_texts(dv, i as int + 1, infer_length));
                    }
                } else {
                    proof {
                        assert(present_texts(dv, i as int + 1) == present_texts(dv, i as int));
                    }
                }
            },
            None => {
                proof {
                    assert(present_texts(dv, i as int + 1) == present_texts(dv, i as int));
                }
            },
        }
        i = i + 1;
    }
    let ghost sample = sample_texts(dv, n as int, infer_length);
    if smp.len() == 0 {
        return DataType::String;
    }
    let m = smp.len();
    // the ladder: integer first
    let mut all_ok = true;
    let mut j: usize = 0;
    while j < m
        invariant
            0 <= j <= m,
            m == smp.deep_view().len(),
            smp.deep_view() == sample,
            all_ok <==> (forall|k: int|
                0 <= k < j ==> parse_i64_spec(#[trigger] sample[k]) is Some),
        decreases m - j,
    {
        proof {
            assert(sample[j as int] == smp@[j as int]@);
        }
        if try_parse_i64(smp[j].as_str()).is_none() {
            all_ok = false;
        }
        j = j + 1;
    }
    if all_ok {
        return DataType::Int64;
    }
    // then float
    let mut all_ok = true;
    let mut j: usize = 0;
    while j < m
        invariant
            0 <= j <= m,
            m == smp.deep_view().len(),
            smp.deep_view() == sample,
            sample.len() > 0,
            !(forall|k: int| 0 <= k < sample.len() ==> parse_i64_spec(#[trigger] sample[k]) is Some),
            all_ok <==> (forall|k: int| 0 <= k < j ==> is_float_text(#[trigger] sample[k])),
        decreases m - j,
    {
        proof {
            assert(sample[j as int] == smp@[j as int]@);
        }
        if !is_float_literal(smp[j].as_str()) {
            all_ok = false;
        }
        j = j + 1;
    }
    if all_ok {
        return DataType::Float64;
    }
    // then boolean
    let mut all_ok = true;
    let mut j: usize = 0;
    while j < m
        invariant
            0 <= j <= m,
            m == smp.deep_view().len(),
            smp.deep_view() == sample,
            sample.len() > 0,
            !(forall|k: int| 0 <= k < sample.len() ==> parse_i64_spec(#[trigger] sample[k]) is Some),
            !(forall|k: int| 0 <= k < sample.len() ==> is_float_text(#[trigger] sample[k])),
            all_ok <==> (forall|k: int|
                0 <= k < j ==> parse_bool_spec(#[trigger] sample[k]) is Some),
        decreases m - j,
    {
        proof {
            assert(sample[j as int] == smp@[j as int]@);
        }
        if try_parse_bool(smp[j].as_str()).is_none() {
            all_ok = false;
        }
        j = j + 1;
    }
    if all_ok {
        return DataType::Bool;
    }
    DataType::String
}

/// What one text cell parses to under a target kind: an unparseable
/// present text becomes a missing cell, never an error.
pub open spec fn parsed_cell(c: Option<Seq<char>>, dt: DataType) -> Option<ScalarV> {
    match c {
        None => None,
        Some(t) => if dt == DataType::Int64 {
            match parse_i64_spec(t) {
                Some(v) => Some(ScalarV::Int64(v)),
                None => None,
            }
        } else if dt == DataType::Bool {
            match parse_bool_spec(t) {
                Some(b) => Some(ScalarV::Bool(b)),
                None => None,
            }
        } else {
            Some(ScalarV::Str(t))
        },
    }
}

/// Parses a whole text column into a typed one: integer, boolean and
/// text targets are carried here; any other target kind is refused.
pub fn parse_column_as_type(
    column_name: String,
    string_data: Vec<Option<String>>,
    target_type: &DataType,
) -> (r: AxionResult<Series>)
    ensures
        r is Ok <==> (*target_type == DataType::Int64 || *target_type == DataType::Bool
            || *target_type == DataType::String),
        r matches Ok(s) ==> {
            &&& s@.name == column_name@
            &&& s@.dtype == *target_type
            &&& s@.cells.len() == string_data.deep_view().len()
            &&& (forall|i: int|
                0 <= i < s@.cells.len() ==> #[trigger] s@.cells[i] == parsed_cell(
                    string_data.deep_view()[i],
                    *target_type,
                ))
            &&& s.wf()
        },
        r matches Err(e) ==> e is UnsupportedOperation,
    {
    let ghost dv = string_data.deep_view();
    let kind_ok = dtype_eq(target_type, &DataType::Int64) || dtype_eq(target_type, &DataType::Bool)
        || dtype_eq(target_type, &DataType::String);
    if !kind_ok {
        let mut msg = String::from_str("this kind cannot be parsed from delimited text: ");
        msg.append(column_name.as_str());
        return Err(AxionError::UnsupportedOperation(msg));
    }
    let n = string_data.len();
    let mut out: Vec<Option<Scalar>> = Vec::new();
    let mut i: usize = 0;
    while i < n
        invariant
            0 <= i <= n,
            n == dv.len(),
            dv == string_data.deep_view(),
            *target_type == DataType::Int64 || *target_type == DataType::Bool || *target_type
                == DataType::String,
            out@.len() == i,
            forall|k: int|
                0 <= k < i ==> (#[trigger] out@[k]).deep_view() == parsed_cell(
                    dv[k],
                    *target_type,
                ) && cell_ok(out@[k].deep_view(), *target_type),
        decreases n - i,
    {
        proof {
            assert(dv[i as int] == string_data@[i as int].deep_view());
        }
        let cell: Option<Scalar> = match &string_data[i] {
            None => None,
            Some(t) => {
                if dtype_eq(target_type, &DataType::Int64) {
                    match try_parse_i64(t.as_str()) {
                        Some(v) => Some(Scalar::Int64(v)),
                        None => None,
                    }
                } else if dtype_eq(target_type, &DataType::Bool) {
                    match try_parse_bool(t.as_str()) {
                        Some(b) => Some(Scalar::Bool(b)),
                        None => None,
                    }
                } else {
                    Some(Scalar::Str(t.clone()))
                }
            },
        };
        out.push(cell);
        i = i + 1;
    }
    let dt = if dtype_eq(target_type, &DataType::Int64) {
        DataType::Int64
    } else if dtype_eq(target_type, &DataType::Bool) {
        DataType::Bool
    } else {
        DataType::String
    };
    let s = Series { name: column_name, dtype: dt, data: out, flags: SeriesFlags::new() };
    proof {
        assert forall|k: int| 0 <= k < s@.cells.len() implies #[trigger] s@.cells[k] == parsed_cell(
            dv[k],
            *target_type,
        ) && cell_ok(s@.cells[k], s@.dtype) by {
            assert(s@.cells[k] == out@[k].deep_view());
        }
    }
    Ok(s)
}

} // verus!
