//! The string-specific operators of a text column, reached through an
//! accessor: pattern tests, length, substring replacement, case mapping
//! and whitespace trimming — all null-preserving.

use vstd::prelude::*;
use crate::dtype::DataType;
use crate::error::{AxionError, AxionResult};
use crate::scalar::{Scalar, ScalarV};
use crate::series::{Series, SeriesFlags, SeriesV, cell_ok};

verus! {

/// Whether `p` stands at position `k` of `s`.
pub open spec fn matches_at_spec(s: Seq<char>, p: Seq<char>, k: int) -> bool {
    0 <= k && k + p.len() <= s.len() && s.subrange(k, k + p.len()) == p
}

/// Whether `s` opens with `p`.
pub open spec fn starts_with_spec(s: Seq<char>, p: Seq<char>) -> bool {
    matches_at_spec(s, p, 0)
}

/// Whether `s` closes with `p`.
pub open spec fn ends_with_spec(s: Seq<char>, p: Seq<char>) -> bool {
    matches_at_spec(s, p, s.len() - p.len())
}

/// Whether `p` stands anywhere in `s`.
pub open spec fn contains_spec(s: Seq<char>, p: Seq<char>) -> bool {
    exists|k: int| matches_at_spec(s, p, k)
}

/// Whether `p` stands at position `k`, executable form.
fn matches_at(s: &str, p: &str, k: usize) -> (r: bool)
    requires
        k + p@.len() <= s@.len(),
        s@.len() <= usize::MAX,
    ensures
        r == matches_at_spec(s@, p@, k as int),
{
    let pl = p.unicode_len();
    let mut t: usize = 0;
    while t < pl
        invariant
            0 <= t <= pl,
            pl == p@.len(),
            k + pl <= s@.len(),
            s@.len() <= usize::MAX,
            forall|j: int| 0 <= j < t ==> s@[k + j] == p@[j],
        decreases pl - t,
    {
        if s.get_char(k + t) != p.get_char(t) {
            proof {
                assert(s@[k + t] != p@[t as int]);
                if matches_at_spec(s@, p@, k as int) {
                    assert(s@.subrange(k as int, k + p@.len())[t as int] == p@[t as int]);
                }
            }
            return false;
        }
        t = t + 1;
    }
    proof {
        assert(s@.subrange(k as int, k + p@.len()) =~= p@);
    }
    true
}

/// Whether `p` stands anywhere in `s`, executable form.
fn str_contains(s: &str, p: &str) -> (r: bool)
    ensures
        r == contains_spec(s@, p@),
{
    let sl = s.unicode_len();
    let pl = p.unicode_len();
    if pl > sl {
        proof {
            if contains_spec(s@, p@) {
                let k = choose|k: int| matches_at_spec(s@, p@, k);
            }
        }
        return false;
    }
    if pl == 0 {
        proof {
            assert(s@.subrange(0, 0) =~= p@);
            assert(matches_at_spec(s@, p@, 0));
        }
        return true;
    }
    let bound = sl - pl;
    let mut k: usize = 0;
    while k <= bound
        invariant
            0 <= k <= bound + 1,
            bound == sl - pl,
            1 <= pl <= sl,
            sl == s@.len(),
            pl == p@.len(),
            forall|j: int| 0 <= j < k ==> !matches_at_spec(s@, p@, j),
        decreases bound + 1 - k,
    {
        if matches_at(s, p, k) {
            return true;
        }
        k = k + 1;
    }
    proof {
        if contains_spec(s@, p@) {
            let j = choose|j: int| matches_at_spec(s@, p@, j);
            assert(j < k);
        }
    }
    false
}

/// The text with every occurrence of `from` replaced by `to`, scanning
/// left to right without overlap.
pub open spec fn replace_spec(s: Seq<char>, from: Seq<char>, to: Seq<char>) -> Seq<char>
    decreases s.len(),
{
    if s.len() == 0 {
        s
    } else if 0 < from.len() <= s.len() && starts_with_spec(s, from) {
        to + replace_spec(s.skip(from.len() as int), from, to)
    } else {
        seq![s[0]] + replace_spec(s.drop_first(), from, to)
    }
}

/// Replaces every occurrence, executable form.
fn replace_str(s: &str, from: &str, to: &str) -> (r: String)
    requires
        from@.len() > 0,
    ensures
        r@ == replace_spec(s@, from@, to@),
{
    let len = s.unicode_len();
    let fl = from.unicode_len();
    let mut out = String::new();
    let mut i: usize = 0;
    proof {
        assert(s@.skip(0) =~= s@);
        assert(out@ + replace_spec(s@, from@, to@) =~= replace_spec(s@, from@, to@));
    }
    while i < len
        invariant
            0 <= i <= len,
            len == s@.len(),
            fl == from@.len(),
            fl >= 1,
            out@ + replace_spec(s@.skip(i as int), from@, to@) == replace_spec(s@, from@, to@),
        decreases len - i,
    {
        let ghost old_out = out@;
        let ghost rem = s@.skip(i as int);
        proof {
            assert(rem.len() == len - i);
            assert(rem.len() > 0);
        }
        let can = fl <= len - i && matches_at(s, from, i);
        if can {
            out.append(to);
            proof {
                assert(rem.subrange(0, fl as int) =~= s@.subrange(i as int, i + fl));
                assert(starts_with_spec(rem, from@));
                let tail = replace_spec(s@.skip(i + fl), from@, to@);
                assert(rem.skip(fl as int) =~= s@.skip(i + fl));
                assert(replace_spec(rem, from@, to@) == to@ + tail);
                assert((old_out + to@) + tail =~= old_out + (to@ + tail));
                assert(out@ + tail == replace_spec(s@, from@, to@));
            }
            i = i + fl;
        } else {
            let ch = s.substring_char(i, i + 1);
            out.append(ch);
            proof {
                assert(rem[0] == s@[i as int]);
                if 0 < fl <= rem.len() && starts_with_spec(rem, from@) {
                    assert(rem.subrange(0, fl as int) =~= s@.subrange(i as int, i + fl));
                    assert(matches_at_spec(s@, from@, i as int));
                }
                let tail = replace_spec(s@.skip(i as int + 1), from@, to@);
                assert(rem.drop_first() =~= s@.skip(i as int + 1));
                assert(replace_spec(rem, from@, to@) == seq![rem[0]] + tail);
                assert(ch@ =~= seq![s@[i as int]]);
                assert((old_out + ch@) + tail =~= old_out + (seq![rem[0]] + tail));
                assert(out@ + tail == replace_spec(s@, from@, to@));
            }
            i = i + 1;
        }
    }
    proof {
        assert(s@.skip(len as int) =~= Seq::<char>::empty());
        assert(replace_spec(Seq::<char>::empty(), from@, to@) == Seq::<char>::empty());
        assert(out@ + Seq::<char>::empty() =~= out@);
    }
    out
}

/// The lowercase form of a text; it depends on the characters alone.
pub uninterp spec fn lower_of(s: Seq<char>) -> Seq<char>;

/// The uppercase form of a text; it depends on the characters alone.
pub uninterp spec fn upper_of(s: Seq<char>) -> Seq<char>;

/// Relies on str::to_lowercase: the result is a function of the
/// characters alone, and an empty text stays empty.
#[verifier::external_body]
fn to_lowercase_str(s: &str) -> (r: String)
    ensures
        r@ == lower_of(s@),
        s@.len() == 0 ==> r@.len() == 0,
{
    s.to_lowercase()
}

/// Relies on str::to_uppercase: the result is a function of the
/// characters alone, and an empty text stays empty.
#[verifier::external_body]
fn to_uppercase_str(s: &str) -> (r: String)
    ensures
        r@ == upper_of(s@),
        s@.len() == 0 ==> r@.len() == 0,
{
    s.to_uppercase()
}

/// Whether a character counts as whitespace; the classification depends
/// on the character alone.
pub uninterp spec fn is_white(c: char) -> bool;

/// Relies on char::is_whitespace: the classification is a function of
/// the character alone.
#[verifier::external_body]
fn char_is_whitespace(c: char) -> (r: bool)
    ensures
        r == is_white(c),
{
    c.is_whitespace()
}

/// A text without its leading whitespace.
pub open spec fn trim_start_spec(s: Seq<char>) -> Seq<char>
    decreases s.len(),
{
    if s.len() > 0 && is_white(s[0]) {
        trim_start_spec(s.drop_first())
    } else {
        s
    }
}

/// A text without its trailing whitespace.
pub open spec fn trim_end_spec(s: Seq<char>) -> Seq<char>
    decreases s.len(),
{
    if s.len() > 0 && is_white(s.last()) {
        trim_end_spec(s.drop_last())
    } else {
        s
    }
}

/// A text without its leading and trailing whitespace.
pub open spec fn trim_spec(s: Seq<char>) -> Seq<char> {
    trim_end_spec(trim_start_spec(s))
}

/// Trimming the front keeps the suffix after the leading whitespace.
proof fn lemma_trim_start(s: Seq<char>, w: int)
    requires
        0 <= w <= s.len(),
        forall|k: int| 0 <= k < w ==> is_white(#[trigger] s[k]),
        w < s.len() ==> !is_white(s[w]),
    ensures
        trim_start_spec(s) == s.subrange(w, s.len() as int),
    decreases w,
{
    if w == 0 {
        assert(s.subrange(0, s.len() as int) =~= s);
    } else {
        assert(is_white(s[0]));
        let rest = s.drop_first();
        assert forall|k: int| 0 <= k < w - 1 implies is_white(#[trigger] rest[k]) by {
            assert(rest[k] == s[k + 1]);
        }
        assert(w - 1 < rest.len() ==> !is_white(rest[w - 1]));
        lemma_trim_start(rest, w - 1);
        assert(rest.subrange(w - 1, rest.len() as int) =~= s.subrange(w, s.len() as int));
    }
}

/// Trimming the back keeps the prefix before the trailing whitespace.
proof fn lemma_trim_end(s: Seq<char>, w: int)
    requires
        0 <= w <= s.len(),
        forall|k: int| w <= k < s.len() ==> is_white(#[trigger] s[k]),
        w > 0 ==> !is_white(s[w - 1]),
    ensures
        trim_end_spec(s) == s.subrange(0, w),
    decreases s.len(),
{
    if w == s.len() {
        if s.len() > 0 && is_white(s.last()) {
            assert(!is_white(s[s.len() - 1]));
        }
        assert(s.subrange(0, s.len() as int) =~= s);
    } else {
        assert(is_white(s.last()));
        let rest = s.drop_last();
        assert forall|k: int| w <= k < rest.len() implies is_white(#[trigger] rest[k]) by {
            assert(rest[k] == s[k]);
        }
        lemma_trim_end(rest, w);
        assert(rest.subrange(0, w) =~= s.subrange(0, w));
    }
}

/// Trims a string slice on either or both ends.
fn trim_str(s: &str, front: bool, back: bool) -> (r: &str)
    ensures
        front && back ==> r@ == trim_spec(s@),
        front && !back ==> r@ == trim_start_spec(s@),
        !front && back ==> r@ == trim_end_spec(s@),
        !front && !back ==> r@ == s@,
{
    let len = s.unicode_len();
    let mut i: usize = 0;
    if front {
        while i < len && char_is_whitespace(s.get_char(i))
            invariant
                0 <= i <= len,
                len == s@.len(),
                forall|k: int| 0 <= k < i ==> is_white(#[trigger] s@[k]),
            decreases len - i,
        {
            i = i + 1;
        }
    }
    let mut j: usize = len;
    if back {
        while j > i && char_is_whitespace(s.get_char(j - 1))
            invariant
                i <= j <= len,
                len == s@.len(),
                forall|k: int| j <= k < len ==> is_white(#[trigger] s@[k]),
            decreases j,
        {
            j = j - 1;
        }
    }
    let r = s.substring_char(i, j);
    proof {
        let mid = s@.subrange(i as int, s@.len() as int);
        if front {
            lemma_trim_start(s@, i as int);
            assert(trim_start_spec(s@) == mid);
        }
        if front && back {
            assert forall|k: int| (j - i) <= k < mid.len() implies is_white(#[trigger] mid[k]) by {
                assert(mid[k] == s@[k + i]);
            }
            if j > i {
                assert(!is_white(mid[j - i - 1]));
            }
            lemma_trim_end(mid, j - i);
            assert(mid.subrange(0, j - i) =~= s@.subrange(i as int, j as int));
        }
        if !front && back {
            lemma_trim_end(s@, j as int);
        }
        if !front && !back {
            assert(s@.subrange(0, s@.len() as int) =~= s@);
        }
    }
    r
}

/// The string operators of a text column.
pub struct StringAccessor<'a> {
    pub series: &'a Series,
}

impl Series {
    /// The string accessor; only a text column offers it.
    pub fn str(&self) -> (r: StringAccessor<'_>)
        requires
            self.wf(),
            self@.dtype == DataType::String,
        ensures
            r.series@ == self@,
            r.series.wf(),
    {
        StringAccessor { series: self }
    }
}

/// What a null-preserving per-text operator leaves: a missing cell stays
/// missing, a present text becomes the given function of it.
impl<'a> StringAccessor<'a> {
    /// A boolean column marking the texts that hold the pattern.
    pub fn contains(&self, pattern: &str) -> (r: AxionResult<Series>)
        requires
            self.series.wf(),
            self.series@.dtype == DataType::String,
        ensures
            r is Ok,
            r matches Ok(s) ==> {
                &&& s@.name == self.series@.name + "_contains_"@ + pattern@
                &&& s@.dtype == DataType::Bool
                &&& s@.cells.len() == self.series@.cells.len()
                &&& (forall|i: int|
                    0 <= i < s@.cells.len() ==> #[trigger] s@.cells[i] == (
                    match self.series@.cells[i] {
                        Some(ScalarV::Str(t)) => Some(ScalarV::Bool(contains_spec(t, pattern@))),
                        _ => None,
                    }))
                &&& s.wf()
            },
    {
        let src = self.series;
        let n = src.data.len();
        let mut out: Vec<Option<Scalar>> = Vec::new();
        let mut i: usize = 0;
        while i < n
            invariant
                0 <= i <= n,
                n == src@.cells.len(),
                src.wf(),
                src@.dtype == DataType::String,
                out@.len() == i,
                forall|k: int|
                    0 <= k < i ==> (#[trigger] out@[k]).deep_view() == (
                    match src@.cells[k] {
                        Some(ScalarV::Str(t)) => Some(ScalarV::Bool(contains_spec(t, pattern@))),
                        _ => None,
                    }),
            decreases n - i,
        {
            proof {
                assert(src.data.deep_view()[i as int] == src.data@[i as int].deep_view());
                assert(cell_ok(src@.cells[i as int], DataType::String));
            }
            let cell = match &src.data[i] {
                Some(Scalar::Str(t)) => Some(Scalar::Bool(str_contains(t.as_str(), pattern))),
                _ => None,
            };
            out.push(cell);
            i = i + 1;
        }
        let name = src.name.clone().concat("_contains_").concat(pattern);
        let r = Series { name, dtype: DataType::Bool, data: out, flags: SeriesFlags::new() };
        proof {
            assert forall|k: int| 0 <= k < r@.cells.len() implies #[trigger] r@.cells[k] == (
            match src@.cells[k] {
                Some(ScalarV::Str(t)) => Some(ScalarV::Bool(contains_spec(t, pattern@))),
                _ => None,
            }) && cell_ok(r@.cells[k], DataType::Bool) by {
                assert(r@.cells[k] == out@[k].deep_view());
            }
        }
        Ok(r)
    }

    /// A boolean column marking the texts that open with the pattern.
    pub fn startswith(&self, pattern: &str) -> (r: AxionResult<Series>)
        requires
            self.series.wf(),
            self.series@.dtype == DataType::String,
        ensures
            r is Ok,
            r matches Ok(s) ==> {
                &&& s@.name == self.series@.name + "_startswith_"@ + pattern@
                &&& s@.dtype == DataType::Bool
                &&& s@.cells.len() == self.series@.cells.len()
                &&& (forall|i: int|
                    0 <= i < s@.cells.len() ==> #[trigger] s@.cells[i] == (
                    match self.series@.cells[i] {
                        Some(ScalarV::Str(t)) => Some(
                            ScalarV::Bool(starts_with_spec(t, pattern@)),
                        ),
                        _ => None,
                    }))
                &&& s.wf()
            },
    {
        let src = self.series;
        let n = src.data.len();
        let mut out: Vec<Option<Scalar>> = Vec::new();
        let mut i: usize = 0;
        while i < n
            invariant
                0 <= i <= n,
                n == src@.cells.len(),
                src.wf(),
                src@.dtype == DataType::String,
                out@.len() == i,
                forall|k: int|
                    0 <= k < i ==> (#[trigger] out@[k]).deep_view() == (
                    match src@.cells[k] {
                        Some(ScalarV::Str(t)) => Some(
                            ScalarV::Bool(starts_with_spec(t, pattern@)),
                        ),
                        _ => None,
                    }),
            decreases n - i,
        {
            proof {
                assert(src.data.deep_view()[i as int] == src.data@[i as int].deep_view());
                assert(cell_ok(src@.cells[i as int], DataType::String));
            }
            let cell = match &src.data[i] {
                Some(Scalar::Str(t)) => {
                    let b = if pattern.unicode_len() <= t.as_str().unicode_len() {
                        matches_at(t.as_str(), pattern, 0)
                    } else {
                        proof {
                            assert(!starts_with_spec(t@, pattern@));
                        }
                        false
                    };
                    Some(Scalar::Bool(b))
                },
                _ => None,
            };
            out.push(cell);
            i = i + 1;
        }
        let name = src.name.clone().concat("_startswith_").concat(pattern);
        let r = Series { name, dtype: DataType::Bool, data: out, flags: SeriesFlags::new() };
        proof {
            assert forall|k: int| 0 <= k < r@.cells.len() implies #[trigger] r@.cells[k] == (
            match src@.cells[k] {
                Some(ScalarV::Str(t)) => Some(ScalarV::Bool(starts_with_spec(t, pattern@))),
                _ => None,
            }) && cell_ok(r@.cells[k], DataType::Bool) by {
                assert(r@.cells[k] == out@[k].deep_view());
            }
        }
        Ok(r)
    }

    /// A boolean column marking the texts that close with the pattern.
    pub fn endswith(&self, pattern: &str) -> (r: AxionResult<Series>)
        requires
            self.series.wf(),
            self.series@.dtype == DataType::String,
        ensures
            r is Ok,
            r matches Ok(s) ==> {
                &&& s@.name == self.series@.name + "_endswith_"@ + pattern@
                &&& s@.dtype == DataType::Bool
                &&& s@.cells.len() == self.series@.cells.len()
                &&& (forall|i: int|
                    0 <= i < s@.cells.len() ==> #[trigger] s@.cells[i] == (
                    match self.series@.cells[i] {
                        Some(ScalarV::Str(t)) => Some(ScalarV::Bool(ends_with_spec(t, pattern@))),
                        _ => None,
                    }))
                &&& s.wf()
            },
    {
        let src = self.series;
        let n = src.data.len();
        let mut out: Vec<Option<Scalar>> = Vec::new();
        let mut i: usize = 0;
        while i < n
            invariant
                0 <= i <= n,
                n == src@.cells.len(),
                src.wf(),
                src@.dtype == DataType::String,
                out@.len() == i,
                forall|k: int|
                    0 <= k < i ==> (#[trigger] out@[k]).deep_view() == (
                    match src@.cells[k] {
                        Some(ScalarV::Str(t)) => Some(ScalarV::Bool(ends_with_spec(t, pattern@))),
                        _ => None,
                    }),
            decreases n - i,
        {
            proof {
                assert(src.data.deep_view()[i as int] == src.data@[i as int].deep_view());
                assert(cell_ok(src@.cells[i as int], DataType::String));
            }
            let cell = match &src.data[i] {
                Some(Scalar::Str(t)) => {
                    let tl = t.as_str().unicode_len();
                    let pl = pattern.unicode_len();
                    let b = if pl <= tl {
                        matches_at(t.as_str(), pattern, tl - pl)
                    } else {
                        proof {
                            assert(!ends_with_spec(t@, pattern@));
                        }
                        false
                    };
                    Some(Scalar::Bool(b))
                },
                _ => None,
            };
            out.push(cell);
            i = i + 1;
        }
        let name = src.name.clone().concat("_endswith_").concat(pattern);
        let r = Series { name, dtype: DataType::Bool, data: out, flags: SeriesFlags::new() };
        proof {
            assert forall|k: int| 0 <= k < r@.cells.len() implies #[trigger] r@.cells[k] == (
            match src@.cells[k] {
                Some(ScalarV::Str(t)) => Some(ScalarV::Bool(ends_with_spec(t, pattern@))),
                _ => None,
            }) && cell_ok(r@.cells[k], DataType::Bool) by {
                assert(r@.cells[k] == out@[k].deep_view());
            }
        }
        Ok(r)
    }

    /// The character count of each text, as an unsigned column; every
    /// text must fit the 32-bit count.
    pub fn str_len(&self) -> (r: AxionResult<Series>)
        requires
            self.series.wf(),
            self.series@.dtype == DataType::String,
            forall|i: int|
                0 <= i < self.series@.cells.len() ==> (#[trigger] self.series@.cells[i] matches
                Some(v) ==> (v matches ScalarV::Str(t) && t.len() <= u32::MAX)),
        ensures
            r is Ok,
            r matches Ok(s) ==> {
                &&& s@.name == self.series@.name + "_len"@
                &&& s@.dtype == DataType::UInt32
                &&& s@.cells.len() == self.series@.cells.len()
                &&& (forall|i: int|
                    0 <= i < s@.cells.len() ==> #[trigger] s@.cells[i] == (
                    match self.series@.cells[i] {
                        Some(ScalarV::Str(t)) => Some(ScalarV::UInt32(t.len() as u32)),
                        _ => None,
                    }))
                &&& s.wf()
            },
    {
        let src = self.series;
        let n = src.data.len();
        let mut out: Vec<Option<Scalar>> = Vec::new();
        let mut i: usize = 0;
        while i < n
            invariant
                0 <= i <= n,
                n == src@.cells.len(),
                src.wf(),
                src@.dtype == DataType::String,
                forall|k: int|
                    0 <= k < n ==> (#[trigger] src@.cells[k] matches Some(v) ==> (v matches
                    ScalarV::Str(t) && t.len() <= u32::MAX)),
                out@.len() == i,
                forall|k: int|
                    0 <= k < i ==> (#[trigger] out@[k]).deep_view() == (
                    match src@.cells[k] {
                        Some(ScalarV::Str(t)) => Some(ScalarV::UInt32(t.len() as u32)),
                        _ => None,
                    }),
            decreases n - i,
        {
            proof {
                assert(src.data.deep_view()[i as int] == src.data@[i as int].deep_view());
                assert(cell_ok(src@.cells[i as int], DataType::String));
            }
            let cell = match &src.data[i] {
                Some(Scalar::Str(t)) => Some(Scalar::UInt32(t.as_str().unicode_len() as u32)),
                _ => None,
            };
            out.push(cell);
            i = i + 1;
        }
        let name = src.name.clone().concat("_len");
        let r = Series { name, dtype: DataType::UInt32, data: out, flags: SeriesFlags::new() };
        proof {
            assert forall|k: int| 0 <= k < r@.cells.len() implies #[trigger] r@.cells[k] == (
            match src@.cells[k] {
                Some(ScalarV::Str(t)) => Some(ScalarV::UInt32(t.len() as u32)),
                _ => None,
            }) && cell_ok(r@.cells[k], DataType::UInt32) by {
                assert(r@.cells[k] == out@[k].deep_view());
            }
        }
        Ok(r)
    }

    /// Every text with every occurrence of `from` replaced by `to`; the
    /// pattern must not be empty.
    pub fn replace(&self, from: &str, to: &str) -> (r: AxionResult<Series>)
        requires
            self.series.wf(),
            self.series@.dtype == DataType::String,
            from@.len() > 0,
        ensures
            r is Ok,
            r matches Ok(s) ==> {
                &&& s@.name == self.series@.name + "_replace"@
                &&& s@.dtype == DataType::String
                &&& s@.cells.len() == self.series@.cells.len()
                &&& (forall|i: int|
                    0 <= i < s@.cells.len() ==> #[trigger] s@.cells[i] == (
                    match self.series@.cells[i] {
                        Some(ScalarV::Str(t)) => Some(ScalarV::Str(replace_spec(t, from@, to@))),
                        _ => None,
                    }))
                &&& s.wf()
            },
    {
        let src = self.series;
        let n = src.data.len();
        let mut out: Vec<Option<Scalar>> = Vec::new();
        let mut i: usize = 0;
        while i < n
            invariant
                0 <= i <= n,
                n == src@.cells.len(),
                src.wf(),
                src@.dtype == DataType::String,
                from@.len() > 0,
                out@.len() == i,
                forall|k: int|
                    0 <= k < i ==> (#[trigger] out@[k]).deep_view() == (
                    match src@.cells[k] {
                        Some(ScalarV::Str(t)) => Some(ScalarV::Str(replace_spec(t, from@, to@))),
                        _ => None,
                    }),
            decreases n - i,
        {
            proof {
                assert(src.data.deep_view()[i as int] == src.data@[i as int].deep_view());
                assert(cell_ok(src@.cells[i as int], DataType::String));
            }
            let cell = match &src.data[i] {
                Some(Scalar::Str(t)) => Some(Scalar::Str(replace_str(t.as_str(), from, to))),
                _ => None,
            };
            out.push(cell);
            i = i + 1;
        }
        let name = src.name.clone().concat("_replace");
        let r = Series { name, dtype: DataType::String, data: out, flags: SeriesFlags::new() };
        proof {
            assert forall|k: int| 0 <= k < r@.cells.len() implies #[trigger] r@.cells[k] == (
            match src@.cells[k] {
                Some(ScalarV::Str(t)) => Some(ScalarV::Str(replace_spec(t, from@, to@))),
                _ => None,
            }) && cell_ok(r@.cells[k], DataType::String) by {
                assert(r@.cells[k] == out@[k].deep_view());
            }
        }
        Ok(r)
    }

    /// Every text mapped to lowercase; the mapping is the standard
    /// library's and depends on each text alone.
    pub fn to_lowercase(&self) -> (r: AxionResult<Series>)
        requires
            self.series.wf(),
            self.series@.dtype == DataType::String,
        ensures
            r is Ok,
            r matches Ok(s) ==> {
                &&& s@.name == self.series@.name + "_lower"@
                &&& s@.dtype == DataType::String
                &&& s@.cells.len() == self.series@.cells.len()
                &&& (forall|i: int|
                    0 <= i < s@.cells.len() ==> #[trigger] s@.cells[i] == (
                    match self.series@.cells[i] {
                        Some(ScalarV::Str(t)) => Some(ScalarV::Str(lower_of(t))),
                        _ => None,
                    }))
                &&& s.wf()
            },
    {
        let src = self.series;
        let n = src.data.len();
        let mut out: Vec<Option<Scalar>> = Vec::new();
        let mut i: usize = 0;
        while i < n
            invariant
                0 <= i <= n,
                n == src@.cells.len(),
                src.wf(),
                src@.dtype == DataType::String,
                out@.len() == i,
                forall|k: int|
                    0 <= k < i ==> (#[trigger] out@[k]).deep_view() == (
                    match src@.cells[k] {
                        Some(ScalarV::Str(t)) => Some(ScalarV::Str(lower_of(t))),
                        _ => None,
                    }),
            decreases n - i,
        {
            proof {
                assert(src.data.deep_view()[i as int] == src.data@[i as int].deep_view());
                assert(cell_ok(src@.cells[i as int], DataType::String));
            }
            let cell = match &src.data[i] {
                Some(Scalar::Str(t)) => Some(Scalar::Str(to_lowercase_str(t.as_str()))),
                _ => None,
            };
            out.push(cell);
            i = i + 1;
        }
        let name = src.name.clone().concat("_lower");
        let r = Series { name, dtype: DataType::String, data: out, flags: SeriesFlags::new() };
        proof {
            assert forall|k: int| 0 <= k < r@.cells.len() implies #[trigger] r@.cells[k] == (
            match src@.cells[k] {
                Some(ScalarV::Str(t)) => Some(ScalarV::Str(lower_of(t))),
                _ => None,
            }) && cell_ok(r@.cells[k], DataType::String) by {
                assert(r@.cells[k] == out@[k].deep_view());
            }
        }
        Ok(r)
    }

    /// Every text mapped to uppercase.
    pub fn to_uppercase(&self) -> (r: AxionResult<Series>)
        requires
            self.series.wf(),
            self.series@.dtype == DataType::String,
        ensures
            r is Ok,
            r matches Ok(s) ==> {
                &&& s@.name == self.series@.name + "_upper"@
                &&& s@.dtype == DataType::String
                &&& s@.cells.len() == self.series@.cells.len()
                &&& (forall|i: int|
                    0 <= i < s@.cells.len() ==> #[trigger] s@.cells[i] == (
                    match self.series@.cells[i] {
                        Some(ScalarV::Str(t)) => Some(ScalarV::Str(upper_of(t))),
                        _ => None,
                    }))
                &&& s.wf()
            },
    {
        let src = self.series;
        let n = src.data.len();
        let mut out: Vec<Option<Scalar>> = Vec::new();
        let mut i: usize = 0;
        while i < n
            invariant
                0 <= i <= n,
                n == src@.cells.len(),
                src.wf(),
                src@.dtype == DataType::String,
                out@.len() == i,
                forall|k: int|
                    0 <= k < i ==> (#[trigger] out@[k]).deep_view() == (
                    match src@.cells[k] {
                        Some(ScalarV::Str(t)) => Some(ScalarV::Str(upper_of(t))),
                        _ => None,
                    }),
            decreases n - i,
        {
            proof {
                assert(src.data.deep_view()[i as int] == src.data@[i as int].deep_view());
                assert(cell_ok(src@.cells[i as int], DataType::String));
            }
            let cell = match &src.data[i] {
                Some(Scalar::Str(t)) => Some(Scalar::Str(to_uppercase_str(t.as_str()))),
                _ => None,
            };
            out.push(cell);
            i = i + 1;
        }
        let name = src.name.clone().concat("_upper");
        let r = Series { name, dtype: DataType::String, data: out, flags: SeriesFlags::new() };
        proof {
            assert forall|k: int| 0 <= k < r@.cells.len() implies #[trigger] r@.cells[k] == (
            match src@.cells[k] {
                Some(ScalarV::Str(t)) => Some(ScalarV::Str(upper_of(t))),
                _ => None,
            }) && cell_ok(r@.cells[k], DataType::String) by {
                assert(r@.cells[k] == out@[k].deep_view());
            }
        }
        Ok(r)
    }

    /// Every text without its leading and trailing whitespace.
    pub fn strip(&self) -> (r: AxionResult<Series>)
        requires
            self.series.wf(),
            self.series@.dtype == DataType::String,
        ensures
            r is Ok,
            r matches Ok(s) ==> {
                &&& s@.name == self.series@.name + "_strip"@
                &&& s@.dtype == DataType::String
                &&& s@.cells.len() == self.series@.cells.len()
                &&& (forall|i: int|
                    0 <= i < s@.cells.len() ==> #[trigger] s@.cells[i] == (
                    match self.series@.cells[i] {
                        Some(ScalarV::Str(t)) => Some(ScalarV::Str(trim_spec(t))),
                        _ => None,
                    }))
                &&& s.wf()
            },
    {
        self.strip_sides(true, true, "_strip")
    }

    /// Every text without its leading whitespace.
    pub fn lstrip(&self) -> (r: AxionResult<Series>)
        requires
            self.series.wf(),
            self.series@.dtype == DataType::String,
        ensures
            r is Ok,
            r matches Ok(s) ==> {
                &&& s@.name == self.series@.name + "_lstrip"@
                &&& s@.dtype == DataType::String
                &&& s@.cells.len() == self.series@.cells.len()
                &&& (forall|i: int|
                    0 <= i < s@.cells.len() ==> #[trigger] s@.cells[i] == (
                    match self.series@.cells[i] {
                        Some(ScalarV::Str(t)) => Some(ScalarV::Str(trim_start_spec(t))),
                        _ => None,
                    }))
                &&& s.wf()
            },
    {
        self.strip_sides(true, false, "_lstrip")
    }

    /// Every text without its trailing whitespace.
    pub fn rstrip(&self) -> (r: AxionResult<Series>)
        requires
            self.series.wf(),
            self.series@.dtype == DataType::String,
        ensures
            r is Ok,
            r matches Ok(s) ==> {
                &&& s@.name == self.series@.name + "_rstrip"@
                &&& s@.dtype == DataType::String
                &&& s@.cells.len() == self.series@.cells.len()
                &&& (forall|i: int|
                    0 <= i < s@.cells.len() ==> #[trigger] s@.cells[i] == (
                    match self.series@.cells[i] {
                        Some(ScalarV::Str(t)) => Some(ScalarV::Str(trim_end_spec(t))),
                        _ => None,
                    }))
                &&& s.wf()
            },
    {
        self.strip_sides(false, true, "_rstrip")
    }

    /// The shared pass of the trimming operators.
    fn strip_sides(&self, front: bool, back: bool, suffix: &str) -> (r: AxionResult<Series>)
        requires
            self.series.wf(),
            self.series@.dtype == DataType::String,
            front || back,
        ensures
            r is Ok,
            r matches Ok(s) ==> {
                &&& s@.name == self.series@.name + suffix@
                &&& s@.dtype == DataType::String
                &&& s@.cells.len() == self.series@.cells.len()
                &&& (forall|i: int|
                    0 <= i < s@.cells.len() ==> #[trigger] s@.cells[i] == (
                    match self.series@.cells[i] {
                        Some(ScalarV::Str(t)) => Some(
                            ScalarV::Str(
                                if front && back {
                                    trim_spec(t)
                                } else if front {
                                    trim_start_spec(t)
                                } else {
                                    trim_end_spec(t)
                                },
                            ),
                        ),
                        _ => None,
                    }))
                &&& s.wf()
            },
    {
        let src = self.series;
        let n = src.data.len();
        let mut out: Vec<Option<Scalar>> = Vec::new();
        let mut i: usize = 0;
        while i < n
            invariant
                0 <= i <= n,
                n == src@.cells.len(),
                src.wf(),
                src@.dtype == DataType::String,
                front || back,
                out@.len() == i,
                forall|k: int|
                    0 <= k < i ==> (#[trigger] out@[k]).deep_view() == (
                    match src@.cells[k] {
                        Some(ScalarV::Str(t)) => Some(
                            ScalarV::Str(
                                if front && back {
                                    trim_spec(t)
                                } else if front {
                                    trim_start_spec(t)
                                } else {
                                    trim_end_spec(t)
                                },
                            ),
                        ),
                        _ => None,
                    }),
            decreases n - i,
        {
            proof {
                assert(src.data.deep_view()[i as int] == src.data@[i as int].deep_view());
                assert(cell_ok(src@.cells[i as int], DataType::String));
            }
            let cell = match &src.data[i] {
                Some(Scalar::Str(t)) => Some(
                    Scalar::Str(String::from_str(trim_str(t.as_str(), front, back))),
                ),
                _ => None,
            };
            out.push(cell);
            i = i + 1;
        }
        let name = src.name.clone().concat(suffix);
        let r = Series { name, dtype: DataType::String, data: out, flags: SeriesFlags::new() };
        proof {
            assert forall|k: int| 0 <= k < r@.cells.len() implies #[trigger] r@.cells[k] == (
            match src@.cells[k] {
                Some(ScalarV::Str(t)) => Some(
                    ScalarV::Str(
                        if front && back {
                            trim_spec(t)
                        } else if front {
                            trim_start_spec(t)
                        } else {
                            trim_end_spec(t)
                        },
                    ),
                ),
                _ => None,
            }) && cell_ok(r@.cells[k], DataType::String) by {
                assert(r@.cells[k] == out@[k].deep_view());
            }
        }
        Ok(r)
    }
}

} // verus!
