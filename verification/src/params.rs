//! Parameter lists: numbers separated by commas.
//!
//! A list such as `3, -4` is cut at every comma; each piece is freed of the
//! white space around it and read as a decimal integer. A piece that is no
//! number of the wanted kind is reported by its place, and after that a
//! list with the wrong number of pieces by both counts.

use vstd::prelude::*;

verus! {

/// Why a parameter list was refused.
#[derive(Debug, Clone, Copy, PartialEq, Eq, Structural)]
pub enum ParamError {
    /// The piece at this place, counted from zero, is no number of the
    /// wanted kind.
    Malformed { field: usize },
    /// All pieces are numbers, but there are `found` of them, not `expected`.
    Count { expected: usize, found: usize },
}

/// Whether `c` is white space: a character that Unicode classes as
/// White_Space.
pub open spec fn is_space(c: char) -> bool {
    let u = c as u32;
    ||| 0x09 <= u <= 0x0D
    ||| u == 0x20
    ||| u == 0x85
    ||| u == 0xA0
    ||| u == 0x1680
    ||| 0x2000 <= u <= 0x200A
    ||| u == 0x2028
    ||| u == 0x2029
    ||| u == 0x202F
    ||| u == 0x205F
    ||| u == 0x3000
}

/// `s` without the white space at its start.
pub open spec fn skip_leading(s: Seq<char>) -> Seq<char>
    decreases s.len(),
{
    if s.len() > 0 && is_space(s[0]) {
        skip_leading(s.drop_first())
    } else {
        s
    }
}

/// `s` without the white space at its end.
pub open spec fn skip_trailing(s: Seq<char>) -> Seq<char>
    decreases s.len(),
{
    if s.len() > 0 && is_space(s.last()) {
        skip_trailing(s.drop_last())
    } else {
        s
    }
}

/// `s` without the white space at either end.
pub open spec fn trimmed(s: Seq<char>) -> Seq<char> {
    skip_trailing(skip_leading(s))
}

/// The pieces between the commas of `s`, in order: one more than there are
/// commas, so the empty text has one empty piece.
pub open spec fn pieces(s: Seq<char>) -> Seq<Seq<char>>
    decreases s.len(),
{
    if s.len() == 0 {
        seq![Seq::<char>::empty()]
    } else {
        let before = pieces(s.drop_last());
        if s.last() == ',' {
            before.push(Seq::<char>::empty())
        } else {
            before.drop_last().push(before.last().push(s.last()))
        }
    }
}

/// The trimmed pieces of `s`.
pub open spec fn fields(s: Seq<char>) -> Seq<Seq<char>> {
    pieces(s).map_values(|piece: Seq<char>| trimmed(piece))
}

/// Whether `c` is one of the digits 0 to 9.
pub open spec fn is_digit(c: char) -> bool {
    0x30 <= c as u32 <= 0x39
}

/// The number that a row of digits spells in base ten.
pub open spec fn decimal(s: Seq<char>) -> int
    decreases s.len(),
{
    if s.len() == 0 {
        0
    } else {
        10 * decimal(s.drop_last()) + (s.last() as u32 - 0x30)
    }
}

/// The number that a non-empty row of digits spells; nothing else is a number.
pub open spec fn magnitude(s: Seq<char>) -> Option<int> {
    if s.len() > 0 && (forall|i: int| 0 <= i < s.len() ==> is_digit(#[trigger] s[i])) {
        Some(decimal(s))
    } else {
        None
    }
}

/// The integer that `s` spells: digits, with `+` allowed in front, and `-`
/// where negative numbers are wanted.
pub open spec fn integer(s: Seq<char>, signed: bool) -> Option<int> {
    if s.len() > 0 && s[0] == '+' {
        magnitude(s.drop_first())
    } else if signed && s.len() > 0 && s[0] == '-' {
        match magnitude(s.drop_first()) {
            Some(m) => Some(-m),
            None => None,
        }
    } else {
        magnitude(s)
    }
}

/// The integer that `s` spells, where it lies between `min` and `max`.
pub open spec fn number(s: Seq<char>, signed: bool, min: int, max: int) -> Option<int> {
    match integer(s, signed) {
        Some(v) => if min <= v <= max {
            Some(v)
        } else {
            None
        },
        None => None,
    }
}

/// Whether `r` is what a list of trimmed pieces is read as when `expected`
/// numbers between `min` and `max` are wanted: the first piece that is no
/// such number is an error; if there is none, a wrong count is; else the
/// numbers are the result.
pub open spec fn reads_as(
    fields: Seq<Seq<char>>,
    signed: bool,
    min: int,
    max: int,
    expected: nat,
    r: Result<Seq<int>, ParamError>,
) -> bool {
    match r {
        Ok(values) => {
            &&& fields.len() == expected
            &&& values.len() == expected
            &&& forall|i: int|
                0 <= i < fields.len() ==> number(#[trigger] fields[i], signed, min, max) == Some(
                    values[i],
                )
        },
        Err(ParamError::Malformed { field }) => {
            &&& field < fields.len()
            &&& number(fields[field as int], signed, min, max) is None
            &&& forall|i: int|
                0 <= i < field ==> number(#[trigger] fields[i], signed, min, max) is Some
        },
        Err(ParamError::Count { expected: wanted, found }) => {
            &&& wanted == expected
            &&& found == fields.len()
            &&& found != expected
            &&& forall|i: int|
                0 <= i < fields.len() ==> number(#[trigger] fields[i], signed, min, max) is Some
        },
    }
}

/// The largest magnitude that a wanted number can have: two to the power 64.
pub const LIMIT: i128 = 0x1_0000_0000_0000_0000;

/// Whether `c` is white space.
pub fn char_is_space(c: char) -> (r: bool)
    ensures
        r == is_space(c),
{
    let u: u32 = c as u32;
    (0x09 <= u && u <= 0x0D) || u == 0x20 || u == 0x85 || u == 0xA0 || u == 0x1680 || (0x2000 <= u
        && u <= 0x200A) || u == 0x2028 || u == 0x2029 || u == 0x202F || u == 0x205F || u == 0x3000
}

/// The characters of `s`.
fn chars_of(s: &str) -> (v: Vec<char>)
    ensures
        v@ == s@,
{
    let n = s.unicode_len();
    let mut v: Vec<char> = Vec::new();
    let mut i: usize = 0;
    while i < n
        invariant
            n == s@.len(),
            i <= n,
            v@ == s@.subrange(0, i as int),
        decreases n - i,
    {
        v.push(s.get_char(i));
        assert(v@ =~= s@.subrange(0, i + 1));
        i += 1;
    }
    assert(v@ =~= s@);
    v
}

/// The ends of what is left of `v[lo..hi]` without the white space at
/// either end.
fn trim_range(v: &Vec<char>, lo: usize, hi: usize) -> (r: (usize, usize))
    requires
        lo <= hi <= v.len(),
    ensures
        lo <= r.0 <= r.1 <= hi,
        v@.subrange(r.0 as int, r.1 as int) == trimmed(v@.subrange(lo as int, hi as int)),
{
    let mut a: usize = lo;
    while a < hi && char_is_space(v[a])
        invariant
            lo <= a <= hi <= v.len(),
            skip_leading(v@.subrange(a as int, hi as int)) == skip_leading(
                v@.subrange(lo as int, hi as int),
            ),
        decreases hi - a,
    {
        assert(v@.subrange(a as int, hi as int).drop_first() =~= v@.subrange(a + 1, hi as int));
        a += 1;
    }
    assert(skip_leading(v@.subrange(a as int, hi as int)) == v@.subrange(a as int, hi as int));
    let mut b: usize = hi;
    while a < b && char_is_space(v[b - 1])
        invariant
            a <= b <= hi <= v.len(),
            skip_trailing(v@.subrange(a as int, b as int)) == skip_trailing(
                v@.subrange(a as int, hi as int),
            ),
        decreases b - a,
    {
        assert(v@.subrange(a as int, b as int).drop_last() =~= v@.subrange(a as int, b - 1));
        b -= 1;
    }
    assert(skip_trailing(v@.subrange(a as int, b as int)) == v@.subrange(a as int, b as int));
    (a, b)
}

/// A copy of `v[lo..hi]`.
fn copy_range(v: &Vec<char>, lo: usize, hi: usize) -> (r: Vec<char>)
    requires
        lo <= hi <= v.len(),
    ensures
        r@ == v@.subrange(lo as int, hi as int),
{
    let mut r: Vec<char> = Vec::new();
    let mut i: usize = lo;
    while i < hi
        invariant
            lo <= i <= hi <= v.len(),
            r@ == v@.subrange(lo as int, i as int),
        decreases hi - i,
    {
        r.push(v[i]);
        assert(r@ =~= v@.subrange(lo as int, i + 1));
        i += 1;
    }
    r
}

/// The pieces between the commas of `s`, each without the white space
/// around it.
pub fn split_fields(s: &str) -> (r: Vec<Vec<char>>)
    ensures
        r.len() == fields(s@).len(),
        forall|i: int| 0 <= i < r.len() ==> (#[trigger] r[i])@ == fields(s@)[i],
{
    let v = chars_of(s);
    let n = v.len();
    let mut out: Vec<Vec<char>> = Vec::new();
    let mut start: usize = 0;
    let mut i: usize = 0;
    assert(v@.take(0) =~= Seq::<char>::empty());
    assert(pieces(v@.take(0)) =~= seq![v@.subrange(0, 0)]);
    while i < n
        invariant
            v@ == s@,
            n == v.len(),
            start <= i <= n,
            pieces(v@.take(i as int)).len() == out.len() + 1,
            pieces(v@.take(i as int)).last() == v@.subrange(start as int, i as int),
            forall|j: int|
                0 <= j < out.len() ==> (#[trigger] out[j])@ == trimmed(
                    pieces(v@.take(i as int))[j],
                ),
        decreases n - i,
    {
        let ghost before = pieces(v@.take(i as int));
        assert(v@.take(i + 1).drop_last() =~= v@.take(i as int));
        assert(v@.take(i + 1).last() == v@[i as int]);
        if v[i] == ',' {
            let (a, b) = trim_range(&v, start, i);
            out.push(copy_range(&v, a, b));
            start = i + 1;
            assert(pieces(v@.take(i + 1)) == before.push(Seq::<char>::empty()));
            assert(v@.subrange(start as int, i + 1) =~= Seq::<char>::empty());
        } else {
            assert(pieces(v@.take(i + 1)) == before.drop_last().push(
                before.last().push(v@[i as int]),
            ));
            assert(v@.subrange(start as int, i as int).push(v@[i as int]) =~= v@.subrange(
                start as int,
                i + 1,
            ));
        }
        i += 1;
    }
    assert(v@.take(n as int) =~= v@);
    let (a, b) = trim_range(&v, start, n);
    out.push(copy_range(&v, a, b));
    out
}

/// Reads `field` as a decimal integer between `min` and `max`.
pub fn parse_number(field: &Vec<char>, signed: bool, min: i128, max: i128) -> (r: Option<i128>)
    requires
        -LIMIT <= min <= 0 <= max <= LIMIT,
    ensures
        match r {
            Some(v) => number(field@, signed, min as int, max as int) == Some(v as int),
            None => number(field@, signed, min as int, max as int) is None,
        },
{
    let n = field.len();
    let negative = signed && n > 0 && field[0] == '-';
    let start: usize = if n > 0 && (field[0] == '+' || negative) { 1 } else { 0 };
    let ghost digits = field@.subrange(start as int, n as int);
    proof {
        if start == 1 {
            assert(digits =~= field@.drop_first());
        } else {
            assert(digits =~= field@);
        }
        assert(integer(field@, signed) == match magnitude(digits) {
            Some(value) => Some(if negative { -value } else { value }),
            None => None,
        });
    }
    let mut m: i128 = 0;
    let mut over = false;
    let mut i: usize = start;
    assert(field@.subrange(start as int, start as int) =~= Seq::<char>::empty());
    while i < n
        invariant
            start <= i <= n,
            n == field.len(),
            digits == field@.subrange(start as int, n as int),
            integer(field@, signed) == match magnitude(digits) {
                Some(value) => Some(if negative { -value } else { value }),
                None => None,
            },
            forall|j: int| start <= j < i ==> is_digit(#[trigger] field@[j]),
            0 <= decimal(field@.subrange(start as int, i as int)),
            !over ==> 0 <= m <= LIMIT && m == decimal(field@.subrange(start as int, i as int)),
            over ==> decimal(field@.subrange(start as int, i as int)) > LIMIT,
        decreases n - i,
    {
        let c: u32 = field[i] as u32;
        if c < 0x30 || c > 0x39 {
            proof {
                assert(digits[i - start] == field@[i as int]);
                assert(!is_digit(digits[i - start]));
            }
            return None;
        }
        proof {
            assert(field@.subrange(start as int, i + 1).drop_last() =~= field@.subrange(
                start as int,
                i as int,
            ));
        }
        if !over {
            m = 10 * m + (c - 0x30) as i128;
            if m > LIMIT {
                over = true;
            }
        }
        i += 1;
    }
    if i == start {
        return None;
    }
    proof {
        assert(field@.subrange(start as int, n as int) == digits);
        assert forall|j: int| 0 <= j < digits.len() implies is_digit(#[trigger] digits[j]) by {
            assert(digits[j] == field@[start + j]);
        }
        assert(magnitude(digits) == Some(decimal(digits)));
    }
    if over {
        return None;
    }
    let v: i128 = if negative { -m } else { m };
    if min <= v && v <= max {
        Some(v)
    } else {
        None
    }
}

/// Reads `s` as a list of `expected` integers between `min` and `max`.
pub fn parse_list(
    s: &str,
    signed: bool,
    min: i128,
    max: i128,
    expected: usize,
) -> (r: Result<Vec<i128>, ParamError>)
    requires
        -LIMIT <= min <= 0 <= max <= LIMIT,
    ensures
        match r {
            Ok(values) => reads_as(
                fields(s@),
                signed,
                min as int,
                max as int,
                expected as nat,
                Ok(values@.map_values(|v: i128| v as int)),
            ),
            Err(e) => reads_as(
                fields(s@),
                signed,
                min as int,
                max as int,
                expected as nat,
                Err(e),
            ),
        },
{
    let texts = split_fields(s);
    let mut values: Vec<i128> = Vec::new();
    let mut i: usize = 0;
    while i < texts.len()
        invariant
            i <= texts.len(),
            texts.len() == fields(s@).len(),
            forall|j: int| 0 <= j < texts.len() ==> (#[trigger] texts[j])@ == fields(s@)[j],
            -LIMIT <= min <= 0 <= max <= LIMIT,
            values.len() == i,
            forall|j: int|
                0 <= j < i ==> number(#[trigger] fields(s@)[j], signed, min as int, max as int)
                    == Some(values[j] as int),
        decreases texts.len() - i,
    {
        match parse_number(&texts[i], signed, min, max) {
            Some(v) => {
                values.push(v);
            },
            None => {
                return Err(ParamError::Malformed { field: i });
            },
        }
        i += 1;
    }
    if texts.len() != expected {
        return Err(ParamError::Count { expected, found: texts.len() });
    }
    Ok(values)
}

/// Whether a list of `found` numbers has the `expected` length.
pub fn check_count(found: usize, expected: usize) -> (r: Result<(), ParamError>)
    ensures
        found == expected ==> r is Ok,
        found != expected ==> r == Err::<(), ParamError>(ParamError::Count { expected, found }),
{
    if found == expected {
        Ok(())
    } else {
        Err(ParamError::Count { expected, found })
    }
}

/// Reads an offset: two integers `x, y`.
pub fn parse_offset(s: &str) -> (r: Result<[isize; 2], ParamError>)
    ensures
        match r {
            Ok(a) => reads_as(
                fields(s@),
                true,
                isize::MIN as int,
                isize::MAX as int,
                2,
                Ok(seq![a@[0] as int, a@[1] as int]),
            ),
            Err(e) => reads_as(fields(s@), true, isize::MIN as int, isize::MAX as int, 2, Err(e)),
        },
{
    match parse_list(s, true, isize::MIN as i128, isize::MAX as i128, 2) {
        Ok(values) => {
            let a: [isize; 2] = [values[0] as isize, values[1] as isize];
            Ok(a)
        },
        Err(e) => Err(e),
    }
}

/// Reads output dimensions: two integers `width, height`, neither negative.
pub fn parse_dims(s: &str) -> (r: Result<[usize; 2], ParamError>)
    ensures
        match r {
            Ok(a) => reads_as(
                fields(s@),
                false,
                0,
                usize::MAX as int,
                2,
                Ok(seq![a@[0] as int, a@[1] as int]),
            ),
            Err(e) => reads_as(fields(s@), false, 0, usize::MAX as int, 2, Err(e)),
        },
{
    match parse_list(s, false, 0, usize::MAX as i128, 2) {
        Ok(values) => {
            let a: [usize; 2] = [values[0] as usize, values[1] as usize];
            Ok(a)
        },
        Err(e) => Err(e),
    }
}

/// Reads a colour: four integers `r, g, b, a`, each from 0 to 255.
pub fn parse_background(s: &str) -> (r: Result<[u8; 4], ParamError>)
    ensures
        match r {
            Ok(a) => reads_as(
                fields(s@),
                false,
                0,
                255,
                4,
                Ok(seq![a@[0] as int, a@[1] as int, a@[2] as int, a@[3] as int]),
            ),
            Err(e) => reads_as(fields(s@), false, 0, 255, 4, Err(e)),
        },
{
    match parse_list(s, false, 0, 255, 4) {
        Ok(values) => {
            let a: [u8; 4] = [values[0] as u8, values[1] as u8, values[2] as u8, values[3] as u8];
            Ok(a)
        },
        Err(e) => Err(e),
    }
}

/// The pieces put together again, with a comma between neighbours.
pub open spec fn joined(parts: Seq<Seq<char>>) -> Seq<char>
    decreases parts.len(),
{
    if parts.len() == 0 {
        Seq::<char>::empty()
    } else if parts.len() == 1 {
        parts[0]
    } else {
        joined(parts.drop_last()) + seq![','] + parts.last()
    }
}

/// The pieces of a text hold no comma, and joined by commas they are the
/// text again.
pub proof fn law_pieces_rejoin(s: Seq<char>)
    ensures
        pieces(s).len() >= 1,
        joined(pieces(s)) == s,
        forall|i: int, j: int|
            0 <= i < pieces(s).len() && 0 <= j < pieces(s)[i].len() ==> #[trigger] pieces(
                s,
            )[i][j] != ',',
    decreases s.len(),
{
    if s.len() > 0 {
        let t = s.drop_last();
        let c = s.last();
        let b = pieces(t);
        let p = pieces(s);
        law_pieces_rejoin(t);
        assert(t.push(c) =~= s);
        if c == ',' {
            assert(p.drop_last() =~= b);
            assert(joined(p) =~= t.push(c));
        } else {
            if b.len() > 1 {
                assert(p.drop_last() =~= b.drop_last());
                assert(joined(p) =~= joined(b).push(c));
            }
            assert(joined(p) =~= t.push(c));
            assert forall|i: int, j: int| 0 <= i < p.len() && 0 <= j < p[i].len() implies #[trigger] p[i][j]
                != ',' by {
                if i < p.len() - 1 {
                    assert(p[i] == b[i]);
                } else if j < b.last().len() {
                    assert(p[i][j] == b[i][j]);
                }
            }
        }
    }
}

/// What `skip_leading` leaves is empty or starts with no white space.
proof fn lemma_leading_skipped(s: Seq<char>)
    ensures
        skip_leading(s).len() > 0 ==> !is_space(skip_leading(s)[0]),
    decreases s.len(),
{
    if s.len() > 0 && is_space(s[0]) {
        lemma_leading_skipped(s.drop_first());
    }
}

/// What `skip_trailing` leaves is a start of the text, and is empty or ends
/// with no white space.
proof fn lemma_trailing_skipped(s: Seq<char>)
    ensures
        skip_trailing(s).len() <= s.len(),
        skip_trailing(s) == s.take(skip_trailing(s).len() as int),
        skip_trailing(s).len() > 0 ==> !is_space(skip_trailing(s).last()),
    decreases s.len(),
{
    if s.len() > 0 && is_space(s.last()) {
        let t = s.drop_last();
        lemma_trailing_skipped(t);
        assert(t.take(skip_trailing(t).len() as int) =~= s.take(skip_trailing(t).len() as int));
    } else {
        assert(s.take(s.len() as int) =~= s);
    }
}

/// A trimmed text is empty or has no white space at either end.
pub proof fn law_trimmed_ends_bare(s: Seq<char>)
    ensures
        trimmed(s).len() > 0 ==> !is_space(trimmed(s).first()) && !is_space(trimmed(s).last()),
{
    lemma_leading_skipped(s);
    lemma_trailing_skipped(skip_leading(s));
}

} // verus!
