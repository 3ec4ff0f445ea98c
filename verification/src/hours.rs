//! The hours that a work record declares.
use vstd::arithmetic::power2::{
    lemma2_to64, lemma2_to64_rest, lemma_pow2_adds, lemma_pow2_pos, lemma_pow2_strictly_increases,
    lemma_pow2_unfold, pow2,
};
use vstd::prelude::*;
use vstd::slice::slice_subrange;

use crate::double::{
    double_exists, double_is_positive, double_is_unique, halves_are_near, is_double, is_near,
    near_integer, nearest_double, number_of_below, number_of_concat, pow10, pow10_positive, twice_by_decimals,
    twice_by_hundredths, twice_is_near_integer,
};
use crate::failure::Failure;
use crate::text::{
    all_white, begins_with, chars_of, decimal, decimal_reads_back, digit, first_index,
    first_index_is, is_digit, is_digits, is_white, lines_have_no_breaks, lines_of, number_of,
    part_at, read_digits, slices, split_lines, text_of, trim, trim_start, trim_start_leaves_a_tail,
    trim_start_takes_white, trimmed, trimmed_text_has_white_around,
    trimming_takes_the_white_around,
};

verus! {

// ---------------------------------------------------------------------------
// Numerals
// ---------------------------------------------------------------------------
/// The number of digits at the start of `s`.
pub open spec fn digit_run(s: Seq<char>) -> int
    decreases s.len(),
{
    if s.len() > 0 && is_digit(s[0]) {
        1 + digit_run(s.drop_first())
    } else {
        0
    }
}

/// The length of the numeral at the start of `s`: digits, and a point with digits behind it if
/// they follow.
pub open spec fn numeral_length(s: Seq<char>) -> int {
    let d = digit_run(s);
    if d > 0 && d < s.len() && s[d] == '.' && digit_run(s.skip(d + 1)) > 0 {
        d + 1 + digit_run(s.skip(d + 1))
    } else {
        d
    }
}

/// Whether a text is a numeral: digits, perhaps with a point and more digits behind it.
pub open spec fn is_numeral(s: Seq<char>) -> bool {
    s.len() > 0 && numeral_length(s) == s.len()
}

/// The digits of a numeral before its point.
pub open spec fn whole_digits(numeral: Seq<char>) -> Seq<char> {
    numeral.take(first_index(numeral, '.'))
}

/// The digits of a numeral behind its point.
pub open spec fn fraction_digits(numeral: Seq<char>) -> Seq<char> {
    let k = first_index(numeral, '.');
    if 0 <= k < numeral.len() {
        numeral.skip(k + 1)
    } else {
        seq![]
    }
}

/// The power of ten that the digits behind the point of a numeral are counted in.
pub open spec fn unit_of(numeral: Seq<char>) -> int {
    pow10(fraction_digits(numeral).len() as int)
}

/// The number that a numeral denotes, counted in that unit.
pub open spec fn units_of(numeral: Seq<char>) -> int {
    number_of(whole_digits(numeral)) * unit_of(numeral) + number_of(fraction_digits(numeral))
}

/// Whether a numeral denotes more than nothing in double precision, where a number of no more
/// than `2^-1075` is nothing.
pub open spec fn is_positive(numeral: Seq<char>) -> bool {
    units_of(numeral) * pow2(1075) > unit_of(numeral)
}

/// Whether a numeral denotes a multiple of one half: twice the double precision number nearest to
/// it is no further than a billionth from an integer. From `2^53` on, all double precision
/// numbers are integers.
pub open spec fn in_half_hours(numeral: Seq<char>) -> bool {
    ||| units_of(numeral) >= pow2(53) * unit_of(numeral)
    ||| exists|m: int, k: nat| #[trigger]
        is_double(units_of(numeral), unit_of(numeral), m, k) && near_integer(m, k)
}

/// Skips white space from index `i` on.
fn skip_white(s: &[char], i: usize) -> (r: usize)
    requires
        i <= s@.len(),
    ensures
        i <= r <= s@.len(),
        s@.skip(r as int) == trim_start(s@.skip(i as int)),
{
    let mut k: usize = i;
    while k < s.len() && s[k].is_whitespace()
        invariant
            i <= k <= s@.len(),
            trim_start(s@.skip(i as int)) == trim_start(s@.skip(k as int)),
        decreases s@.len() - k,
    {
        assert(s@.skip(k as int).drop_first() =~= s@.skip(k + 1));
        k += 1;
    }
    k
}

/// Skips digits from index `i` on.
fn skip_digits(s: &[char], i: usize) -> (r: usize)
    requires
        i <= s@.len(),
    ensures
        i <= r <= s@.len(),
        r - i == digit_run(s@.skip(i as int)),
        forall|j: int| i <= j < r ==> is_digit(#[trigger] s@[j]),
{
    let mut k: usize = i;
    while k < s.len() && digit(s[k])
        invariant
            i <= k <= s@.len(),
            digit_run(s@.skip(i as int)) == k - i + digit_run(s@.skip(k as int)),
            forall|j: int| i <= j < k ==> is_digit(#[trigger] s@[j]),
        decreases s@.len() - k,
    {
        assert(s@.skip(k as int).drop_first() =~= s@.skip(k + 1));
        k += 1;
    }
    k
}

/// Finds the numeral at index `i`: where the digits before its point end, and where it ends.
fn skip_numeral(s: &[char], i: usize) -> (r: (usize, usize))
    requires
        i <= s@.len(),
    ensures
        i <= r.0 <= r.1 <= s@.len(),
        r.1 - i == numeral_length(s@.skip(i as int)),
        r.0 == i ==> r.1 == i,
        forall|j: int| i <= j < r.0 ==> is_digit(#[trigger] s@[j]),
        r.0 < r.1 ==> s@[r.0 as int] == '.',
        forall|j: int| r.0 < j < r.1 ==> is_digit(#[trigger] s@[j]),
{
    let d = skip_digits(s, i);
    let mut e: usize = d;
    if d > i && d < s.len() && s[d] == '.' {
        assert(s@.skip(i as int).skip(d - i + 1) =~= s@.skip(d + 1));
        let x = skip_digits(s, d + 1);
        if x > d + 1 {
            e = x;
        }
    }
    (d, e)
}

/// What is known of a numeral: whether it denotes more than nothing, and whether it denotes a
/// multiple of one half.
fn weigh_numeral(s: &[char], whole_end: usize) -> (r: (bool, bool))
    requires
        0 < whole_end <= s@.len(),
        forall|j: int| 0 <= j < whole_end ==> is_digit(#[trigger] s@[j]),
        whole_end < s@.len() ==> s@[whole_end as int] == '.',
        forall|j: int| whole_end < j < s@.len() ==> is_digit(#[trigger] s@[j]),
    ensures
        r.0 == is_positive(s@),
        r.1 == in_half_hours(s@),
{
    let len: usize = s.len();
    let whole = slice_subrange(s, 0, whole_end);
    let from: usize = if whole_end < len {
        whole_end + 1
    } else {
        len
    };
    let fraction = slice_subrange(s, from, len);
    let ghost n = units_of(s@);
    let ghost p = unit_of(s@);
    proof {
        assert forall|i: int| 0 <= i < whole_end implies s@[i] != '.' by {
            assert(is_digit(s@[i]));
        }
        first_index_is(s@, '.', whole_end as int);
        assert(whole@ =~= whole_digits(s@));
        assert(fraction@ =~= fraction_digits(s@));
        assert forall|i: int| 0 <= i < whole@.len() implies is_digit(#[trigger] whole@[i]) by {
            assert(is_digit(s@[i]));
        }
        assert forall|i: int| 0 <= i < fraction@.len() implies is_digit(
            #[trigger] fraction@[i],
        ) by {
            assert(is_digit(s@[from + i]));
        }
        number_of_below(whole@);
        number_of_below(fraction@);
        pow10_positive(fraction@.len() as int);
        lemma2_to64_rest();
        let w = number_of(whole@);
        assert(w * p >= 0) by (nonlinear_arith)
            requires
                w >= 0,
                p >= 1,
        ;
    }
    match read_digits(whole, 0x1f_ffff_ffff_ffff) {
        None => {
            proof {
                let w = number_of(whole@);
                let b = pow2(53) as int;
                assert(w * p >= b * p) by (nonlinear_arith)
                    requires
                        w >= b,
                        p >= 1,
                ;
                lemma_pow2_unfold(1075);
                lemma_pow2_pos(1074);
                let x = pow2(1075) as int;
                assert(n * x > p) by (nonlinear_arith)
                    requires
                        n >= b * p,
                        b >= 2,
                        x >= 2,
                        p >= 1,
                ;
            }
            (true, true)
        },
        Some(w) => {
            let (m, k) = nearest_double(w, fraction);
            proof {
                double_is_positive(n, p, m as int, k as nat);
                lemma_pow2_pos(k as nat);
                let x = pow2(k as nat) as int;
                assert(n <= n * x) by (nonlinear_arith)
                    requires
                        n >= 0,
                        x >= 1,
                ;
                assert forall|m2: int, k2: nat| #[trigger]
                    is_double(n, p, m2, k2) && near_integer(m2, k2) implies near_integer(
                    m as int,
                    k as nat,
                ) by {
                    double_is_unique(n, p, m as int, k as nat, m2, k2);
                }
            }
            (m > 0, twice_is_near_integer(m, k))
        },
    }
}

/// A number without its sign.
pub open spec fn unsigned_part(text: Seq<char>) -> Seq<char> {
    if text.len() > 0 && text[0] == '-' {
        text.drop_first()
    } else {
        text
    }
}

/// Whether a text denotes a multiple of one half, perhaps a negative one.
pub open spec fn denotes_half_hours(text: Seq<char>) -> bool {
    is_numeral(unsigned_part(text)) && in_half_hours(unsigned_part(text))
}

/// Tells whether a text denotes a multiple of one half.
pub fn is_in_half_hours(text: &str) -> (r: bool)
    ensures
        r == denotes_half_hours(text@),
{
    let chars = chars_of(text);
    let all = chars.as_slice();
    let len: usize = all.len();
    let from: usize = if len > 0 && all[0] == '-' {
        1
    } else {
        0
    };
    let s = slice_subrange(all, from, len);
    assert(s@ =~= unsigned_part(text@));
    assert(s@.skip(0) =~= s@);
    let (whole_end, end) = skip_numeral(s, 0);
    if end == 0 || end < s.len() {
        return false;
    }
    let (_, halves) = weigh_numeral(s, whole_end);
    halves
}

// ---------------------------------------------------------------------------
// Declarations
// ---------------------------------------------------------------------------
/// Whether nothing but the letter h follows, with white space allowed around it.
pub open spec fn unit_follows(s: Seq<char>) -> bool {
    let t = trimmed(s);
    t.len() == 0 || (t.len() == 1 && (t[0] == 'h' || t[0] == 'H'))
}

/// The numeral of the declaration of hours that a line is: the words for hours, a colon, a
/// numeral and perhaps the letter h, with white space allowed around each.
pub open spec fn declaration(line: Seq<char>) -> Option<Seq<char>> {
    let a = trim_start(line);
    let b = trim_start(a.skip(2));
    let c = trim_start(b.skip(1));
    let n = numeral_length(c);
    if begins_with(a, "工时"@) && b.len() > 0 && (b[0] == ':' || b[0] == '：') && n > 0
        && unit_follows(c.skip(n)) {
        Some(c.take(n))
    } else {
        None
    }
}

/// The numeral of the first of some lines that is a declaration of hours.
pub open spec fn declared_in(lines: Seq<Seq<char>>) -> Option<Seq<char>>
    decreases lines.len(),
{
    if lines.len() == 0 {
        None
    } else if declaration(lines[0]) is Some {
        declaration(lines[0])
    } else {
        declared_in(lines.drop_first())
    }
}

/// The hours that a text declares: those of its first line that is a declaration.
pub open spec fn declared_hours(text: Seq<char>) -> Option<Seq<char>> {
    declared_in(lines_of(text))
}

/// Why the declaration of hours in a text is not accepted, if it is not.
pub open spec fn hours_refusal(text: Seq<char>) -> Option<Failure> {
    match declared_hours(text) {
        None => Some(Failure::NoWorkhour),
        Some(numeral) => if !is_positive(numeral) {
            Some(Failure::WorkhourNotPositive)
        } else if !in_half_hours(numeral) {
            Some(Failure::WorkhourIncrement)
        } else {
            None
        },
    }
}

/// Reads the declaration of hours that a line is: where its numeral starts, where the digits
/// before the point end, and where the numeral ends.
fn read_declaration(s: &[char]) -> (r: Option<(usize, usize, usize)>)
    ensures
        match r {
            Some(t) => {
                &&& t.0 < t.1 <= t.2 <= s@.len()
                &&& declaration(s@) == Some(s@.subrange(t.0 as int, t.2 as int))
                &&& forall|j: int| t.0 <= j < t.1 ==> is_digit(#[trigger] s@[j])
                &&& t.1 < t.2 ==> s@[t.1 as int] == '.'
                &&& forall|j: int| t.1 < j < t.2 ==> is_digit(#[trigger] s@[j])
            },
            None => declaration(s@) is None,
        },
{
    let word = chars_of("工时");
    assert(s@.skip(0) =~= s@);
    let a = skip_white(s, 0);
    proof {
        reveal_strlit("工时");
        let rest = s@.skip(a as int);
        if word@.len() <= rest.len() {
            assert(rest.subrange(0, word@.len() as int) =~= s@.subrange(
                a as int,
                a + word@.len(),
            ));
        }
    }
    if !part_at(s, word.as_slice(), a) {
        return None;
    }
    let len: usize = s.len();
    assert(a + 2 <= len);
    assert(s@.skip(a as int).skip(2) =~= s@.skip(a + 2));
    let b = skip_white(s, a + 2);
    if b == s.len() || (s[b] != ':' && s[b] != '：') {
        return None;
    }
    assert(s@.skip(b as int).skip(1) =~= s@.skip(b + 1));
    let c = skip_white(s, b + 1);
    let (d, e) = skip_numeral(s, c);
    if e == c {
        return None;
    }
    assert(s@.skip(c as int).skip(e - c) =~= s@.skip(e as int));
    assert(s@.skip(c as int).take(e - c) =~= s@.subrange(c as int, e as int));
    let after = slice_subrange(s, e, len);
    assert(after@ =~= s@.skip(e as int));
    let unit = trim(after);
    if unit.len() == 0 || (unit.len() == 1 && (unit[0] == 'h' || unit[0] == 'H')) {
        Some((c, d, e))
    } else {
        None
    }
}

/// Reads the hours that a work record declares, as the numeral that stands there.
pub fn parse_workhour(text: &str) -> (r: Result<String, Failure>)
    ensures
        match r {
            Ok(numeral) => hours_refusal(text@) is None && declared_hours(text@) == Some(numeral@),
            Err(e) => hours_refusal(text@) == Some(e),
        },
{
    let chars = chars_of(text);
    let list = split_lines(chars.as_slice());
    let ghost lines = lines_of(text@);
    let mut i: usize = 0;
    assert(lines.skip(0) =~= lines);
    while i < list.len()
        invariant
            i <= list@.len(),
            lines == slices(list@),
            lines == lines_of(text@),
            declared_hours(text@) == declared_in(lines.skip(i as int)),
        decreases list@.len() - i,
    {
        let s = list[i];
        assert(lines.skip(i as int)[0] == s@);
        assert(lines.skip(i as int).drop_first() =~= lines.skip(i + 1));
        if let Some(t) = read_declaration(s) {
            let numeral = slice_subrange(s, t.0, t.2);
            proof {
                assert forall|j: int| 0 <= j < t.1 - t.0 implies is_digit(
                    #[trigger] numeral@[j],
                ) by {
                    assert(is_digit(s@[t.0 + j]));
                }
                assert forall|j: int| t.1 - t.0 < j < numeral@.len() implies is_digit(
                    #[trigger] numeral@[j],
                ) by {
                    assert(is_digit(s@[t.0 + j]));
                }
            }
            let (positive, halves) = weigh_numeral(numeral, t.1 - t.0);
            if !positive {
                return Err(Failure::WorkhourNotPositive);
            }
            if !halves {
                return Err(Failure::WorkhourIncrement);
            }
            return Ok(text_of(numeral));
        }
        i += 1;
    }
    Err(Failure::NoWorkhour)
}

// ---------------------------------------------------------------------------
// What holds of declarations
// ---------------------------------------------------------------------------
/// A declaration of hours stands within one line: what a text declares, one of its lines does,
/// and the first that does counts.
pub proof fn declaration_stands_in_one_line(text: Seq<char>)
    ensures
        match declared_hours(text) {
            Some(numeral) => exists|i: int|
                {
                    &&& 0 <= i < lines_of(text).len()
                    &&& declaration(#[trigger] lines_of(text)[i]) == Some(numeral)
                    &&& !lines_of(text)[i].contains('\n')
                    &&& forall|j: int|
                        0 <= j < i ==> declaration(#[trigger] lines_of(text)[j]) is None
                },
            None => forall|i: int|
                0 <= i < lines_of(text).len() ==> declaration(#[trigger] lines_of(text)[i]) is None,
        },
{
    let lines = lines_of(text);
    declared_in_first(lines);
    lines_have_no_breaks(text);
    if declared_hours(text) is Some {
        let i = choose|i: int|
            {
                &&& 0 <= i < lines.len()
                &&& declaration(#[trigger] lines[i]) == declared_in(lines)
                &&& forall|j: int| 0 <= j < i ==> declaration(#[trigger] lines[j]) is None
            };
        assert(!lines[i].contains('\n'));
    }
}

proof fn declared_in_first(lines: Seq<Seq<char>>)
    ensures
        declared_in(lines) is None ==> forall|i: int|
            0 <= i < lines.len() ==> declaration(#[trigger] lines[i]) is None,
        declared_in(lines) is Some ==> exists|i: int|
            {
                &&& 0 <= i < lines.len()
                &&& declaration(#[trigger] lines[i]) == declared_in(lines)
                &&& forall|j: int| 0 <= j < i ==> declaration(#[trigger] lines[j]) is None
            },
    decreases lines.len(),
{
    if lines.len() > 0 {
        let rest = lines.drop_first();
        declared_in_first(rest);
        if declaration(lines[0]) is Some {
            assert(declaration(lines[0]) == declared_in(lines));
        } else if declared_in(rest) is Some {
            let i = choose|i: int|
                {
                    &&& 0 <= i < rest.len()
                    &&& declaration(#[trigger] rest[i]) == declared_in(rest)
                    &&& forall|j: int| 0 <= j < i ==> declaration(#[trigger] rest[j]) is None
                };
            assert(lines[i + 1] == rest[i]);
            assert forall|j: int| 0 <= j < i + 1 implies declaration(#[trigger] lines[j]) is None by {
                if j > 0 {
                    assert(rest[j - 1] == lines[j]);
                }
            }
            assert(declaration(lines[i + 1]) == declared_in(lines));
        } else {
            assert forall|i: int| 0 <= i < lines.len() implies declaration(
                #[trigger] lines[i],
            ) is None by {
                if i > 0 {
                    assert(rest[i - 1] == lines[i]);
                }
            }
        }
    }
}

proof fn digit_run_bounds(s: Seq<char>)
    ensures
        0 <= digit_run(s) <= s.len(),
        digit_run(s) < s.len() ==> !is_digit(s[digit_run(s)]),
        forall|i: int| 0 <= i < digit_run(s) ==> is_digit(#[trigger] s[i]),
    decreases s.len(),
{
    if s.len() > 0 && is_digit(s[0]) {
        let t = s.drop_first();
        digit_run_bounds(t);
        assert forall|i: int| 0 <= i < digit_run(s) implies is_digit(#[trigger] s[i]) by {
            if i > 0 {
                assert(s[i] == t[i - 1]);
            }
        }
    }
}

proof fn digit_run_before(a: Seq<char>, t: Seq<char>)
    requires
        digit_run(a) < a.len() || t.len() == 0 || !is_digit(t[0]),
    ensures
        digit_run(a + t) == digit_run(a),
    decreases a.len(),
{
    if a.len() == 0 {
        assert(a + t =~= t);
    } else if is_digit(a[0]) {
        digit_run_before(a.drop_first(), t);
        assert((a + t).drop_first() =~= a.drop_first() + t);
    }
}

proof fn numeral_before(n: Seq<char>, t: Seq<char>)
    requires
        is_numeral(n),
        t.len() > 0 ==> !is_digit(t[0]) && t[0] != '.',
    ensures
        numeral_length(n + t) == n.len(),
{
    digit_run_bounds(n);
    digit_run_before(n, t);
    let d = digit_run(n);
    if d < n.len() {
        let f = n.skip(d + 1);
        digit_run_before(f, t);
        assert((n + t).skip(d + 1) =~= f + t);
    }
}

proof fn trim_start_before(w: Seq<char>, t: Seq<char>)
    requires
        forall|i: int| 0 <= i < w.len() ==> is_white(#[trigger] w[i]),
        t.len() > 0 ==> !is_white(t[0]),
    ensures
        trim_start(w + t) == t,
    decreases w.len(),
{
    if w.len() == 0 {
        assert(w + t =~= t);
    } else {
        assert(is_white(w[0]));
        let rest = w.drop_first();
        assert forall|i: int| 0 <= i < rest.len() implies is_white(#[trigger] rest[i]) by {
            assert(is_white(w[i + 1]));
        }
        trim_start_before(rest, t);
        assert((w + t).drop_first() =~= rest + t);
    }
}

/// A line with the words for hours, a colon of either width, white space, a numeral and perhaps
/// the letter h declares the hours of the numeral.
pub proof fn line_declares_hours(
    colon: char,
    gap: Seq<char>,
    numeral: Seq<char>,
    unit: Seq<char>,
)
    requires
        colon == ':' || colon == '：',
        forall|i: int| 0 <= i < gap.len() ==> is_white(#[trigger] gap[i]) && gap[i] != '\n',
        is_numeral(numeral),
        unit.len() == 0 || unit == seq!['h'],
    ensures
        declaration("工时"@ + seq![colon] + gap + numeral + unit) == Some(numeral),
{
    reveal_strlit("工时");
    let s = "工时"@ + seq![colon] + gap + numeral + unit;
    let c = numeral + unit;
    assert(s.skip(2) =~= seq![colon] + gap + numeral + unit);
    assert(s.skip(2).skip(1) =~= gap + c);
    assert(s.take(2) =~= "工时"@);
    assert(trim_start(s) == s);
    assert(trim_start(s.skip(2)) == s.skip(2));
    digit_run_bounds(numeral);
    assert(is_digit(numeral[0]));
    assert(c[0] == numeral[0]);
    trim_start_before(gap, c);
    numeral_before(numeral, unit);
    assert(c.skip(numeral.len() as int) =~= unit);
    assert(c.take(numeral.len() as int) =~= numeral);
    assert(trimmed(unit) == unit);
}

/// Whether a line is made up as a declaration of hours: the words for hours, a colon of either
/// width, a numeral and perhaps the letter h in either case, with white space around each.
pub open spec fn made_up_as(
    line: Seq<char>,
    gaps: Seq<Seq<char>>,
    colon: char,
    numeral: Seq<char>,
    unit: Seq<char>,
) -> bool {
    &&& gaps.len() == 5
    &&& forall|i: int| 0 <= i < 5 ==> all_white(#[trigger] gaps[i])
    &&& colon == ':' || colon == '：'
    &&& is_numeral(numeral)
    &&& unit.len() == 0 || unit == seq!['h'] || unit == seq!['H']
    &&& line == gaps[0] + seq!['工', '时'] + gaps[1] + seq![colon] + gaps[2] + numeral + gaps[3]
        + unit + gaps[4]
}

/// A line that is made up as a declaration declares the hours of its numeral.
#[verifier::rlimit(40)]
pub proof fn declaration_is_read(
    line: Seq<char>,
    gaps: Seq<Seq<char>>,
    colon: char,
    numeral: Seq<char>,
    unit: Seq<char>,
)
    requires
        made_up_as(line, gaps, colon, numeral, unit),
    ensures
        declaration(line) == Some(numeral),
{
    reveal_strlit("工时");
    assert(all_white(gaps[0]) && all_white(gaps[1]) && all_white(gaps[2]) && all_white(gaps[3])
        && all_white(gaps[4]));
    let tail = gaps[3] + unit + gaps[4];
    let c = numeral + tail;
    let b = seq![colon] + gaps[2] + c;
    let a = seq!['工', '时'] + gaps[1] + b;
    assert(line =~= gaps[0] + a);
    assert(a[0] == '工');
    trim_start_takes_white(gaps[0], a);
    assert(a.skip(2) =~= gaps[1] + b);
    assert(a.subrange(0, 2) =~= "工时"@);
    assert(b[0] == colon);
    trim_start_takes_white(gaps[1], b);
    assert(b.skip(1) =~= gaps[2] + c);
    digit_run_bounds(numeral);
    assert(is_digit(numeral[0]));
    assert(c[0] == numeral[0]);
    trim_start_takes_white(gaps[2], c);
    trimming_takes_the_white_around(gaps[3], unit, gaps[4]);
    if tail.len() > 0 {
        if gaps[3].len() > 0 {
            assert(tail[0] == gaps[3][0]);
        } else if unit.len() > 0 {
            assert(tail[0] == unit[0]);
        } else {
            assert(tail[0] == gaps[4][0]);
        }
    }
    numeral_before(numeral, tail);
    assert(c.skip(numeral.len() as int) =~= tail);
    assert(c.take(numeral.len() as int) =~= numeral);
}

/// A line that declares hours is made up as a declaration, of the numeral that it declares.
#[verifier::rlimit(40)]
pub proof fn declared_hours_are_made_up(line: Seq<char>)
    requires
        declaration(line) is Some,
    ensures
        exists|gaps: Seq<Seq<char>>, colon: char, unit: Seq<char>| #[trigger]
            made_up_as(line, gaps, colon, declaration(line)->0, unit),
{
    reveal_strlit("工时");
    let a = trim_start(line);
    let b = trim_start(a.skip(2));
    let c = trim_start(b.skip(1));
    let n = numeral_length(c);
    let rest = c.skip(n);
    let unit = trimmed(rest);
    let gap0 = trim_start_leaves_a_tail(line);
    let gap1 = trim_start_leaves_a_tail(a.skip(2));
    let gap2 = trim_start_leaves_a_tail(b.skip(1));
    let (gap3, gap4) = trimmed_text_has_white_around(rest);
    let gaps = seq![gap0, gap1, gap2, gap3, gap4];
    numeral_stands_at_the_start(c);
    let numeral = c.take(n);
    assert(a.subrange(0, 2) == "工时"@);
    assert(a =~= seq!['工', '时'] + a.skip(2)) by {
        assert(a.subrange(0, 2)[0] == '工');
        assert(a.subrange(0, 2)[1] == '时');
    }
    assert(b =~= seq![b[0]] + b.skip(1));
    assert(c =~= numeral + rest);
    assert(unit.len() == 1 ==> unit =~= seq![unit[0]]);
    let whole = gap0 + seq!['工', '时'] + gap1 + seq![b[0]] + gap2 + numeral + gap3 + unit + gap4;
    assert(rest == gap3 + unit + gap4);
    assert(whole =~= gap0 + (seq!['工', '时'] + (gap1 + (seq![b[0]] + (gap2 + (numeral + (gap3
        + unit + gap4)))))));
    assert(declaration(line) == Some(numeral));
    assert(made_up_as(line, gaps, b[0], declaration(line)->0, unit));
}

/// The numeral at the start of a text is one.
proof fn numeral_stands_at_the_start(s: Seq<char>)
    requires
        numeral_length(s) > 0,
    ensures
        numeral_length(s) <= s.len(),
        is_numeral(s.take(numeral_length(s))),
{
    let d = digit_run(s);
    digit_run_bounds(s);
    let n = numeral_length(s);
    if n > d {
        digit_run_bounds(s.skip(d + 1));
    }
    let t = s.take(n);
    digit_run_of_a_part(s, n, d);
    if n > d {
        let f = s.skip(d + 1);
        digit_run_of_a_part(f, n - d - 1, n - d - 1);
        assert(t.skip(d + 1) =~= f.take(n - d - 1));
    }
}

/// The digits at the start of a text stand at the start of a part of it that has room for them.
proof fn digit_run_of_a_part(s: Seq<char>, n: int, d: int)
    requires
        0 <= d <= n <= s.len(),
        d == digit_run(s),
    ensures
        digit_run(s.take(n)) == d,
    decreases s.len(),
{
    if s.len() > 0 && n > 0 && is_digit(s[0]) {
        digit_run_bounds(s.drop_first());
        digit_run_of_a_part(s.drop_first(), n - 1, d - 1);
        assert(s.take(n).drop_first() =~= s.drop_first().take(n - 1));
    }
}

/// What a numeral is and what it denotes: digits denote their number, and digits with a point and
/// more digits behind it denote the number of all the digits, divided by ten for each digit behind
/// the point.
pub proof fn numerals_denote_their_digits(a: Seq<char>, b: Seq<char>)
    requires
        is_digits(a),
        is_digits(b),
    ensures
        is_numeral(a),
        units_of(a) == number_of(a) && unit_of(a) == 1,
        is_numeral(a + seq!['.'] + b),
        units_of(a + seq!['.'] + b) == number_of(a + b),
        unit_of(a + seq!['.'] + b) == pow10(b.len() as int),
{
    let none: Seq<char> = seq![];
    assert forall|i: int| 0 <= i < a.len() implies a[i] != '.' by {
        assert(is_digit(a[i]));
    }
    all_digits_run(a);
    all_digits_run(b);
    first_index_is(a, '.', a.len() as int);
    assert(a.take(a.len() as int) =~= a);
    assert(fraction_digits(a) =~= none);
    assert(number_of(none) == 0 && pow10(0) == 1);
    let w = number_of(a);
    assert(w * 1 == w) by (nonlinear_arith);
    let s = a + seq!['.'] + b;
    assert forall|i: int| 0 <= i < a.len() implies s[i] != '.' by {
        assert(s[i] == a[i]);
    }
    first_index_is(s, '.', a.len() as int);
    assert(s.take(a.len() as int) =~= a);
    assert(s.skip(a.len() as int + 1) =~= b);
    assert(s =~= a + (seq!['.'] + b));
    digit_run_before(a, seq!['.'] + b);
    number_of_concat(a, b);
}

/// A text that is a numeral is digits, or digits with a point and more digits behind it.
pub proof fn numerals_are_digits_with_a_point(s: Seq<char>)
    requires
        is_numeral(s),
    ensures
        is_digits(s) || exists|k: int|
            0 < k < s.len() && #[trigger] s[k] == '.' && is_digits(s.take(k)) && is_digits(
                s.skip(k + 1),
            ),
{
    let d = digit_run(s);
    digit_run_bounds(s);
    if d < s.len() {
        let f = s.skip(d + 1);
        digit_run_bounds(f);
        assert(s[d] == '.');
        assert(is_digits(s.take(d)));
        assert(is_digits(f));
    }
}

/// Hours that are nothing are refused as not positive, and hours of which three hundred digits
/// behind the point show something are not.
pub proof fn hours_are_positive_by_their_digits(numeral: Seq<char>)
    requires
        is_numeral(numeral),
    ensures
        units_of(numeral) == 0 ==> !is_positive(numeral),
        units_of(numeral) > 0 && fraction_digits(numeral).len() <= 300 ==> is_positive(numeral),
{
    numeral_parts(numeral);
    lemma_pow2_unfold(1075);
    lemma_pow2_pos(1074);
    let n = units_of(numeral);
    let p = unit_of(numeral);
    let z = pow2(1075) as int;
    assert(n == 0 ==> n * z == 0) by (nonlinear_arith);
    if n > 0 && fraction_digits(numeral).len() <= 300 {
        let l = fraction_digits(numeral).len() as int;
        pow10_below_pow2(100);
        pow10_grows(l, 300);
        lemma_pow2_strictly_increases(1000, 1075);
        assert(n * z > p) by (nonlinear_arith)
            requires
                n >= 1,
                z > p,
                p >= 1,
        ;
    }
}

proof fn pow10_grows(a: int, b: int)
    requires
        0 <= a <= b,
    ensures
        pow10(a) <= pow10(b),
    decreases b - a,
{
    if a < b {
        pow10_grows(a, b - 1);
        pow10_positive(b - 1);
    }
}

proof fn pow10_below_pow2(k: nat)
    ensures
        pow10(3 * k as int) <= pow2(10 * k),
    decreases k,
{
    lemma2_to64();
    if k > 0 {
        let j = (k - 1) as nat;
        pow10_below_pow2(j);
        lemma_pow2_adds(10 * j, 10);
        assert(pow10(3 * k as int) == 1000 * pow10(3 * j as int)) by {
            reveal_with_fuel(pow10, 4);
        }
        assert(10 * k == 10 * j + 10);
        let x = pow2(10 * j) as int;
        let y = pow10(3 * j as int);
        assert(x * 1024 >= 1000 * y) by (nonlinear_arith)
            requires
                x >= y,
                x >= 0,
        ;
    }
}

/// A text denotes a multiple of one half where it is a numeral of one, or a minus sign and such a
/// numeral, and nowhere else.
pub proof fn multiples_of_one_half_may_be_negative(numeral: Seq<char>)
    ensures
        is_numeral(numeral) ==> (denotes_half_hours(numeral) <==> in_half_hours(numeral)),
        is_numeral(numeral) ==> (denotes_half_hours(seq!['-'] + numeral) <==> in_half_hours(
            numeral,
        )),
        !is_numeral(numeral) && (numeral.len() == 0 || numeral[0] != '-') ==> !denotes_half_hours(
            numeral,
        ) && !denotes_half_hours(seq!['-'] + numeral),
{
    assert((seq!['-'] + numeral).drop_first() =~= numeral);
    if is_numeral(numeral) {
        digit_run_bounds(numeral);
        assert(is_digit(numeral[0]));
    }
}

/// What the hours in a text are refused for: there is no line that declares any, those of the
/// first line that does are nothing, or they are no multiple of one half.
pub proof fn hours_are_refused_for_a_reason(text: Seq<char>, k: int)
    ensures
        (forall|i: int|
            0 <= i < lines_of(text).len() ==> declaration(#[trigger] lines_of(text)[i]) is None)
            ==> hours_refusal(text) == Some(Failure::NoWorkhour),
        0 <= k < lines_of(text).len() && declaration(lines_of(text)[k]) is Some && (forall|i: int|
            0 <= i < k ==> declaration(#[trigger] lines_of(text)[i]) is None) ==> {
            let numeral = declaration(lines_of(text)[k])->0;
            &&& declared_hours(text) == Some(numeral)
            &&& !is_positive(numeral) ==> hours_refusal(text) == Some(Failure::WorkhourNotPositive)
            &&& is_positive(numeral) && !in_half_hours(numeral) ==> hours_refusal(text) == Some(
                Failure::WorkhourIncrement,
            )
            &&& is_positive(numeral) && in_half_hours(numeral) ==> hours_refusal(text) is None
        },
{
    let lines = lines_of(text);
    declared_in_first(lines);
    if 0 <= k < lines.len() && declaration(lines[k]) is Some && (forall|i: int|
        0 <= i < k ==> declaration(#[trigger] lines[i]) is None) {
        if declared_in(lines) is None {
            assert(declaration(lines[k]) is None);
        }
        let i = choose|i: int|
            {
                &&& 0 <= i < lines.len()
                &&& declaration(#[trigger] lines[i]) == declared_in(lines)
                &&& forall|j: int| 0 <= j < i ==> declaration(#[trigger] lines[j]) is None
            };
        assert(i == k) by {
            if i < k {
                assert(declaration(lines[i]) is None);
            }
            if k < i {
                assert(declaration(lines[k]) is None);
            }
        }
    } else if forall|i: int| 0 <= i < lines.len() ==> declaration(#[trigger] lines[i]) is None {
        if declared_in(lines) is Some {
            let i = choose|i: int|
                {
                    &&& 0 <= i < lines.len()
                    &&& declaration(#[trigger] lines[i]) == declared_in(lines)
                    &&& forall|j: int| 0 <= j < i ==> declaration(#[trigger] lines[j]) is None
                };
            assert(declaration(lines[i]) is None);
        }
    }
}

/// The parts of a numeral before and behind its point are digits.
proof fn numeral_parts(s: Seq<char>)
    requires
        is_numeral(s),
    ensures
        forall|i: int| 0 <= i < whole_digits(s).len() ==> is_digit(#[trigger] whole_digits(s)[i]),
        forall|i: int|
            0 <= i < fraction_digits(s).len() ==> is_digit(#[trigger] fraction_digits(s)[i]),
        unit_of(s) >= 1,
        units_of(s) >= 0,
{
    let d = digit_run(s);
    digit_run_bounds(s);
    assert forall|i: int| 0 <= i < d implies #[trigger] s[i] != '.' by {
        assert(is_digit(s[i]));
    }
    first_index_is(s, '.', d);
    assert forall|i: int| 0 <= i < d implies is_digit(#[trigger] whole_digits(s)[i]) by {
        assert(is_digit(s[i]));
    }
    let f = fraction_digits(s);
    if d < s.len() {
        digit_run_bounds(f);
    }
    number_of_below(whole_digits(s));
    number_of_below(f);
    pow10_positive(f.len() as int);
    let w = number_of(whole_digits(s));
    let p = unit_of(s);
    assert(w * p >= 0) by (nonlinear_arith)
        requires
            w >= 0,
            p >= 1,
    ;
}

/// How far a number may be from a multiple of one half, in decimals: of less than a million
/// hours, those within a quarter of a billionth are accepted.
pub proof fn nearly_half_hours_are_accepted(numeral: Seq<char>, h: int)
    requires
        is_numeral(numeral),
        units_of(numeral) < 1_000_000 * unit_of(numeral),
        -unit_of(numeral) <= (2 * units_of(numeral) - h * unit_of(numeral)) * 2_000_000_000
            <= unit_of(numeral),
    ensures
        in_half_hours(numeral),
{
    let n = units_of(numeral);
    let p = unit_of(numeral);
    numeral_parts(numeral);
    lemma2_to64_rest();
    double_exists(n, p);
    let (m, k) = choose|m: int, k: nat| #[trigger] is_double(n, p, m, k);
    twice_by_decimals(n, p, m, k, h);
    assert(is_near(m, k, h));
    assert(is_double(n, p, m, k) && near_integer(m, k));
}

/// How far a number may be from a multiple of one half, in decimals: of less than a million
/// hours, those that are more than a billionth away from each multiple are refused.
pub proof fn other_parts_of_hours_are_refused(numeral: Seq<char>)
    requires
        is_numeral(numeral),
        units_of(numeral) < 1_000_000 * unit_of(numeral),
        2 * unit_of(numeral) < (2 * units_of(numeral) % unit_of(numeral)) * 1_000_000_000,
        2 * unit_of(numeral) < (unit_of(numeral) - 2 * units_of(numeral) % unit_of(numeral))
            * 1_000_000_000,
    ensures
        !in_half_hours(numeral),
{
    let n = units_of(numeral);
    let p = unit_of(numeral);
    numeral_parts(numeral);
    lemma2_to64_rest();
    assert forall|m: int, k: nat| #[trigger] is_double(n, p, m, k) implies !near_integer(m, k) by {
        assert forall|j: int| !#[trigger] is_near(m, k, j) by {
            twice_by_decimals(n, p, m, k, j);
            let q = 2 * n / p;
            let rest = 2 * n % p;
            let x = 2 * n;
            assert(x == q * p + rest && 0 <= rest < p) by (nonlinear_arith)
                requires
                    p > 0,
                    q == x / p,
                    rest == x % p,
            ;
            assert((q + 1) * p == q * p + p) by (nonlinear_arith);
            if j <= q {
                assert(j * p <= q * p) by (nonlinear_arith)
                    requires
                        j <= q,
                        p > 0,
                ;
            } else {
                assert((q + 1) * p <= j * p) by (nonlinear_arith)
                    requires
                        q + 1 <= j,
                        p > 0,
                ;
            }
        }
    }
}

/// Of less than a trillion hours, those that are half a hundredth or more away from each multiple
/// of one half are refused.
pub proof fn clear_parts_of_hours_are_refused(numeral: Seq<char>)
    requires
        is_numeral(numeral),
        units_of(numeral) < 1_000_000_000_000 * unit_of(numeral),
        unit_of(numeral) <= (2 * units_of(numeral) % unit_of(numeral)) * 100,
        unit_of(numeral) <= (unit_of(numeral) - 2 * units_of(numeral) % unit_of(numeral)) * 100,
    ensures
        !in_half_hours(numeral),
{
    let n = units_of(numeral);
    let p = unit_of(numeral);
    numeral_parts(numeral);
    lemma2_to64_rest();
    assert forall|m: int, k: nat| #[trigger] is_double(n, p, m, k) implies !near_integer(m, k) by {
        assert forall|j: int| !#[trigger] is_near(m, k, j) by {
            let q = 2 * n / p;
            let rest = 2 * n % p;
            let x = 2 * n;
            assert(x == q * p + rest && 0 <= rest < p) by (nonlinear_arith)
                requires
                    p > 0,
                    q == x / p,
                    rest == x % p,
            ;
            assert((q + 1) * p == q * p + p) by (nonlinear_arith);
            if j <= q {
                assert(j * p <= q * p) by (nonlinear_arith)
                    requires
                        j <= q,
                        p > 0,
                ;
            } else {
                assert((q + 1) * p <= j * p) by (nonlinear_arith)
                    requires
                        q + 1 <= j,
                        p > 0,
                ;
            }
            twice_by_hundredths(n, p, m, k, j);
        }
    }
}

/// Whole hours from one on, and hours and a half, are accepted.
pub proof fn half_hours_are_accepted(n: int)
    requires
        n >= 0,
    ensures
        is_numeral(decimal(n)),
        n >= 1 ==> is_positive(decimal(n)) && in_half_hours(decimal(n)),
        is_numeral(decimal(n) + seq!['.', '5']),
        is_positive(decimal(n) + seq!['.', '5']) && in_half_hours(decimal(n) + seq!['.', '5']),
{
    let whole = decimal(n);
    decimal_reads_back(n);
    let nothing: Seq<char> = seq![];
    assert forall|i: int| 0 <= i < whole.len() implies #[trigger] whole[i] != '.' by {
        assert(is_digit(whole[i]));
    }
    all_digits_run(whole);
    first_index_is(whole, '.', whole.len() as int);
    assert(whole.take(whole.len() as int) =~= whole);
    assert(fraction_digits(whole) =~= nothing);
    assert(number_of(nothing) == 0 && pow10(0) == 1);
    assert(units_of(whole) == n && unit_of(whole) == 1) by (nonlinear_arith)
        requires
            units_of(whole) == n * unit_of(whole),
            unit_of(whole) == 1,
    ;
    lemma2_to64_rest();
    lemma_pow2_unfold(1075);
    lemma_pow2_unfold(1074);
    lemma_pow2_pos(1073);
    let z = pow2(1075) as int;
    if n >= 1 {
        if n < pow2(53) {
            halves_are_near(n, 1, 2 * n);
        }
        assert(n * z > 1) by (nonlinear_arith)
            requires
                n >= 1,
                z >= 4,
        ;
    }
    let half = whole + seq!['.', '5'];
    let five = seq!['5'];
    assert forall|i: int| 0 <= i < whole.len() implies #[trigger] half[i] != '.' by {
        assert(half[i] == whole[i]);
    }
    first_index_is(half, '.', whole.len() as int);
    assert(half.take(whole.len() as int) =~= whole);
    assert(half.skip(whole.len() as int + 1) =~= five);
    digit_run_before(whole, seq!['.', '5']);
    assert(digit_run(five.drop_first()) == 0);
    assert(digit_run(five) == 1);
    assert(five.drop_last() =~= nothing);
    assert(number_of(five) == 5);
    assert(pow10(1) == 10) by {
        reveal_with_fuel(pow10, 2);
    }
    assert(units_of(half) == 10 * n + 5 && unit_of(half) == 10);
    if 10 * n + 5 < pow2(53) * 10 {
        halves_are_near(10 * n + 5, 10, 2 * n + 1);
    }
    assert((10 * n + 5) * z > 10) by (nonlinear_arith)
        requires
            n >= 0,
            z >= 4,
    ;
}

proof fn all_digits_run(s: Seq<char>)
    requires
        is_digits(s) || s.len() == 0,
    ensures
        digit_run(s) == s.len(),
    decreases s.len(),
{
    if s.len() > 0 {
        assert(is_digit(s[0]));
        let t = s.drop_first();
        assert forall|i: int| 0 <= i < t.len() implies is_digit(#[trigger] t[i]) by {
            assert(is_digit(s[i + 1]));
        }
        all_digits_run(t);
    }
}

} // verus!
