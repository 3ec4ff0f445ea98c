//! Text as sequences of characters: trimming, splitting, joining and decimal numbers.
use vstd::prelude::*;
use vstd::slice::slice_subrange;

verus! {

/// The characters of Unicode's `White_Space` property.
pub open spec fn is_white(c: char) -> bool {
    let n = c as int;
    ||| 9 <= n <= 13
    ||| n == 0x20
    ||| n == 0x85
    ||| n == 0xA0
    ||| n == 0x1680
    ||| 0x2000 <= n <= 0x200A
    ||| n == 0x2028
    ||| n == 0x2029
    ||| n == 0x202F
    ||| n == 0x205F
    ||| n == 0x3000
}

/// `char::is_whitespace` tells whether a character has the `White_Space` property.
pub assume_specification[ char::is_whitespace ](c: char) -> (r: bool)
    ensures
        r == is_white(c),
;

/// `String::push` appends one character.
pub assume_specification[ String::push ](s: &mut String, ch: char)
    ensures
        final(s)@ == old(s)@.push(ch),
;

// ---------------------------------------------------------------------------
// Conversions
// ---------------------------------------------------------------------------
/// The characters of a text, one by one.
pub fn chars_of(text: &str) -> (r: Vec<char>)
    ensures
        r@ == text@,
{
    let mut out: Vec<char> = Vec::new();
    for c in it: text.chars()
        invariant
            it.seq() == text@,
            out@ == text@.take(it.index() as int),
    {
        out.push(c);
        assert(text@.take(it.index() + 1) =~= text@.take(it.index() as int).push(c));
    }
    assert(text@.take(text@.len() as int) =~= text@);
    out
}

/// The text that consists of the given characters.
pub fn text_of(chars: &[char]) -> (r: String)
    ensures
        r@ == chars@,
{
    let mut out = String::new();
    let mut i: usize = 0;
    while i < chars.len()
        invariant
            i <= chars@.len(),
            out@ == chars@.take(i as int),
        decreases chars@.len() - i,
    {
        out.push(chars[i]);
        i += 1;
        assert(chars@.take(i as int) =~= chars@.take(i - 1).push(chars@[i - 1]));
    }
    assert(chars@.take(i as int) =~= chars@);
    out
}

/// Whether two texts have the same characters.
pub fn same_text(a: &str, b: &str) -> (r: bool)
    ensures
        r == (a@ == b@),
{
    a.to_string() == b.to_string()
}

// ---------------------------------------------------------------------------
// Trimming
// ---------------------------------------------------------------------------
/// `s` without its leading white space.
pub open spec fn trim_start(s: Seq<char>) -> Seq<char>
    decreases s.len(),
{
    if s.len() > 0 && is_white(s[0]) {
        trim_start(s.drop_first())
    } else {
        s
    }
}

/// `s` without its trailing white space.
pub open spec fn trim_end(s: Seq<char>) -> Seq<char>
    decreases s.len(),
{
    if s.len() > 0 && is_white(s.last()) {
        trim_end(s.drop_last())
    } else {
        s
    }
}

/// `s` without leading and trailing white space.
pub open spec fn trimmed(s: Seq<char>) -> Seq<char> {
    trim_end(trim_start(s))
}

/// Removes leading and trailing white space.
pub fn trim(s: &[char]) -> (r: &[char])
    ensures
        r@ == trimmed(s@),
{
    let mut from: usize = 0;
    assert(s@.skip(0) =~= s@);
    while from < s.len() && s[from].is_whitespace()
        invariant
            from <= s@.len(),
            trim_start(s@) == trim_start(s@.skip(from as int)),
        decreases s@.len() - from,
    {
        assert(s@.skip(from as int).drop_first() =~= s@.skip(from + 1));
        from += 1;
    }
    let mut to: usize = s.len();
    assert(s@.subrange(from as int, to as int) =~= s@.skip(from as int));
    assert(trim_start(s@) == s@.skip(from as int));
    while from < to && s[to - 1].is_whitespace()
        invariant
            from <= to <= s@.len(),
            trimmed(s@) == trim_end(s@.subrange(from as int, to as int)),
        decreases to - from,
    {
        assert(s@.subrange(from as int, to as int).drop_last() =~= s@.subrange(
            from as int,
            to - 1,
        ));
        to -= 1;
    }
    slice_subrange(s, from, to)
}

/// Trimming leaves nothing to trim.
pub proof fn trimmed_idempotent(s: Seq<char>)
    ensures
        trimmed(trimmed(s)) == trimmed(s),
        trimmed(s).len() > 0 ==> !is_white(trimmed(s)[0]) && !is_white(trimmed(s).last()),
{
    let t = trim_start(s);
    trim_start_head(s);
    trim_end_ends(t);
}

/// A text without white space at its ends is what trimming leaves of it.
pub proof fn trimmed_already(s: Seq<char>)
    requires
        s.len() > 0 ==> !is_white(s[0]) && !is_white(s.last()),
    ensures
        trimmed(s) == s,
{
}

/// White space behind a text makes no difference to what trimming leaves of it.
pub proof fn trimmed_before_white(s: Seq<char>, w: char)
    requires
        is_white(w),
    ensures
        trimmed(s.push(w)) == trimmed(s),
{
    trim_start_before_white(s, w);
    let t = trim_start(s);
    if t.len() > 0 {
        assert(t.push(w).drop_last() =~= t);
    }
}

proof fn trim_start_before_white(s: Seq<char>, w: char)
    requires
        is_white(w),
    ensures
        trim_start(s.push(w)) == (if trim_start(s).len() > 0 {
            trim_start(s).push(w)
        } else {
            seq![]
        }),
    decreases s.len(),
{
    let none: Seq<char> = seq![];
    assert(trim_start(none) == none);
    if s.len() == 0 {
        assert(s.push(w).drop_first() =~= none);
        assert(trim_start(s) == s);
    } else if is_white(s[0]) {
        trim_start_before_white(s.drop_first(), w);
        assert(s.push(w).drop_first() =~= s.drop_first().push(w));
    }
}

proof fn trim_start_head(s: Seq<char>)
    ensures
        trim_start(s).len() > 0 ==> !is_white(trim_start(s)[0]),
    decreases s.len(),
{
    if s.len() > 0 && is_white(s[0]) {
        trim_start_head(s.drop_first());
    }
}

/// What `trim_end` keeps is a prefix that ends in a visible character.
proof fn trim_end_ends(s: Seq<char>)
    ensures
        trim_end(s).len() <= s.len(),
        trim_end(s) == s.take(trim_end(s).len() as int),
        trim_end(s).len() > 0 ==> !is_white(trim_end(s).last()),
    decreases s.len(),
{
    if s.len() > 0 && is_white(s.last()) {
        trim_end_ends(s.drop_last());
        assert(s.take(trim_end(s).len() as int) =~= s.drop_last().take(trim_end(s).len() as int));
    } else {
        assert(s.take(s.len() as int) =~= s);
    }
}

/// Whether a text is white space alone.
pub open spec fn all_white(s: Seq<char>) -> bool {
    forall|i: int| 0 <= i < s.len() ==> is_white(#[trigger] s[i])
}

/// White space in front of a text that does not begin with any is what trimming its start takes
/// away.
pub proof fn trim_start_takes_white(w: Seq<char>, t: Seq<char>)
    requires
        all_white(w),
        t.len() > 0 ==> !is_white(t[0]),
    ensures
        trim_start(w + t) == t,
    decreases w.len(),
{
    if w.len() == 0 {
        assert(w + t =~= t);
    } else {
        assert(is_white(w[0]));
        let rest = w.drop_first();
        assert forall|i: int| 0 <= i < rest.len() implies is_white(#[trigger] rest[i]) by {
            assert(is_white(w[i + 1]));
        }
        trim_start_takes_white(rest, t);
        assert((w + t).drop_first() =~= rest + t);
    }
}

proof fn trim_end_takes_white(t: Seq<char>, w: Seq<char>)
    requires
        all_white(w),
        t.len() > 0 ==> !is_white(t.last()),
    ensures
        trim_end(t + w) == t,
    decreases w.len(),
{
    if w.len() == 0 {
        assert(t + w =~= t);
    } else {
        assert(is_white(w[w.len() - 1]));
        let rest = w.drop_last();
        assert forall|i: int| 0 <= i < rest.len() implies is_white(#[trigger] rest[i]) by {
            assert(is_white(w[i]));
        }
        trim_end_takes_white(t, rest);
        assert((t + w).drop_last() =~= t + rest);
        assert((t + w).last() == w.last());
    }
}

/// Trimming takes away the white space around a text, and nothing else.
pub proof fn trimming_takes_the_white_around(a: Seq<char>, t: Seq<char>, b: Seq<char>)
    requires
        all_white(a),
        all_white(b),
        t.len() > 0 ==> !is_white(t[0]) && !is_white(t.last()),
    ensures
        trimmed(a + t + b) == t,
{
    if t.len() > 0 {
        assert((t + b)[0] == t[0]);
        assert(a + t + b =~= a + (t + b));
        trim_start_takes_white(a, t + b);
        trim_end_takes_white(t, b);
    } else {
        let none: Seq<char> = seq![];
        let w = a + b;
        assert forall|i: int| 0 <= i < w.len() implies is_white(#[trigger] w[i]) by {
            if i < a.len() {
                assert(is_white(a[i]));
            } else {
                assert(is_white(b[i - a.len()]));
            }
        }
        assert(a + t + b =~= w + none);
        trim_start_takes_white(w, none);
        assert(t =~= none);
    }
}

/// What stands before the trimmed start of a text.
pub proof fn trim_start_leaves_a_tail(s: Seq<char>) -> (w: Seq<char>)
    ensures
        all_white(w),
        s == w + trim_start(s),
        trim_start(s).len() > 0 ==> !is_white(trim_start(s)[0]),
    decreases s.len(),
{
    if s.len() > 0 && is_white(s[0]) {
        let rest = trim_start_leaves_a_tail(s.drop_first());
        let w = seq![s[0]] + rest;
        assert(s =~= seq![s[0]] + s.drop_first());
        assert(seq![s[0]] + (rest + trim_start(s)) =~= w + trim_start(s));
        assert forall|i: int| 0 <= i < w.len() implies is_white(#[trigger] w[i]) by {
            if i > 0 {
                assert(is_white(rest[i - 1]));
            }
        }
        w
    } else {
        let none: Seq<char> = seq![];
        assert(s =~= none + s);
        none
    }
}

proof fn trim_end_leaves_a_head(s: Seq<char>) -> (w: Seq<char>)
    ensures
        all_white(w),
        s == trim_end(s) + w,
    decreases s.len(),
{
    if s.len() > 0 && is_white(s.last()) {
        let rest = trim_end_leaves_a_head(s.drop_last());
        let w = rest.push(s.last());
        assert(s =~= s.drop_last().push(s.last()));
        assert((trim_end(s) + rest).push(s.last()) =~= trim_end(s) + w);
        assert forall|i: int| 0 <= i < w.len() implies is_white(#[trigger] w[i]) by {
            if i < rest.len() {
                assert(is_white(rest[i]));
            }
        }
        w
    } else {
        let none: Seq<char> = seq![];
        assert(s =~= s + none);
        none
    }
}

/// A text is what trimming leaves of it, with white space around.
pub proof fn trimmed_text_has_white_around(s: Seq<char>) -> (around: (Seq<char>, Seq<char>))
    ensures
        all_white(around.0),
        all_white(around.1),
        s == around.0 + trimmed(s) + around.1,
{
    let a = trim_start_leaves_a_tail(s);
    let b = trim_end_leaves_a_head(trim_start(s));
    assert(s =~= a + trimmed(s) + b);
    (a, b)
}

// ---------------------------------------------------------------------------
// Searching and splitting
// ---------------------------------------------------------------------------
/// The index of the first `c` in `s`, or the length of `s` when there is none.
pub open spec fn first_index(s: Seq<char>, c: char) -> int
    decreases s.len(),
{
    if s.len() == 0 || s[0] == c {
        0
    } else {
        1 + first_index(s.drop_first(), c)
    }
}

/// `first_index` is the one index before which there is no `c` and at which `c` stands, if any.
pub proof fn first_index_is(s: Seq<char>, c: char, k: int)
    requires
        0 <= k <= s.len(),
        forall|i: int| 0 <= i < k ==> s[i] != c,
        k < s.len() ==> s[k] == c,
    ensures
        first_index(s, c) == k,
    decreases s.len(),
{
    if k > 0 {
        assert(s[0] != c);
        assert forall|i: int| 0 <= i < k - 1 implies s.drop_first()[i] != c by {
            assert(s.drop_first()[i] == s[i + 1]);
        }
        first_index_is(s.drop_first(), c, k - 1);
    }
}

/// Finds the first `c` at or after `from`.
pub fn find_char(s: &[char], from: usize, c: char) -> (r: usize)
    requires
        from <= s@.len(),
    ensures
        from <= r <= s@.len(),
        r - from == first_index(s@.skip(from as int), c),
{
    let mut i: usize = from;
    while i < s.len() && s[i] != c
        invariant
            from <= i <= s@.len(),
            forall|j: int| from <= j < i ==> s@[j] != c,
        decreases s@.len() - i,
    {
        i += 1;
    }
    proof {
        first_index_is(s@.skip(from as int), c, i - from);
    }
    i
}

/// `line` without one trailing carriage return.
pub open spec fn without_return(line: Seq<char>) -> Seq<char> {
    if line.len() > 0 && line.last() == '\r' {
        line.drop_last()
    } else {
        line
    }
}

/// The lines of a text. A line ends at a line feed, or at a carriage return with a line feed
/// behind it; the ending belongs to no line, and the last line needs none.
pub open spec fn lines_of(s: Seq<char>) -> Seq<Seq<char>>
    decreases s.len(),
{
    let k = first_index(s, '\n');
    if s.len() == 0 {
        seq![]
    } else if 0 <= k < s.len() {
        seq![without_return(s.take(k))] + lines_of(s.skip(k + 1))
    } else {
        seq![s]
    }
}

/// What stands before a line feed and what stands behind it make up the lines of a text.
pub proof fn lines_on_both_sides(a: Seq<char>, b: Seq<char>)
    ensures
        lines_of(a.push('\n') + b) == lines_of(a.push('\n')) + lines_of(b),
    decreases a.len(),
{
    let k = first_index(a, '\n');
    let one = a.push('\n');
    let all = one + b;
    first_index_bounds(a, '\n');
    first_index_is(one, '\n', k);
    first_index_is(all, '\n', k);
    assert(one.take(k) =~= a.take(k));
    assert(all.take(k) =~= a.take(k));
    let line = seq![without_return(a.take(k))];
    let none: Seq<char> = seq![];
    assert(lines_of(none) == Seq::<Seq<char>>::empty());
    if k < a.len() {
        let rest = a.skip(k + 1);
        lines_on_both_sides(rest, b);
        assert(one.skip(k + 1) =~= rest.push('\n'));
        assert(all.skip(k + 1) =~= rest.push('\n') + b);
        assert(line + (lines_of(rest.push('\n')) + lines_of(b)) =~= line + lines_of(
            rest.push('\n'),
        ) + lines_of(b));
    } else {
        assert(one.skip(k + 1) =~= none);
        assert(all.skip(k + 1) =~= b);
        assert(lines_of(one) =~= line);
    }
}

/// A line feed behind a text ends its last line; where there is no line to end, it makes an empty
/// one.
pub proof fn lines_before_a_break(a: Seq<char>)
    requires
        a.len() > 0 ==> a.last() != '\r',
    ensures
        lines_of(a.push('\n')) == (if a.len() == 0 || a.last() == '\n' {
            lines_of(a).push(seq![])
        } else {
            lines_of(a)
        }),
    decreases a.len(),
{
    let k = first_index(a, '\n');
    let one = a.push('\n');
    first_index_bounds(a, '\n');
    first_index_is(one, '\n', k);
    assert(one.take(k) =~= a.take(k));
    let line = seq![without_return(a.take(k))];
    let none: Seq<char> = seq![];
    assert(lines_of(none) == Seq::<Seq<char>>::empty());
    if k < a.len() {
        let rest = a.skip(k + 1);
        if rest.len() > 0 {
            assert(rest.last() == a.last());
        }
        lines_before_a_break(rest);
        assert(one.skip(k + 1) =~= rest.push('\n'));
        assert(line + lines_of(rest).push(seq![]) =~= (line + lines_of(rest)).push(seq![]));
    } else {
        assert(one.skip(k + 1) =~= none);
        assert(a.take(k) =~= a);
        assert(lines_of(one) =~= line);
        if a.len() == 0 {
            assert(a =~= seq![]);
            assert(line =~= lines_of(a).push(seq![]));
        }
    }
}

/// Where the lines of a text end: at each line feed, and before a carriage return that stands
/// directly before it. What stands behind makes the next lines; a text without a line feed is one
/// line, and an empty text has none.
pub proof fn lines_end_at_breaks(a: Seq<char>, b: Seq<char>)
    requires
        !a.contains('\n'),
        a.len() > 0 ==> a.last() != '\r',
    ensures
        lines_of(a + seq!['\n'] + b) == seq![a] + lines_of(b),
        lines_of(a + seq!['\r', '\n'] + b) == seq![a] + lines_of(b),
        lines_of(a) == (if a.len() == 0 {
            Seq::<Seq<char>>::empty()
        } else {
            seq![a]
        }),
{
    assert forall|i: int| 0 <= i < a.len() implies a[i] != '\n' by {
        assert(a.contains(a[i]));
    }
    first_index_is(a, '\n', a.len() as int);
    let one = a + seq!['\n'] + b;
    assert forall|i: int| 0 <= i < a.len() implies one[i] != '\n' by {
        assert(one[i] == a[i]);
    }
    first_index_is(one, '\n', a.len() as int);
    assert(one.take(a.len() as int) =~= a);
    assert(one.skip(a.len() as int + 1) =~= b);
    let two = a + seq!['\r', '\n'] + b;
    let k = a.len() as int + 1;
    assert forall|i: int| 0 <= i < k implies two[i] != '\n' by {
        if i < a.len() {
            assert(two[i] == a[i]);
        }
    }
    first_index_is(two, '\n', k);
    assert(two.take(k) =~= a.push('\r'));
    assert(without_return(two.take(k)) =~= a);
    assert(two.skip(k + 1) =~= b);
}

/// No line of a text holds a line feed.
pub proof fn lines_have_no_breaks(s: Seq<char>)
    ensures
        forall|i: int|
            0 <= i < lines_of(s).len() ==> !(#[trigger] lines_of(s)[i]).contains('\n'),
    decreases s.len(),
{
    let k = first_index(s, '\n');
    if s.len() > 0 {
        first_index_bounds(s, '\n');
        if k < s.len() {
            lines_have_no_breaks(s.skip(k + 1));
            let rest = lines_of(s.skip(k + 1));
            assert forall|i: int| 0 <= i < lines_of(s).len() implies !(#[trigger] lines_of(
                s,
            )[i]).contains('\n') by {
                if i > 0 {
                    assert(lines_of(s)[i] == rest[i - 1]);
                } else {
                    assert(lines_of(s)[0] == without_return(s.take(k)));
                }
            }
        }
    }
}

/// Where the first `c` stands, and that none stands before it.
pub proof fn first_index_bounds(s: Seq<char>, c: char)
    ensures
        0 <= first_index(s, c) <= s.len(),
        first_index(s, c) < s.len() ==> s[first_index(s, c)] == c,
        forall|i: int| 0 <= i < first_index(s, c) ==> #[trigger] s[i] != c,
    decreases s.len(),
{
    if s.len() != 0 && s[0] != c {
        let t = s.drop_first();
        first_index_bounds(t, c);
        assert forall|i: int| 0 <= i < first_index(s, c) implies #[trigger] s[i] != c by {
            if i > 0 {
                assert(t[i - 1] == s[i]);
            }
        }
    }
}

/// The views of a list of character slices.
pub open spec fn slices(v: Seq<&[char]>) -> Seq<Seq<char>> {
    v.map_values(|x: &[char]| x@)
}

/// Splits a text into its lines.
pub fn split_lines<'a>(s: &'a [char]) -> (r: Vec<&'a [char]>)
    ensures
        slices(r@) == lines_of(s@),
{
    let mut out: Vec<&'a [char]> = Vec::new();
    let mut pos: usize = 0;
    assert(s@.skip(0) =~= s@);
    assert(slices(out@) + lines_of(s@) =~= lines_of(s@));
    while pos < s.len()
        invariant
            pos <= s@.len(),
            slices(out@) + lines_of(s@.skip(pos as int)) == lines_of(s@),
        decreases s@.len() - pos,
    {
        let end = find_char(s, pos, '\n');
        let ghost rest = s@.skip(pos as int);
        let ghost before = slices(out@);
        let mut stop: usize = end;
        if end < s.len() {
            if pos < end && s[end - 1] == '\r' {
                stop = end - 1;
            }
            let line = slice_subrange(s, pos, stop);
            out.push(line);
            assert(line@ =~= without_return(rest.take(end - pos)));
            assert(rest.skip(end - pos + 1) =~= s@.skip(end + 1));
            assert(slices(out@) =~= before + seq![line@]);
            assert(before + (seq![line@] + lines_of(s@.skip(end + 1))) =~= before + seq![line@]
                + lines_of(s@.skip(end + 1)));
            pos = end + 1;
        } else {
            let line = slice_subrange(s, pos, end);
            out.push(line);
            assert(line@ =~= rest);
            assert(slices(out@) =~= before + seq![line@]);
            assert(lines_of(s@.skip(end as int)) =~= seq![]);
            pos = end;
        }
    }
    assert(lines_of(s@.skip(pos as int)) =~= seq![]);
    assert(slices(out@) + lines_of(s@.skip(pos as int)) =~= slices(out@));
    out
}

/// The pieces of `s` between the separators `c`; a text without a separator is one piece.
pub open spec fn pieces_of(s: Seq<char>, c: char) -> Seq<Seq<char>>
    decreases s.len(),
{
    let k = first_index(s, c);
    if 0 <= k < s.len() {
        seq![s.take(k)] + pieces_of(s.skip(k + 1), c)
    } else {
        seq![s]
    }
}

/// Where the pieces of a text end: at each separator. What stands behind makes the next pieces,
/// and a text without a separator is one piece.
pub proof fn pieces_end_at_separators(a: Seq<char>, c: char, b: Seq<char>)
    requires
        !a.contains(c),
    ensures
        pieces_of(a + seq![c] + b, c) == seq![a] + pieces_of(b, c),
        pieces_of(a, c) == seq![a],
{
    assert forall|i: int| 0 <= i < a.len() implies a[i] != c by {
        assert(a.contains(a[i]));
    }
    first_index_is(a, c, a.len() as int);
    let s = a + seq![c] + b;
    assert forall|i: int| 0 <= i < a.len() implies s[i] != c by {
        assert(s[i] == a[i]);
    }
    first_index_is(s, c, a.len() as int);
    assert(s.take(a.len() as int) =~= a);
    assert(s.skip(a.len() as int + 1) =~= b);
}

/// Splits a text at each separator.
pub fn split_at_each<'a>(s: &'a [char], c: char) -> (r: Vec<&'a [char]>)
    ensures
        slices(r@) == pieces_of(s@, c),
{
    let mut out: Vec<&'a [char]> = Vec::new();
    let mut pos: usize = 0;
    assert(s@.skip(0) =~= s@);
    assert(slices(out@) + pieces_of(s@, c) =~= pieces_of(s@, c));
    let mut end: usize = find_char(s, 0, c);
    while end < s.len()
        invariant
            pos <= end <= s@.len(),
            end - pos == first_index(s@.skip(pos as int), c),
            slices(out@) + pieces_of(s@.skip(pos as int), c) == pieces_of(s@, c),
        decreases s@.len() - end,
    {
        let ghost rest = s@.skip(pos as int);
        let ghost before = slices(out@);
        let piece = slice_subrange(s, pos, end);
        out.push(piece);
        assert(piece@ =~= rest.take(end - pos));
        assert(rest.skip(end - pos + 1) =~= s@.skip(end + 1));
        assert(slices(out@) =~= before + seq![piece@]);
        assert(before + (seq![piece@] + pieces_of(s@.skip(end + 1), c)) =~= before + seq![piece@]
            + pieces_of(s@.skip(end + 1), c));
        pos = end + 1;
        end = find_char(s, pos, c);
    }
    let ghost before = slices(out@);
    let piece = slice_subrange(s, pos, end);
    assert(piece@ =~= s@.skip(pos as int));
    out.push(piece);
    assert(slices(out@) =~= before + seq![piece@]);
    out
}

/// Whether `part` stands in `s` at index `i`.
pub open spec fn stands_at(s: Seq<char>, part: Seq<char>, i: int) -> bool {
    0 <= i && i + part.len() <= s.len() && s.subrange(i, i + part.len()) == part
}

/// Whether `s` begins with `prefix`.
pub open spec fn begins_with(s: Seq<char>, prefix: Seq<char>) -> bool {
    stands_at(s, prefix, 0)
}

/// Whether `part` stands somewhere in `s`.
pub open spec fn contains_text(s: Seq<char>, part: Seq<char>) -> bool {
    exists|i: int| #[trigger] stands_at(s, part, i)
}

/// The first index at which `part` stands in `s`, where it stands somewhere.
pub open spec fn first_place(s: Seq<char>, part: Seq<char>) -> int {
    choose|i: int| #[trigger]
        stands_at(s, part, i) && forall|j: int| 0 <= j < i ==> !stands_at(s, part, j)
}

/// There is only one first place.
pub proof fn first_place_is(s: Seq<char>, part: Seq<char>, i: int)
    requires
        stands_at(s, part, i),
        forall|j: int| 0 <= j < i ==> !stands_at(s, part, j),
    ensures
        contains_text(s, part),
        first_place(s, part) == i,
{
    let k = first_place(s, part);
    assert(stands_at(s, part, k) && forall|j: int| 0 <= j < k ==> !stands_at(s, part, j));
}

/// Tells whether `part` stands in `s` at index `i`.
pub fn part_at(s: &[char], part: &[char], i: usize) -> (r: bool)
    requires
        i <= s@.len(),
    ensures
        r == stands_at(s@, part@, i as int),
{
    let n: usize = s.len();
    if n - i < part.len() {
        return false;
    }
    let mut k: usize = 0;
    while k < part.len()
        invariant
            n == s@.len(),
            i + part@.len() <= n,
            k <= part@.len(),
            forall|j: int| 0 <= j < k ==> s@[i + j] == part@[j],
        decreases part@.len() - k,
    {
        if s[i + k] != part[k] {
            assert(s@.subrange(i as int, i + part@.len())[k as int] != part@[k as int]);
            return false;
        }
        k += 1;
    }
    assert(s@.subrange(i as int, i + part@.len()) =~= part@);
    true
}

/// Finds the first place at which `part` stands in `s`.
pub fn find_text(s: &[char], part: &[char]) -> (r: Option<usize>)
    ensures
        match r {
            Some(i) => {
                &&& stands_at(s@, part@, i as int)
                &&& forall|j: int| 0 <= j < i ==> !stands_at(s@, part@, j)
            },
            None => !contains_text(s@, part@),
        },
{
    let mut i: usize = 0;
    while i <= s.len()
        invariant
            i <= s@.len() + 1,
            forall|j: int| 0 <= j < i ==> !stands_at(s@, part@, j),
        decreases s@.len() + 1 - i,
    {
        if part_at(s, part, i) {
            return Some(i);
        }
        if i == s.len() {
            return None;
        }
        i += 1;
    }
    None
}

/// Tells whether `text` begins with `prefix`.
pub fn starts_with(text: &str, prefix: &str) -> (r: bool)
    ensures
        r == begins_with(text@, prefix@),
{
    let t = chars_of(text);
    let p = chars_of(prefix);
    part_at(t.as_slice(), p.as_slice(), 0)
}

/// Tells whether `part` stands somewhere in `text`.
pub fn has_part(text: &str, part: &str) -> (r: bool)
    ensures
        r == contains_text(text@, part@),
{
    let t = chars_of(text);
    let p = chars_of(part);
    find_text(t.as_slice(), p.as_slice()).is_some()
}

// ---------------------------------------------------------------------------
// Joining
// ---------------------------------------------------------------------------
/// The items one behind another, with `sep` between each two.
pub open spec fn joined(items: Seq<Seq<char>>, sep: Seq<char>) -> Seq<char>
    decreases items.len(),
{
    if items.len() == 0 {
        seq![]
    } else if items.len() == 1 {
        items[0]
    } else {
        joined(items.drop_last(), sep) + sep + items.last()
    }
}

/// Joining puts the separator between each two items and nowhere else.
pub proof fn joining_separates_items(items: Seq<Seq<char>>, x: Seq<char>, sep: Seq<char>)
    ensures
        joined(Seq::<Seq<char>>::empty(), sep).len() == 0,
        joined(seq![x], sep) == x,
        items.len() > 0 ==> joined(items.push(x), sep) == joined(items, sep) + sep + x,
{
    assert(items.push(x).drop_last() =~= items);
}

/// Appends the characters of a slice.
pub fn push_chars(out: &mut Vec<char>, s: &[char])
    ensures
        final(out)@ == old(out)@ + s@,
{
    let ghost before = out@;
    let mut i: usize = 0;
    assert(before + s@.take(0) =~= before);
    while i < s.len()
        invariant
            i <= s@.len(),
            out@ == before + s@.take(i as int),
        decreases s@.len() - i,
    {
        out.push(s[i]);
        i += 1;
        assert(before + s@.take(i as int) =~= (before + s@.take(i - 1)).push(s@[i - 1]));
    }
    assert(s@.take(i as int) =~= s@);
}

/// Joins the items `from..to` with a separator between each two.
pub fn join_slices(items: &[&[char]], from: usize, to: usize, sep: char) -> (r: Vec<char>)
    requires
        from <= to <= items@.len(),
    ensures
        r@ == joined(slices(items@).subrange(from as int, to as int), seq![sep]),
{
    let mut out: Vec<char> = Vec::new();
    let ghost all = slices(items@);
    let mut i: usize = from;
    assert(all.subrange(from as int, from as int) =~= seq![]);
    while i < to
        invariant
            from <= i <= to <= items@.len(),
            all == slices(items@),
            out@ == joined(all.subrange(from as int, i as int), seq![sep]),
        decreases to - i,
    {
        let ghost before = all.subrange(from as int, i as int);
        let ghost after = all.subrange(from as int, i + 1);
        assert(after.drop_last() =~= before);
        assert(after.last() == items@[i as int]@);
        if i > from {
            out.push(sep);
            assert(out@ =~= joined(before, seq![sep]) + seq![sep]);
        }
        push_chars(&mut out, items[i]);
        assert(out@ =~= joined(after, seq![sep]));
        i += 1;
    }
    out
}

// ---------------------------------------------------------------------------
// Decimal numbers
// ---------------------------------------------------------------------------
/// Whether `c` is one of the ten ASCII digits.
pub open spec fn is_digit(c: char) -> bool {
    '0' <= c <= '9'
}

/// What a digit stands for.
pub open spec fn digit_value(c: char) -> int {
    c as int - '0' as int
}

/// The digit that stands for `d`.
pub open spec fn digit_char(d: int) -> char {
    (('0' as int) + d) as char
}

/// Whether `s` consists of digits, at least one.
pub open spec fn is_digits(s: Seq<char>) -> bool {
    s.len() > 0 && forall|i: int| 0 <= i < s.len() ==> is_digit(#[trigger] s[i])
}

/// The number that a sequence of digits denotes.
pub open spec fn number_of(s: Seq<char>) -> int
    decreases s.len(),
{
    if s.len() == 0 {
        0
    } else {
        number_of(s.drop_last()) * 10 + digit_value(s.last())
    }
}

/// The decimal notation of `n`, without leading zeros.
pub open spec fn decimal(n: int) -> Seq<char>
    decreases n,
{
    if n < 10 {
        seq![digit_char(n)]
    } else {
        decimal(n / 10).push(digit_char(n % 10))
    }
}

/// `s` with zeros in front up to `width` characters.
pub open spec fn zero_padded(s: Seq<char>, width: int) -> Seq<char> {
    if s.len() >= width {
        s
    } else {
        Seq::new((width - s.len()) as nat, |i: int| '0') + s
    }
}

/// The decimal notation of an integer, with a minus sign in front of a negative one.
pub open spec fn signed_decimal(n: int) -> Seq<char> {
    if n < 0 {
        seq!['-'] + decimal(-n)
    } else {
        decimal(n)
    }
}

/// Tells whether `c` is an ASCII digit.
pub fn digit(c: char) -> (r: bool)
    ensures
        r == is_digit(c),
{
    '0' <= c && c <= '9'
}

/// Writes a number in decimal notation.
pub fn decimal_chars(n: u64) -> (r: Vec<char>)
    ensures
        r@ == decimal(n as int),
    decreases n,
{
    if n < 10 {
        let mut out: Vec<char> = Vec::new();
        out.push((48u8 + n as u8) as char);
        assert(out@ =~= decimal(n as int));
        out
    } else {
        let mut out = decimal_chars(n / 10);
        out.push((48u8 + (n % 10) as u8) as char);
        out
    }
}

/// Decimal notation reads back as the number that was written.
pub proof fn decimal_reads_back(n: int)
    requires
        n >= 0,
    ensures
        is_digits(decimal(n)),
        number_of(decimal(n)) == n,
    decreases n,
{
    if n < 10 {
        assert(decimal(n).drop_last() =~= seq![]);
        assert(number_of(seq![]) == 0);
    } else {
        decimal_reads_back(n / 10);
        assert(decimal(n).drop_last() =~= decimal(n / 10));
    }
}

/// Zeros in front make no difference to the number that digits denote.
pub proof fn padding_keeps_number(n: int, width: int)
    requires
        n >= 0,
    ensures
        is_digits(zero_padded(decimal(n), width)),
        number_of(zero_padded(decimal(n), width)) == n,
        decimal(n).len() <= width ==> zero_padded(decimal(n), width).len() == width,
{
    decimal_reads_back(n);
    let s = decimal(n);
    if s.len() < width {
        zeros_in_front(s, (width - s.len()) as nat);
    }
}

proof fn zeros_in_front(s: Seq<char>, k: nat)
    ensures
        number_of(Seq::new(k, |i: int| '0') + s) == number_of(s),
    decreases s.len(), k,
{
    let zeros = Seq::new(k, |i: int| '0');
    if s.len() > 0 {
        zeros_in_front(s.drop_last(), k);
        assert((zeros + s).drop_last() =~= zeros + s.drop_last());
        assert((zeros + s).last() == s.last());
    } else if k > 0 {
        let fewer = Seq::new((k - 1) as nat, |i: int| '0');
        zeros_in_front(s, (k - 1) as nat);
        assert((zeros + s).drop_last() =~= fewer + s);
        assert((zeros + s).last() == '0');
    } else {
        assert(zeros + s =~= s);
    }
}

/// How many digits a small number has.
pub proof fn decimal_is_short(n: int)
    requires
        0 <= n < 10000,
    ensures
        1 <= decimal(n).len() <= 4,
        n < 100 ==> decimal(n).len() <= 2,
{
    reveal_with_fuel(decimal, 4);
}

/// More digits denote no smaller number.
proof fn number_of_grows(s: Seq<char>, k: int)
    requires
        0 <= k <= s.len(),
        forall|i: int| 0 <= i < s.len() ==> is_digit(#[trigger] s[i]),
    ensures
        0 <= number_of(s.take(k)) <= number_of(s),
    decreases s.len(),
{
    if k == s.len() {
        assert(s.take(k) =~= s);
        if s.len() > 0 {
            number_of_grows(s.drop_last(), s.len() - 1);
            assert(s.drop_last().take(s.len() - 1) =~= s.drop_last());
            assert(is_digit(s[s.len() - 1]));
        }
    } else {
        number_of_grows(s.drop_last(), k);
        assert(s.drop_last().take(k) =~= s.take(k));
        assert(is_digit(s[s.len() - 1]));
    }
}

/// Reads a number of digits alone, no greater than `max`.
pub fn read_digits(s: &[char], max: u64) -> (r: Option<u64>)
    ensures
        match r {
            Some(n) => is_digits(s@) && n == number_of(s@) && n <= max,
            None => !is_digits(s@) || number_of(s@) > max,
        },
{
    if s.len() == 0 {
        return None;
    }
    let mut all: bool = true;
    let mut j: usize = 0;
    while j < s.len()
        invariant
            j <= s@.len(),
            all == (forall|i: int| 0 <= i < j ==> is_digit(#[trigger] s@[i])),
        decreases s@.len() - j,
    {
        if !digit(s[j]) {
            all = false;
        }
        j += 1;
    }
    if !all {
        return None;
    }
    let mut n: u64 = 0;
    let mut i: usize = 0;
    assert(s@.take(0) =~= seq![]);
    while i < s.len()
        invariant
            i <= s@.len(),
            is_digits(s@),
            n == number_of(s@.take(i as int)),
            n <= max,
        decreases s@.len() - i,
    {
        let c = s[i];
        assert(is_digit(s@[i as int]));
        let d: u64 = (c as u64) - 48;
        let ghost next = s@.take(i + 1);
        assert(next.drop_last() =~= s@.take(i as int));
        proof {
            number_of_grows(s@, i + 1);
        }
        let wide: u128 = (n as u128) * 10 + d as u128;
        if wide > max as u128 {
            return None;
        }
        n = wide as u64;
        i += 1;
    }
    assert(s@.take(i as int) =~= s@);
    Some(n)
}

/// How an unsigned integer is written: digits, with one plus sign allowed in front.
pub open spec fn unsigned_digits(s: Seq<char>) -> Seq<char> {
    if s.len() > 0 && s[0] == '+' {
        s.drop_first()
    } else {
        s
    }
}

/// The unsigned integer that `s` denotes, if it denotes one that is no greater than `max`.
pub open spec fn unsigned_of(s: Seq<char>, max: int) -> Option<int> {
    let d = unsigned_digits(s);
    if is_digits(d) && number_of(d) <= max {
        Some(number_of(d))
    } else {
        None
    }
}

/// The signed integer of 64 bits that `s` denotes, if it denotes one.
pub open spec fn signed_of(s: Seq<char>) -> Option<int> {
    if s.len() > 0 && s[0] == '-' {
        let d = s.drop_first();
        if is_digits(d) && -number_of(d) >= i64::MIN {
            Some(-number_of(d))
        } else {
            None
        }
    } else {
        unsigned_of(s, i64::MAX as int)
    }
}

/// How integers are read: from their digits, with zeros in front or a plus sign in front, up to a
/// greatest number, and with a minus sign where they may be negative. A text with anything else in
/// it is none.
pub proof fn integers_are_read_as_written(n: int, width: int, max: int, s: Seq<char>)
    requires
        n >= 0,
        max >= 0,
    ensures
        unsigned_of(zero_padded(decimal(n), width), max) == (if n <= max {
            Some(n)
        } else {
            None
        }),
        unsigned_of(seq!['+'] + decimal(n), max) == (if n <= max {
            Some(n)
        } else {
            None
        }),
        n <= i64::MAX ==> signed_of(decimal(n)) == Some(n) && signed_of(seq!['-'] + decimal(n))
            == Some(-n),
        unsigned_of(s, max) is Some ==> is_digits(s) || (s.len() > 0 && s[0] == '+' && is_digits(
            s.skip(1),
        )),
        signed_of(s) is Some ==> is_digits(s) || (s.len() > 0 && (s[0] == '+' || s[0] == '-')
            && is_digits(s.skip(1))),
{
    padding_keeps_number(n, width);
    decimal_reads_back(n);
    assert(is_digit(zero_padded(decimal(n), width)[0]));
    assert(is_digit(decimal(n)[0]));
    assert((seq!['+'] + decimal(n)).drop_first() =~= decimal(n));
    assert((seq!['-'] + decimal(n)).drop_first() =~= decimal(n));
    if s.len() > 0 {
        assert(s.skip(1) =~= s.drop_first());
    }
}

/// An integer as a mathematical one, where there is one.
pub open spec fn as_int(n: Option<u64>) -> Option<int> {
    match n {
        Some(x) => Some(x as int),
        None => None,
    }
}

/// Reads an unsigned integer.
pub fn read_unsigned(s: &[char], max: u64) -> (r: Option<u64>)
    ensures
        as_int(r) == unsigned_of(s@, max as int),
{
    if s.len() > 0 && s[0] == '+' {
        let rest = slice_subrange(s, 1, s.len());
        assert(rest@ =~= s@.drop_first());
        read_digits(rest, max)
    } else {
        read_digits(s, max)
    }
}

/// Reads a signed integer of 64 bits.
pub fn read_signed(s: &[char]) -> (r: Option<i64>)
    ensures
        match r {
            Some(n) => signed_of(s@) == Some(n as int),
            None => signed_of(s@) is None,
        },
{
    if s.len() > 0 && s[0] == '-' {
        let rest = slice_subrange(s, 1, s.len());
        assert(rest@ =~= s@.drop_first());
        match read_digits(rest, 0x8000_0000_0000_0000) {
            Some(n) => {
                if n == 0x8000_0000_0000_0000 {
                    Some(i64::MIN)
                } else {
                    Some(-(n as i64))
                }
            },
            None => None,
        }
    } else {
        match read_unsigned(s, 0x7fff_ffff_ffff_ffff) {
            Some(n) => Some(n as i64),
            None => None,
        }
    }
}

/// Writes a number in decimal notation, with zeros in front up to `width` characters.
pub fn padded_chars(n: u64, width: usize) -> (r: Vec<char>)
    ensures
        r@ == zero_padded(decimal(n as int), width as int),
{
    let digits = decimal_chars(n);
    let mut out: Vec<char> = Vec::new();
    let have: usize = digits.len();
    if have < width {
        let missing: usize = width - have;
        let mut i: usize = 0;
        while i < missing
            invariant
                i <= missing,
                out@ == Seq::new(i as nat, |j: int| '0'),
            decreases missing - i,
        {
            out.push('0');
            i += 1;
            assert(out@ =~= Seq::new(i as nat, |j: int| '0'));
        }
    }
    push_chars(&mut out, digits.as_slice());
    assert(out@ =~= zero_padded(decimal(n as int), width as int));
    out
}

/// Writes an integer in decimal notation.
pub fn signed_chars(n: i64) -> (r: Vec<char>)
    ensures
        r@ == signed_decimal(n as int),
{
    if n < 0 {
        let size: u64 = if n == i64::MIN {
            0x8000_0000_0000_0000
        } else {
            (-n) as u64
        };
        let digits = decimal_chars(size);
        let mut out: Vec<char> = Vec::new();
        out.push('-');
        push_chars(&mut out, digits.as_slice());
        assert(out@ =~= signed_decimal(n as int));
        out
    } else {
        decimal_chars(n as u64)
    }
}

/// Appends the decimal notation of an integer to a text.
pub fn append_signed(out: &mut String, n: i64)
    ensures
        final(out)@ == old(out)@ + signed_decimal(n as int),
{
    let digits = signed_chars(n);
    let t = text_of(digits.as_slice());
    out.append(t.as_str());
}

} // verus!
