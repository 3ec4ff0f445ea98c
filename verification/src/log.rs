//! A day's log: its sections, the hours it declares, and the report that comes out of it.
use vstd::prelude::*;
use vstd::slice::slice_subrange;

use crate::date::{day_text, Date};
use crate::failure::Failure;
use crate::hours::{declared_hours, hours_refusal, parse_workhour};
use crate::lists::filter_next;
use crate::text::{
    chars_of, first_index, first_index_bounds, is_white, join_slices, joined,
    lines_before_a_break, lines_of, lines_on_both_sides, part_at, slices, split_lines, text_of,
    trim, trimmed, trimmed_before_white, trimmed_idempotent,
};

verus! {

// ---------------------------------------------------------------------------
// Headings
// ---------------------------------------------------------------------------
/// The number of hash signs at the start of a line.
pub open spec fn hash_run(line: Seq<char>) -> int
    decreases line.len(),
{
    if line.len() > 0 && line[0] == '#' {
        1 + hash_run(line.drop_first())
    } else {
        0
    }
}

/// The level and the title of a heading: one to six hash signs, white space, and the title
/// without the white space around it.
pub open spec fn heading_of(line: Seq<char>) -> Option<(int, Seq<char>)> {
    let n = hash_run(line);
    if 1 <= n <= 6 && n < line.len() && is_white(line[n]) {
        Some((n, trimmed(line.skip(n))))
    } else {
        None
    }
}

/// The sections of a log that are read.
#[derive(Clone, Copy, Debug, PartialEq, Eq, Structural)]
pub enum Section {
    WorkRecord,
    Tomorrow,
    Undone,
    Concert,
    DailyRemark,
}

impl Section {
    /// The title of a section.
    pub open spec fn title(self) -> Seq<char> {
        match self {
            Section::WorkRecord => "工作记录"@,
            Section::Tomorrow => "明日计划"@,
            Section::Undone => "未完成工作"@,
            Section::Concert => "需协调工作"@,
            Section::DailyRemark => "备注"@,
        }
    }
}

/// Whether a line is the heading of a section: of the second level, with the section's title.
pub open spec fn opens(line: Seq<char>, section: Section) -> bool {
    heading_of(line) == Some((2int, section.title()))
}

/// Whether a line ends the section before it: a heading of the first or second level.
pub open spec fn closes(line: Seq<char>) -> bool {
    heading_of(line) matches Some(h) && h.0 <= 2
}

/// The index of the last line that opens a section, or -1.
pub open spec fn last_opening(lines: Seq<Seq<char>>, section: Section) -> int
    decreases lines.len(),
{
    if lines.len() == 0 {
        -1
    } else if opens(lines.last(), section) {
        lines.len() - 1
    } else {
        last_opening(lines.drop_last(), section)
    }
}

/// The index of the first line from `i` on that ends a section, or the number of lines.
pub open spec fn body_end(lines: Seq<Seq<char>>, i: int) -> int
    decreases lines.len() - i,
{
    if i < 0 || i >= lines.len() {
        lines.len() as int
    } else if closes(lines[i]) {
        i
    } else {
        body_end(lines, i + 1)
    }
}

/// The text below the heading at index `i`, without the white space around it; none for -1.
pub open spec fn text_below(lines: Seq<Seq<char>>, i: int) -> Seq<char> {
    if i < 0 {
        seq![]
    } else {
        trimmed(joined(lines.subrange(i + 1, body_end(lines, i + 1)), seq!['\n']))
    }
}

/// The text of a section: what stands below its last heading, up to the next heading of the
/// first or second level.
pub open spec fn section_text(markdown: Seq<char>, section: Section) -> Seq<char> {
    let lines = lines_of(markdown);
    text_below(lines, last_opening(lines, section))
}

/// The sections of a log.
pub struct Sections {
    pub work_record: String,
    pub tomorrow: String,
    pub undone: String,
    pub concert: String,
    pub daily_remark: String,
}

impl Sections {
    /// The text of one section.
    pub open spec fn value(self, section: Section) -> Seq<char> {
        match section {
            Section::WorkRecord => self.work_record@,
            Section::Tomorrow => self.tomorrow@,
            Section::Undone => self.undone@,
            Section::Concert => self.concert@,
            Section::DailyRemark => self.daily_remark@,
        }
    }

    fn set(&mut self, section: Section, text: String)
        ensures
            final(self).value(section) == text@,
            forall|other: Section| other != section ==> #[trigger] final(self).value(other) == old(
                self,
            ).value(other),
    {
        match section {
            Section::WorkRecord => {
                self.work_record = text;
            },
            Section::Tomorrow => {
                self.tomorrow = text;
            },
            Section::Undone => {
                self.undone = text;
            },
            Section::Concert => {
                self.concert = text;
            },
            Section::DailyRemark => {
                self.daily_remark = text;
            },
        }
    }
}

/// Counts the hash signs at the start of a line.
fn count_hashes(line: &[char]) -> (r: usize)
    ensures
        r == hash_run(line@),
        r <= line@.len(),
{
    let mut n: usize = 0;
    assert(line@.skip(0) =~= line@);
    while n < line.len() && line[n] == '#'
        invariant
            n <= line@.len(),
            hash_run(line@) == n + hash_run(line@.skip(n as int)),
        decreases line@.len() - n,
    {
        assert(line@.skip(n as int).drop_first() =~= line@.skip(n + 1));
        n += 1;
    }
    n
}

/// Reads a heading: its level and its title.
fn read_heading<'a>(line: &'a [char]) -> (r: Option<(usize, &'a [char])>)
    ensures
        match r {
            Some(h) => heading_of(line@) == Some((h.0 as int, h.1@)),
            None => heading_of(line@) is None,
        },
{
    let n = count_hashes(line);
    if 1 <= n && n <= 6 && n < line.len() && line[n].is_whitespace() {
        let rest = slice_subrange(line, n, line.len());
        assert(rest@ =~= line@.skip(n as int));
        Some((n, trim(rest)))
    } else {
        None
    }
}

fn title_is(title: &[char], wanted: &str) -> (r: bool)
    ensures
        r == (title@ == wanted@),
{
    let w = chars_of(wanted);
    title.len() == w.len() && {
        let same = part_at(title, w.as_slice(), 0);
        assert(title@.subrange(0, title@.len() as int) =~= title@);
        same
    }
}

proof fn titles_differ()
    ensures
        forall|a: Section, b: Section| a.title() == b.title() ==> a == b,
{
    reveal_strlit("工作记录");
    reveal_strlit("明日计划");
    reveal_strlit("未完成工作");
    reveal_strlit("需协调工作");
    reveal_strlit("备注");
    assert("工作记录"@[0] != "明日计划"@[0]);
    assert("未完成工作"@[0] != "需协调工作"@[0]);
}

/// The section that has a title.
fn section_with_title(title: &[char]) -> (r: Option<Section>)
    ensures
        match r {
            Some(s) => s.title() == title@ && forall|other: Section|
                other != s ==> #[trigger] other.title() != title@,
            None => forall|s: Section| #[trigger] s.title() != title@,
        },
{
    let found: Option<Section> = if title_is(title, "工作记录") {
        Some(Section::WorkRecord)
    } else if title_is(title, "明日计划") {
        Some(Section::Tomorrow)
    } else if title_is(title, "未完成工作") {
        Some(Section::Undone)
    } else if title_is(title, "需协调工作") {
        Some(Section::Concert)
    } else if title_is(title, "备注") {
        Some(Section::DailyRemark)
    } else {
        None
    };
    proof {
        titles_differ();
        if let Some(s) = found {
            assert forall|other: Section| other != s implies #[trigger] other.title() != title@ by {
                assert(s.title() == title@);
            }
        }
    }
    found
}

proof fn body_end_is(lines: Seq<Seq<char>>, i: int, k: int)
    requires
        0 <= i <= k <= lines.len(),
        forall|j: int| i <= j < k ==> !closes(#[trigger] lines[j]),
        k < lines.len() ==> closes(lines[k]),
    ensures
        body_end(lines, i) == k,
    decreases k - i,
{
    if i < k {
        assert(!closes(lines[i]));
        body_end_is(lines, i + 1, k);
    }
}

/// Reads the sections of a log.
pub fn parse_markdown_sections(markdown_text: &str) -> (r: Sections)
    ensures
        forall|s: Section| #[trigger] r.value(s) == section_text(markdown_text@, s),
{
    let text = chars_of(markdown_text);
    let list = split_lines(text.as_slice());
    let ghost lines = lines_of(markdown_text@);
    let mut sections = Sections {
        work_record: String::new(),
        tomorrow: String::new(),
        undone: String::new(),
        concert: String::new(),
        daily_remark: String::new(),
    };
    let mut current: Option<(Section, usize)> = None;
    let mut n: usize = 0;
    assert(lines.take(0) =~= seq![]);
    while n < list.len()
        invariant
            lines == slices(list@),
            n <= list@.len(),
            forall|s: Section|
                (current matches Some(c) ==> c.0 != s) ==> #[trigger] sections.value(s)
                    == text_below(lines, last_opening(lines.take(n as int), s)),
            current matches Some(c) ==> {
                &&& 1 <= c.1 <= n
                &&& last_opening(lines.take(n as int), c.0) == c.1 - 1
                &&& forall|j: int| c.1 <= j < n ==> !closes(#[trigger] lines[j])
            },
        decreases list@.len() - n,
    {
        let line = list[n];
        assert(lines[n as int] == line@);
        let ghost next = lines.take(n + 1);
        assert(next.drop_last() =~= lines.take(n as int));
        assert(next.last() == line@);
        match read_heading(line) {
            Some(h) => {
                if h.0 <= 2 {
                    if let Some(c) = current {
                        let body = join_slices(list.as_slice(), c.1, n, '\n');
                        let kept = text_of(trim(body.as_slice()));
                        proof {
                            body_end_is(lines, c.1 as int, n as int);
                        }
                        sections.set(c.0, kept);
                        current = None;
                    }
                    assert(forall|s: Section| #[trigger]
                        sections.value(s) == text_below(lines, last_opening(lines.take(n as int), s)));
                }
                if h.0 == 2 {
                    match section_with_title(h.1) {
                        Some(s) => {
                            current = Some((s, n + 1));
                        },
                        None => {},
                    }
                }
            },
            None => {},
        }
        n += 1;
    }
    assert(lines.take(n as int) =~= lines);
    if let Some(c) = current {
        let body = join_slices(list.as_slice(), c.1, n, '\n');
        let kept = text_of(trim(body.as_slice()));
        proof {
            body_end_is(lines, c.1 as int, n as int);
        }
        sections.set(c.0, kept);
    }
    sections
}

// ---------------------------------------------------------------------------
// The log of a day
// ---------------------------------------------------------------------------
/// The number of characters of a text that are not white space.
pub open spec fn visible(text: Seq<char>) -> nat {
    text.filter(|c: char| !is_white(c)).len()
}

/// Accepts a plan for tomorrow that has at least four characters besides white space.
pub fn validate_tomorrow(text: &str) -> (r: Result<String, Failure>)
    ensures
        match r {
            Ok(t) => visible(text@) >= 4 && t@ == text@,
            Err(e) => visible(text@) < 4 && e is TomorrowTooShort,
        },
{
    let chars = chars_of(text);
    let mut count: usize = 0;
    let mut i: usize = 0;
    let ghost shown = |c: char| !is_white(c);
    assert(text@.take(0).filter(shown) =~= seq![]) by {
        reveal(Seq::filter);
    }
    while i < chars.len()
        invariant
            chars@ == text@,
            i <= chars@.len(),
            shown == (|c: char| !is_white(c)),
            count == text@.take(i as int).filter(shown).len(),
            count <= i,
        decreases chars@.len() - i,
    {
        let ghost next = text@.take(i + 1);
        assert(next.drop_last() =~= text@.take(i as int));
        assert(next.filter(shown) == {
            let sub = next.drop_last().filter(shown);
            if shown(next.last()) {
                sub.push(next.last())
            } else {
                sub
            }
        }) by {
            reveal(Seq::filter);
        }
        if !chars[i].is_whitespace() {
            count += 1;
        }
        i += 1;
    }
    assert(text@.take(i as int) =~= text@);
    if count < 4 {
        return Err(Failure::TomorrowTooShort);
    }
    Ok(text.to_string())
}

/// What a log says.
pub struct ParsedLog {
    pub target_date: Date,
    pub log_path: String,
    pub work_record: String,
    pub tomorrow: String,
    pub undone: String,
    pub concert: String,
    pub daily_remark: String,
    /// The declared hours, as the numeral that stands in the work record.
    pub workhour: String,
}

/// The name of the file that holds the log of a day.
pub fn log_file_name(target_date: &Date) -> (r: String)
    ensures
        r@ == day_text(target_date@) + ".md"@,
{
    let mut name = target_date.text();
    name.append(".md");
    name
}

/// Why a log is not accepted, if it is not: it has no work record, its plan for tomorrow is too
/// short, or the hours in its work record are not accepted.
pub open spec fn log_refusal(markdown: Seq<char>) -> Option<Failure> {
    if section_text(markdown, Section::WorkRecord).len() == 0 {
        Some(Failure::NoWorkRecord)
    } else if visible(section_text(markdown, Section::Tomorrow)) < 4 {
        Some(Failure::TomorrowTooShort)
    } else {
        hours_refusal(section_text(markdown, Section::WorkRecord))
    }
}

/// Reads the log of a day.
pub fn parse_log(target_date: Date, log_path: String, markdown: &str) -> (r: Result<
    ParsedLog,
    Failure,
>)
    ensures
        match r {
            Ok(log) => {
                &&& log_refusal(markdown@) is None
                &&& log.target_date == target_date
                &&& log.log_path == log_path
                &&& log.work_record@ == section_text(markdown@, Section::WorkRecord)
                &&& log.tomorrow@ == section_text(markdown@, Section::Tomorrow)
                &&& log.undone@ == section_text(markdown@, Section::Undone)
                &&& log.concert@ == section_text(markdown@, Section::Concert)
                &&& log.daily_remark@ == section_text(markdown@, Section::DailyRemark)
                &&& declared_hours(log.work_record@) == Some(log.workhour@)
            },
            Err(e) => log_refusal(markdown@) == Some(e),
        },
{
    let sections = parse_markdown_sections(markdown);
    assert(sections.value(Section::WorkRecord) == section_text(markdown@, Section::WorkRecord));
    assert(sections.value(Section::Tomorrow) == section_text(markdown@, Section::Tomorrow));
    assert(sections.value(Section::Undone) == section_text(markdown@, Section::Undone));
    assert(sections.value(Section::Concert) == section_text(markdown@, Section::Concert));
    assert(sections.value(Section::DailyRemark) == section_text(markdown@, Section::DailyRemark));
    if sections.work_record.as_str().is_empty() {
        return Err(Failure::NoWorkRecord);
    }
    let tomorrow = match validate_tomorrow(sections.tomorrow.as_str()) {
        Ok(t) => t,
        Err(e) => {
            return Err(e);
        },
    };
    match parse_workhour(sections.work_record.as_str()) {
        Ok(workhour) => Ok(
            ParsedLog {
                target_date,
                log_path,
                work_record: sections.work_record,
                tomorrow,
                undone: sections.undone,
                concert: sections.concert,
                daily_remark: sections.daily_remark,
                workhour,
            },
        ),
        Err(e) => Err(e),
    }
}

/// The text of a section has no white space around it.
pub proof fn section_text_is_trimmed(markdown: Seq<char>, section: Section)
    ensures
        trimmed(section_text(markdown, section)) == section_text(markdown, section),
{
    let lines = lines_of(markdown);
    let i = last_opening(lines, section);
    if i >= 0 {
        trimmed_idempotent(joined(lines.subrange(i + 1, body_end(lines, i + 1)), seq!['\n']));
    } else {
        assert(trimmed(seq![]) =~= seq![]);
    }
}

/// A section is what stands below its heading, up to the next heading of the first or second
/// level.
pub proof fn section_stands_below_its_heading(
    markdown: Seq<char>,
    section: Section,
    heading: int,
    end: int,
)
    requires
        0 <= heading < end <= lines_of(markdown).len(),
        opens(lines_of(markdown)[heading], section),
        forall|k: int|
            heading < k < lines_of(markdown).len() ==> !opens(
                #[trigger] lines_of(markdown)[k],
                section,
            ),
        forall|k: int| heading < k < end ==> !closes(#[trigger] lines_of(markdown)[k]),
        end < lines_of(markdown).len() ==> closes(lines_of(markdown)[end]),
    ensures
        section_text(markdown, section) == trimmed(
            joined(lines_of(markdown).subrange(heading + 1, end), seq!['\n']),
        ),
{
    let lines = lines_of(markdown);
    last_opening_is(lines, section, heading);
    body_end_is(lines, heading + 1, end);
}

proof fn last_opening_is(lines: Seq<Seq<char>>, section: Section, k: int)
    requires
        0 <= k < lines.len(),
        opens(lines[k], section),
        forall|i: int| k < i < lines.len() ==> !opens(#[trigger] lines[i], section),
    ensures
        last_opening(lines, section) == k,
    decreases lines.len(),
{
    if k < lines.len() - 1 {
        assert(!opens(lines[lines.len() - 1], section));
        let t = lines.drop_last();
        assert forall|i: int| k < i < t.len() implies !opens(#[trigger] t[i], section) by {
            assert(t[i] == lines[i]);
        }
        last_opening_is(t, section, k);
    }
}

/// A heading of the first level ends a log: what is put behind it makes no difference to a
/// section, unless it holds the section's heading. `top` is the heading, and `tail` is what is
/// put behind it.
pub proof fn top_heading_ends_the_sections(
    markdown: Seq<char>,
    top: Seq<char>,
    tail: Seq<char>,
    section: Section,
)
    requires
        markdown.len() > 0 ==> markdown.last() != '\r',
        heading_of(top) matches Some(h) && h.0 == 1,
        !top.contains('\n'),
        top.last() != '\r',
        forall|i: int|
            0 <= i < lines_of(tail).len() ==> !opens(#[trigger] lines_of(tail)[i], section),
    ensures
        section_text(markdown.push('\n') + top.push('\n') + tail, section) == section_text(
            markdown,
            section,
        ),
{
    let lines = lines_of(markdown);
    let all = markdown.push('\n') + top.push('\n') + tail;
    let end = top.push('\n') + tail;
    assert(all =~= markdown.push('\n') + end);
    lines_on_both_sides(markdown, end);
    lines_on_both_sides(top, tail);
    lines_before_a_break(markdown);
    lines_before_a_break(top);
    first_index_bounds(top, '\n');
    if first_index(top, '\n') < top.len() {
        assert(top.contains('\n'));
    }
    if top.last() == '\n' {
        assert(top[top.len() - 1] == '\n');
        assert(top.contains('\n'));
    }
    assert(lines_of(top.push('\n')) =~= seq![top]);
    let none: Seq<char> = seq![];
    let gap: Seq<Seq<char>> = if markdown.len() == 0 || markdown.last() == '\n' {
        seq![none]
    } else {
        seq![]
    };
    let more = lines_of(tail);
    let added = gap + (seq![top] + more);
    assert(lines_of(all) =~= lines + added);
    assert(hash_run(none) == 0);
    assert(heading_of(none) is None);
    assert forall|i: int| 0 <= i < added.len() implies !opens(#[trigger] added[i], section) by {
        if i > gap.len() {
            assert(added[i] == more[i - gap.len() - 1]);
        }
    }
    last_opening_before(lines, added, section);
    last_opening_bounds(lines, section);
    let at = last_opening(lines, section);
    if at >= 0 {
        body_end_bounds(lines, at + 1);
        let stop = body_end(lines, at + 1);
        let body = lines.subrange(at + 1, stop);
        if stop < lines.len() {
            body_end_is(lines + added, at + 1, stop);
            assert((lines + added).subrange(at + 1, stop) =~= body);
        } else {
            let reach = lines.len() + gap.len();
            assert((lines + added)[reach as int] == top);
            assert forall|j: int| at + 1 <= j < reach implies !closes(
                #[trigger] (lines + added)[j],
            ) by {
                if j < lines.len() {
                    assert((lines + added)[j] == lines[j]);
                } else {
                    assert((lines + added)[j] == none);
                }
            }
            body_end_is(lines + added, at + 1, reach as int);
            let longer = (lines + added).subrange(at + 1, reach as int);
            assert(longer =~= body + gap);
            if gap.len() > 0 {
                assert(longer =~= body.push(none));
                joined_with_empty_line(body);
            } else {
                assert(longer =~= body);
            }
        }
    }
}

/// A heading of the first level ends a log: the line `# x` and a tail without a known heading of
/// the second level, put behind a log, leave all its sections as they were.
pub proof fn top_heading_ends_the_log(markdown: Seq<char>, tail: Seq<char>)
    requires
        !markdown.contains('\r'),
        forall|i: int, s: Section|
            0 <= i < lines_of(tail).len() ==> !(#[trigger] opens(lines_of(tail)[i], s)),
    ensures
        forall|s: Section| #[trigger]
            section_text(markdown + "\n# x\n"@ + tail, s) == section_text(markdown, s),
{
    reveal_strlit("\n# x\n");
    let top = seq!['#', ' ', 'x'];
    assert(top.drop_first()[0] == ' ');
    assert(hash_run(top.drop_first()) == 0);
    assert(hash_run(top) == 1);
    assert(heading_of(top) is Some);
    assert(markdown + "\n# x\n"@ + tail =~= markdown.push('\n') + top.push('\n') + tail);
    if markdown.len() > 0 && markdown.last() == '\r' {
        assert(markdown[markdown.len() - 1] == '\r');
        assert(markdown.contains('\r'));
    }
    assert forall|s: Section| #[trigger]
        section_text(markdown + "\n# x\n"@ + tail, s) == section_text(markdown, s) by {
        top_heading_ends_the_sections(markdown, top, tail, s);
    }
}

proof fn last_opening_before(lines: Seq<Seq<char>>, added: Seq<Seq<char>>, section: Section)
    requires
        forall|i: int| 0 <= i < added.len() ==> !opens(#[trigger] added[i], section),
    ensures
        last_opening(lines + added, section) == last_opening(lines, section),
    decreases added.len(),
{
    if added.len() == 0 {
        assert(lines + added =~= lines);
    } else {
        assert(!opens(added[added.len() - 1], section));
        let less = added.drop_last();
        assert forall|i: int| 0 <= i < less.len() implies !opens(#[trigger] less[i], section) by {
            assert(less[i] == added[i]);
        }
        last_opening_before(lines, less, section);
        assert((lines + added).drop_last() =~= lines + less);
    }
}

proof fn last_opening_bounds(lines: Seq<Seq<char>>, section: Section)
    ensures
        -1 <= last_opening(lines, section) < lines.len(),
    decreases lines.len(),
{
    if lines.len() > 0 {
        last_opening_bounds(lines.drop_last(), section);
    }
}

proof fn body_end_bounds(lines: Seq<Seq<char>>, i: int)
    requires
        0 <= i <= lines.len(),
    ensures
        i <= body_end(lines, i) <= lines.len(),
        forall|j: int| i <= j < body_end(lines, i) ==> !closes(#[trigger] lines[j]),
        body_end(lines, i) < lines.len() ==> closes(lines[body_end(lines, i)]),
    decreases lines.len() - i,
{
    if i < lines.len() && !closes(lines[i]) {
        body_end_bounds(lines, i + 1);
    }
}

/// An empty line at the end of a text makes no difference to what trimming leaves of it.
proof fn joined_with_empty_line(body: Seq<Seq<char>>)
    ensures
        trimmed(joined(body.push(seq![]), seq!['\n'])) == trimmed(joined(body, seq!['\n'])),
{
    let none: Seq<char> = seq![];
    let longer = body.push(none);
    assert(longer.drop_last() =~= body);
    if body.len() > 0 {
        let text = joined(body, seq!['\n']);
        assert(joined(longer, seq!['\n']) =~= text.push('\n'));
        trimmed_before_white(text, '\n');
    } else {
        assert(joined(longer, seq!['\n']) =~= none);
    }
}

/// Whether a line is a heading of the first or second level by its own characters: one or two
/// hash signs at its start, and white space behind them.
pub open spec fn starts_with_one_or_two_hashes(line: Seq<char>) -> bool {
    ||| line.len() > 1 && line[0] == '#' && is_white(line[1])
    ||| line.len() > 2 && line[0] == '#' && line[1] == '#' && is_white(line[2])
}

/// Whether a line is two hash signs, white space and a title by its own characters.
pub open spec fn writes_title(line: Seq<char>, title: Seq<char>) -> bool {
    &&& line.len() > 2
    &&& line[0] == '#' && line[1] == '#' && is_white(line[2])
    &&& trimmed(line.skip(2)) == title
}

/// The words that head each section of a log.
pub open spec fn written_title(section: Section) -> Seq<char> {
    match section {
        Section::WorkRecord => "工作记录"@,
        Section::Tomorrow => "明日计划"@,
        Section::Undone => "未完成工作"@,
        Section::Concert => "需协调工作"@,
        Section::DailyRemark => "备注"@,
    }
}

proof fn hash_run_bounds(line: Seq<char>)
    ensures
        0 <= hash_run(line) <= line.len(),
    decreases line.len(),
{
    if line.len() > 0 && line[0] == '#' {
        hash_run_bounds(line.drop_first());
    }
}

/// What ends a section and what opens it shows in the first three characters of a line and in its
/// title.
proof fn headings_show_in_their_characters(line: Seq<char>, section: Section)
    ensures
        closes(line) <==> starts_with_one_or_two_hashes(line),
        opens(line, section) <==> writes_title(line, written_title(section)),
{
    hash_run_bounds(line);
    if line.len() > 0 && line[0] == '#' {
        let one = line.drop_first();
        hash_run_bounds(one);
        if one.len() > 0 && one[0] == '#' {
            let two = one.drop_first();
            hash_run_bounds(two);
            assert(one[0] == line[1]);
            if two.len() > 0 {
                assert(two[0] == line[2]);
                if two[0] == '#' {
                    hash_run_bounds(two.drop_first());
                }
            }
        }
    }
}

/// A section is what stands below the last line with its title, up to the next line that starts
/// with one or two hash signs and white space. Headings with three or more hash signs, whatever
/// they say, and all other lines belong to it.
pub proof fn lower_headings_stay_in_their_section(
    markdown: Seq<char>,
    section: Section,
    i: int,
    e: int,
)
    requires
        0 <= i < e <= lines_of(markdown).len(),
        writes_title(lines_of(markdown)[i], written_title(section)),
        forall|k: int|
            i < k < lines_of(markdown).len() ==> !writes_title(
                #[trigger] lines_of(markdown)[k],
                written_title(section),
            ),
        forall|k: int|
            i < k < e ==> !starts_with_one_or_two_hashes(#[trigger] lines_of(markdown)[k]),
        e < lines_of(markdown).len() ==> starts_with_one_or_two_hashes(lines_of(markdown)[e]),
    ensures
        section_text(markdown, section) == trimmed(
            joined(lines_of(markdown).subrange(i + 1, e), seq!['\n']),
        ),
{
    let lines = lines_of(markdown);
    headings_show_in_their_characters(lines[i], section);
    if e < lines.len() {
        headings_show_in_their_characters(lines[e], section);
    }
    assert forall|k: int| i < k < lines.len() implies !opens(#[trigger] lines[k], section) by {
        headings_show_in_their_characters(lines[k], section);
    }
    assert forall|k: int| i < k < e implies !closes(#[trigger] lines[k]) by {
        headings_show_in_their_characters(lines[k], section);
    }
    section_stands_below_its_heading(markdown, section, i, e);
}

/// A section whose title heads no line is empty.
pub proof fn section_without_a_heading_is_empty(markdown: Seq<char>, section: Section)
    requires
        forall|k: int|
            0 <= k < lines_of(markdown).len() ==> !writes_title(
                #[trigger] lines_of(markdown)[k],
                written_title(section),
            ),
    ensures
        section_text(markdown, section).len() == 0,
{
    let lines = lines_of(markdown);
    assert forall|k: int| 0 <= k < lines.len() implies !opens(#[trigger] lines[k], section) by {
        headings_show_in_their_characters(lines[k], section);
    }
    no_opening(lines, section);
}

/// The sections of a log are found under their names.
pub proof fn sections_have_their_names(markdown: Seq<char>, r: Sections)
    requires
        forall|s: Section| #[trigger] r.value(s) == section_text(markdown, s),
    ensures
        r.work_record@ == section_text(markdown, Section::WorkRecord),
        r.tomorrow@ == section_text(markdown, Section::Tomorrow),
        r.undone@ == section_text(markdown, Section::Undone),
        r.concert@ == section_text(markdown, Section::Concert),
        r.daily_remark@ == section_text(markdown, Section::DailyRemark),
{
    assert(r.value(Section::WorkRecord) == section_text(markdown, Section::WorkRecord));
    assert(r.value(Section::Tomorrow) == section_text(markdown, Section::Tomorrow));
    assert(r.value(Section::Undone) == section_text(markdown, Section::Undone));
    assert(r.value(Section::Concert) == section_text(markdown, Section::Concert));
    assert(r.value(Section::DailyRemark) == section_text(markdown, Section::DailyRemark));
}

proof fn visible_grows(text: Seq<char>, i: int)
    requires
        0 <= i < text.len(),
    ensures
        visible(text.take(i + 1)) == visible(text.take(i)) + (if is_white(text[i]) {
            0int
        } else {
            1
        }),
{
    filter_next(text, i, |c: char| !is_white(c));
}

proof fn visible_before(text: Seq<char>, i: int, j: int)
    requires
        0 <= i <= j <= text.len(),
    ensures
        visible(text.take(i)) <= visible(text.take(j)),
    decreases j - i,
{
    if i < j {
        visible_grows(text, j - 1);
        visible_before(text, i, j - 1);
    }
}

proof fn last_visible(text: Seq<char>, n: int) -> (i: int)
    requires
        0 <= n <= text.len(),
        visible(text.take(n)) > 0,
    ensures
        0 <= i < n,
        !is_white(text[i]),
        visible(text.take(i)) == visible(text.take(n)) - 1,
    decreases n,
{
    if n == 0 {
        assert(text.take(0) =~= seq![]);
        assert(visible(text.take(0)) == 0) by {
            reveal(Seq::filter);
        }
        0
    } else {
        visible_grows(text, n - 1);
        if is_white(text[n - 1]) {
            last_visible(text, n - 1)
        } else {
            n - 1
        }
    }
}

/// A plan for tomorrow is long enough exactly where four of its characters, at different places,
/// are no white space.
pub proof fn plan_has_four_visible_characters(text: Seq<char>)
    ensures
        visible(text) >= 4 <==> exists|a: int, b: int, c: int, d: int|
            0 <= a < b < c < d < text.len() && !is_white(#[trigger] text[a]) && !is_white(
                #[trigger] text[b],
            ) && !is_white(#[trigger] text[c]) && !is_white(#[trigger] text[d]),
{
    let n = text.len() as int;
    assert(text.take(n) =~= text);
    if visible(text) >= 4 {
        let d = last_visible(text, n);
        let c = last_visible(text, d);
        let b = last_visible(text, c);
        let a = last_visible(text, b);
        assert(0 <= a < b < c < d < text.len() && !is_white(text[a]) && !is_white(text[b])
            && !is_white(text[c]) && !is_white(text[d]));
    }
    if exists|a: int, b: int, c: int, d: int|
        0 <= a < b < c < d < text.len() && !is_white(#[trigger] text[a]) && !is_white(
            #[trigger] text[b],
        ) && !is_white(#[trigger] text[c]) && !is_white(#[trigger] text[d]) {
        let (a, b, c, d) = choose|a: int, b: int, c: int, d: int|
            0 <= a < b < c < d < text.len() && !is_white(#[trigger] text[a]) && !is_white(
                #[trigger] text[b],
            ) && !is_white(#[trigger] text[c]) && !is_white(#[trigger] text[d]);
        visible_grows(text, a);
        visible_before(text, a + 1, b);
        visible_grows(text, b);
        visible_before(text, b + 1, c);
        visible_grows(text, c);
        visible_before(text, c + 1, d);
        visible_grows(text, d);
        visible_before(text, d + 1, n);
    }
}

/// What a log needs, and which lack is told first: content below the heading of the work record,
/// then a plan for tomorrow that is long enough, then hours that are accepted.
pub proof fn log_is_refused_for_what_it_lacks(markdown: Seq<char>, r: Option<Failure>)
    requires
        r == log_refusal(markdown),
    ensures
        section_text(markdown, Section::WorkRecord).len() == 0 <==> r == Some(
            Failure::NoWorkRecord,
        ),
        section_text(markdown, Section::WorkRecord).len() > 0 && visible(
            section_text(markdown, Section::Tomorrow),
        ) < 4 <==> r == Some(Failure::TomorrowTooShort),
        section_text(markdown, Section::WorkRecord).len() > 0 && visible(
            section_text(markdown, Section::Tomorrow),
        ) >= 4 ==> r == hours_refusal(section_text(markdown, Section::WorkRecord)),
        r is None ==> declared_hours(section_text(markdown, Section::WorkRecord)) is Some,
{
}

/// A log without a heading for the work record, or without one for the plan for tomorrow, is
/// refused.
pub proof fn log_needs_both_headings(markdown: Seq<char>)
    requires
        (forall|i: int|
            0 <= i < lines_of(markdown).len() ==> !opens(
                #[trigger] lines_of(markdown)[i],
                Section::WorkRecord,
            )) || (forall|i: int|
            0 <= i < lines_of(markdown).len() ==> !opens(
                #[trigger] lines_of(markdown)[i],
                Section::Tomorrow,
            )),
    ensures
        log_refusal(markdown) is Some,
{
    let lines = lines_of(markdown);
    if forall|i: int| 0 <= i < lines.len() ==> !opens(#[trigger] lines[i], Section::WorkRecord) {
        no_opening(lines, Section::WorkRecord);
    } else {
        no_opening(lines, Section::Tomorrow);
        let none: Seq<char> = seq![];
        assert(visible(none) == 0) by {
            reveal(Seq::filter);
        }
    }
}

proof fn no_opening(lines: Seq<Seq<char>>, section: Section)
    requires
        forall|i: int| 0 <= i < lines.len() ==> !opens(#[trigger] lines[i], section),
    ensures
        last_opening(lines, section) == -1,
    decreases lines.len(),
{
    if lines.len() > 0 {
        assert(!opens(lines[lines.len() - 1], section));
        let t = lines.drop_last();
        assert forall|i: int| 0 <= i < t.len() implies !opens(#[trigger] t[i], section) by {
            assert(t[i] == lines[i]);
        }
        no_opening(t, section);
    }
}

} // verus!
