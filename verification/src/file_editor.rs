//! The text of the backing file: one record per line, each line ended by a
//! newline. The functions here compute on the text; reading and writing the
//! file is the caller's part.

use vstd::prelude::*;
use vstd::string::*;
use crate::error::StoreError;
use crate::selectable_list::texts;

verus! {

/// The position of the first newline of `s`, or the length of `s` where it
/// holds none.
pub open spec fn first_newline(s: Seq<char>) -> nat
    decreases s.len(),
{
    if s.len() == 0 || s[0] == '\n' {
        0
    } else {
        1 + first_newline(s.drop_first())
    }
}

/// A line without the carriage return that may end it.
pub open spec fn without_cr(line: Seq<char>) -> Seq<char> {
    if line.len() > 0 && line.last() == '\r' {
        line.drop_last()
    } else {
        line
    }
}

/// The lines of a text. A line ends at a newline, or at a carriage return
/// followed by a newline; the ending is not part of the line. What follows
/// the last newline is a line too, unless it is empty.
pub open spec fn lines_of(s: Seq<char>) -> Seq<Seq<char>>
    decreases s.len(),
{
    if s.len() == 0 {
        Seq::empty()
    } else {
        let n = first_newline(s);
        if n >= s.len() {
            seq![s]
        } else {
            seq![without_cr(s.subrange(0, n as int))] + lines_of(
                s.subrange(n as int + 1, s.len() as int),
            )
        }
    }
}

/// The lines joined by single newlines, with none after the last.
pub open spec fn join_lines(lines: Seq<Seq<char>>) -> Seq<char>
    decreases lines.len(),
{
    if lines.len() == 0 {
        Seq::empty()
    } else if lines.len() == 1 {
        lines[0]
    } else {
        join_lines(lines.drop_last()) + seq!['\n'] + lines.last()
    }
}

/// The text of a file that holds the given lines: joined by newlines, with
/// one newline at the end.
pub open spec fn file_text(lines: Seq<Seq<char>>) -> Seq<char> {
    join_lines(lines) + seq!['\n']
}

/// Whether `c` is white space, as Unicode defines it.
pub open spec fn is_space(c: char) -> bool {
    let u = c as u32;
    0x09 <= u <= 0x0D || u == 0x20 || u == 0x85 || u == 0xA0 || u == 0x1680 || 0x2000 <= u
        <= 0x200A || u == 0x2028 || u == 0x2029 || u == 0x202F || u == 0x205F || u == 0x3000
}

/// `s` without the white space at its start.
pub open spec fn trim_start(s: Seq<char>) -> Seq<char>
    decreases s.len(),
{
    if s.len() > 0 && is_space(s[0]) {
        trim_start(s.drop_first())
    } else {
        s
    }
}

/// `s` without the white space at its end.
pub open spec fn trim_end(s: Seq<char>) -> Seq<char>
    decreases s.len(),
{
    if s.len() > 0 && is_space(s.last()) {
        trim_end(s.drop_last())
    } else {
        s
    }
}

/// `s` without the white space at either end.
pub open spec fn trim(s: Seq<char>) -> Seq<char> {
    trim_end(trim_start(s))
}

/// The records that a text holds: its lines, each trimmed, without those
/// that are empty after trimming.
pub open spec fn records_of(lines: Seq<Seq<char>>) -> Seq<Seq<char>> {
    lines.map_values(|line: Seq<char>| trim(line)).filter(|line: Seq<char>| line.len() > 0)
}

/// `s` without the newlines at its end.
pub open spec fn without_trailing_newlines(s: Seq<char>) -> Seq<char>
    decreases s.len(),
{
    if s.len() > 0 && s.last() == '\n' {
        without_trailing_newlines(s.drop_last())
    } else {
        s
    }
}

/// Whether `s` holds no newline.
pub open spec fn has_no_newline(s: Seq<char>) -> bool {
    forall|k: int| 0 <= k < s.len() ==> s[k] != '\n'
}

/// Whether `line` can stand as one line of a file and be read back as
/// itself: it holds no newline and does not end in a carriage return.
pub open spec fn is_line(line: Seq<char>) -> bool {
    &&& has_no_newline(line)
    &&& !(line.len() > 0 && line.last() == '\r')
}

/// Whether every member of `lines` is a line in the sense of [`is_line`].
pub open spec fn all_lines(lines: Seq<Seq<char>>) -> bool {
    forall|i: int| 0 <= i < lines.len() ==> is_line(#[trigger] lines[i])
}

/// Where no newline stands before position `at`, and `at` is the end of `s`
/// or holds a newline, `at` is the position of the first newline.
pub proof fn lemma_first_newline_at(s: Seq<char>, at: int)
    requires
        0 <= at <= s.len(),
        forall|k: int| 0 <= k < at ==> s[k] != '\n',
        at < s.len() ==> s[at] == '\n',
    ensures
        first_newline(s) == at,
    decreases s.len(),
{
    if at > 0 {
        lemma_first_newline_at(s.drop_first(), at - 1);
    }
}

/// The first newline lies within the text or at its end, nothing before it
/// is a newline, and where it lies within the text it is one.
pub proof fn lemma_first_newline_is_first(s: Seq<char>)
    ensures
        first_newline(s) <= s.len(),
        forall|k: int| 0 <= k < first_newline(s) ==> s[k] != '\n',
        first_newline(s) < s.len() ==> s[first_newline(s) as int] == '\n',
    decreases s.len(),
{
    if s.len() > 0 && s[0] != '\n' {
        let rest = s.drop_first();
        lemma_first_newline_is_first(rest);
        assert forall|k: int| 0 <= k < first_newline(s) implies s[k] != '\n' by {
            if k > 0 {
                assert(s[k] == rest[k - 1]);
            }
        }
    }
}

/// A text that is empty or ends in a newline splits into lines
/// independently of what follows it.
pub proof fn lemma_lines_of_concat(a: Seq<char>, b: Seq<char>)
    requires
        a.len() == 0 || a.last() == '\n',
    ensures
        lines_of(a + b) == lines_of(a) + lines_of(b),
    decreases a.len(),
{
    if a.len() == 0 {
        assert(a + b =~= b);
        assert(lines_of(a) + lines_of(b) =~= lines_of(b));
    } else {
        lemma_first_newline_is_first(a);
        let n = first_newline(a) as int;
        assert(n < a.len()) by {
            if n >= a.len() {
                assert(a[a.len() - 1] != '\n');
            }
        }
        let whole = a + b;
        lemma_first_newline_at(whole, n);
        let tail = a.subrange(n + 1, a.len() as int);
        assert(whole.subrange(0, n) =~= a.subrange(0, n));
        assert(whole.subrange(n + 1, whole.len() as int) =~= tail + b);
        if tail.len() > 0 {
            assert(tail.last() == a.last());
        }
        lemma_lines_of_concat(tail, b);
        assert(seq![without_cr(a.subrange(0, n))] + (lines_of(tail) + lines_of(b)) =~= (
        seq![without_cr(a.subrange(0, n))] + lines_of(tail)) + lines_of(b));
    }
}

/// A line followed by a newline reads back as that one line.
pub proof fn lemma_lines_of_single(line: Seq<char>)
    requires
        is_line(line),
    ensures
        lines_of(line + seq!['\n']) == seq![line],
{
    let text = line + seq!['\n'];
    lemma_first_newline_at(text, line.len() as int);
    assert(text.subrange(0, line.len() as int) =~= line);
    assert(text.subrange(line.len() as int + 1, text.len() as int) =~= Seq::<char>::empty());
    assert(seq![line] + lines_of(Seq::<char>::empty()) =~= seq![line]);
}

/// Writing lines and reading them back gives the same lines, as long as
/// there is at least one and each can stand as a line.
pub proof fn lemma_written_lines_read_back(lines: Seq<Seq<char>>)
    requires
        lines.len() > 0,
        all_lines(lines),
    ensures
        lines_of(file_text(lines)) == lines,
    decreases lines.len(),
{
    if lines.len() == 1 {
        lemma_lines_of_single(lines[0]);
        assert(seq![lines[0]] =~= lines);
    } else {
        let earlier = lines.drop_last();
        let last = lines.last();
        assert(all_lines(earlier)) by {
            assert forall|i: int| 0 <= i < earlier.len() implies is_line(
                #[trigger] earlier[i],
            ) by {
                assert(earlier[i] == lines[i]);
            }
        }
        lemma_written_lines_read_back(earlier);
        lemma_lines_of_single(last);
        assert(file_text(lines) =~= file_text(earlier) + (last + seq!['\n']));
        lemma_lines_of_concat(file_text(earlier), last + seq!['\n']);
        assert(earlier + seq![last] =~= lines);
    }
}

/// A written file is never empty and ends in a newline.
pub proof fn lemma_file_text_ends_in_newline(lines: Seq<Seq<char>>)
    ensures
        file_text(lines).len() > 0,
        file_text(lines).last() == '\n',
{
}

/// Appending one line and its newline to a file that is empty or ends in a
/// newline adds exactly that line after the lines the file had.
pub proof fn lemma_appended_line_is_last(file: Seq<char>, line: Seq<char>)
    requires
        file.len() == 0 || file.last() == '\n',
        is_line(line),
    ensures
        lines_of(file + (line + seq!['\n'])) == lines_of(file).push(line),
{
    lemma_lines_of_concat(file, line + seq!['\n']);
    lemma_lines_of_single(line);
    assert(lines_of(file) + seq![line] =~= lines_of(file).push(line));
}

/// Adding a line to the lines of a text adds its trimmed form to the
/// records, unless that is empty.
pub proof fn lemma_records_push(lines: Seq<Seq<char>>, line: Seq<char>)
    ensures
        records_of(lines.push(line)) == if trim(line).len() > 0 {
            records_of(lines).push(trim(line))
        } else {
            records_of(lines)
        },
{
    reveal(Seq::filter);
    let trimmed = lines.map_values(|line: Seq<char>| trim(line));
    let longer = lines.push(line).map_values(|line: Seq<char>| trim(line));
    assert(longer =~= trimmed.push(trim(line)));
    assert(longer.drop_last() =~= trimmed);
}

/// No line of a text holds a newline.
pub proof fn lemma_lines_hold_no_newline(s: Seq<char>)
    ensures
        forall|i: int| 0 <= i < lines_of(s).len() ==> has_no_newline(#[trigger] lines_of(s)[i]),
    decreases s.len(),
{
    if s.len() > 0 {
        lemma_first_newline_is_first(s);
        let n = first_newline(s) as int;
        if n < s.len() {
            let rest = s.subrange(n + 1, s.len() as int);
            lemma_lines_hold_no_newline(rest);
            let head = without_cr(s.subrange(0, n));
            assert(has_no_newline(head));
            assert forall|i: int| 0 <= i < lines_of(s).len() implies has_no_newline(
                #[trigger] lines_of(s)[i],
            ) by {
                if i > 0 {
                    assert(lines_of(s)[i] == lines_of(rest)[i - 1]);
                }
            }
        }
    }
}

/// Trimming a text without a newline leaves a line: no newline comes in,
/// and what is left does not end in white space, so not in a carriage
/// return.
pub proof fn lemma_trimmed_is_line(s: Seq<char>)
    requires
        has_no_newline(s),
    ensures
        is_line(trim(s)),
        trim(s).len() > 0 ==> !is_space(trim(s).last()) && !is_space(trim(s)[0]),
{
    lemma_trim_start_keeps(s);
    lemma_trim_end_keeps(trim_start(s));
}

/// Trimming the start brings in no newline and leaves no white space first.
pub proof fn lemma_trim_start_keeps(s: Seq<char>)
    requires
        has_no_newline(s),
    ensures
        has_no_newline(trim_start(s)),
        trim_start(s).len() > 0 ==> !is_space(trim_start(s)[0]),
    decreases s.len(),
{
    if s.len() > 0 && is_space(s[0]) {
        let rest = s.drop_first();
        assert forall|k: int| 0 <= k < rest.len() implies rest[k] != '\n' by {
            assert(rest[k] == s[k + 1]);
        }
        lemma_trim_start_keeps(rest);
    }
}

/// Trimming the end brings in no newline, leaves no white space last, and
/// keeps the first character where anything is left.
pub proof fn lemma_trim_end_keeps(s: Seq<char>)
    requires
        has_no_newline(s),
    ensures
        has_no_newline(trim_end(s)),
        trim_end(s).len() > 0 ==> !is_space(trim_end(s).last()) && trim_end(s)[0] == s[0],
    decreases s.len(),
{
    if s.len() > 0 && is_space(s.last()) {
        let rest = s.drop_last();
        assert forall|k: int| 0 <= k < rest.len() implies rest[k] != '\n' by {
            assert(rest[k] == s[k]);
        }
        lemma_trim_end_keeps(rest);
    }
}

/// The records of lines without newlines can each stand as a line of a
/// file, and none is empty.
pub proof fn lemma_records_are_lines(lines: Seq<Seq<char>>)
    requires
        forall|i: int| 0 <= i < lines.len() ==> has_no_newline(#[trigger] lines[i]),
    ensures
        all_lines(records_of(lines)),
        forall|i: int|
            0 <= i < records_of(lines).len() ==> (#[trigger] records_of(lines)[i]).len() > 0,
    decreases lines.len(),
{
    if lines.len() == 0 {
        reveal(Seq::filter);
        assert(records_of(lines) =~= Seq::<Seq<char>>::empty());
    } else {
        let earlier = lines.drop_last();
        let last = lines.last();
        assert(lines =~= earlier.push(last));
        assert forall|i: int| 0 <= i < earlier.len() implies has_no_newline(
            #[trigger] earlier[i],
        ) by {
            assert(earlier[i] == lines[i]);
        }
        lemma_records_are_lines(earlier);
        lemma_records_push(earlier, last);
        assert(has_no_newline(lines[lines.len() - 1]));
        lemma_trimmed_is_line(last);
    }
}

/// What is read from a file's text as its records can be written back line
/// by line: each record can stand as a line, and none is empty.
pub proof fn lemma_parsed_records_are_lines(text: Seq<char>)
    ensures
        all_lines(records_of(lines_of(text))),
        forall|i: int|
            0 <= i < records_of(lines_of(text)).len() ==> (#[trigger] records_of(
                lines_of(text),
            )[i]).len() > 0,
{
    lemma_lines_hold_no_newline(text);
    lemma_records_are_lines(lines_of(text));
}

/// Whether `c` is white space.
pub fn is_space_char(c: char) -> (space: bool)
    ensures
        space == is_space(c),
{
    let u: u32 = c as u32;
    (0x09 <= u && u <= 0x0D) || u == 0x20 || u == 0x85 || u == 0xA0 || u == 0x1680 || (0x2000
        <= u && u <= 0x200A) || u == 0x2028 || u == 0x2029 || u == 0x202F || u == 0x205F || u
        == 0x3000
}

/// Splits a text into its lines.
pub fn split_lines(contents: &str) -> (lines: Vec<String>)
    ensures
        texts(lines@) == lines_of(contents@),
{
    let n: usize = contents.unicode_len();
    let mut lines: Vec<String> = Vec::new();
    let mut start: usize = 0;
    let mut i: usize = 0;
    assert(texts(lines@) =~= Seq::<Seq<char>>::empty());
    assert(contents@.subrange(0, n as int) =~= contents@);
    while i < n
        invariant
            n == contents@.len(),
            start <= i <= n,
            forall|k: int| start <= k < i ==> contents@[k] != '\n',
            lines_of(contents@) == texts(lines@) + lines_of(
                contents@.subrange(start as int, n as int),
            ),
        decreases n - i,
    {
        let c = contents.get_char(i);
        if c == '\n' {
            let mut end: usize = i;
            if end > start && contents.get_char(end - 1) == '\r' {
                end = end - 1;
            }
            let line = String::from_str(contents.substring_char(start, end));
            proof {
                let rest = contents@.subrange(start as int, n as int);
                lemma_first_newline_at(rest, i - start);
                assert(rest.subrange(0, i - start) =~= contents@.subrange(start as int, i as int));
                assert(rest.subrange(i - start + 1, rest.len() as int) =~= contents@.subrange(
                    i + 1,
                    n as int,
                ));
                assert(line@ =~= without_cr(contents@.subrange(start as int, i as int)));
                assert(texts(lines@.push(line)) =~= texts(lines@) + seq![line@]);
                assert(texts(lines@) + (seq![line@] + lines_of(
                    contents@.subrange(i + 1, n as int),
                )) =~= texts(lines@) + seq![line@] + lines_of(
                    contents@.subrange(i + 1, n as int),
                ));
            }
            lines.push(line);
            start = i + 1;
        }
        i = i + 1;
    }
    if start < n {
        let line = String::from_str(contents.substring_char(start, n));
        proof {
            let rest = contents@.subrange(start as int, n as int);
            lemma_first_newline_at(rest, n - start);
            assert(texts(lines@.push(line)) =~= texts(lines@) + seq![rest]);
        }
        lines.push(line);
    } else {
        assert(texts(lines@) + Seq::<Seq<char>>::empty() =~= texts(lines@));
    }
    lines
}

/// Joins lines into the text of a file: a newline between each two, and one
/// at the end.
pub fn write_lines(lines: &Vec<String>) -> (text: String)
    ensures
        text@ == file_text(texts(lines@)),
{
    let mut text = String::new();
    let n: usize = lines.len();
    let mut k: usize = 0;
    proof {
        reveal_strlit("\n");
    }
    assert("\n"@ =~= seq!['\n']);
    while k < n
        invariant
            n == lines@.len(),
            k <= n,
            "\n"@ == seq!['\n'],
            text@ == join_lines(texts(lines@).take(k as int)),
        decreases n - k,
    {
        if k > 0 {
            text.append("\n");
        }
        text.append(lines[k].as_str());
        proof {
            let upto = texts(lines@).take(k + 1);
            assert(upto.drop_last() =~= texts(lines@).take(k as int));
            assert(upto.last() == lines@[k as int]@);
            if k == 0 {
                assert(text@ =~= upto[0]);
            }
        }
        k = k + 1;
    }
    assert(texts(lines@).take(n as int) =~= texts(lines@));
    text.append("\n");
    text
}

/// The text of the file after the line at `item_index` was taken out: the
/// lines of `contents` without that one, joined by newlines, with one
/// newline at the end. Where `contents` has no such line, nothing is
/// computed and the edit is refused.
pub fn delete_line_from_file(contents: &str, item_index: usize) -> (edited: Result<
    String,
    StoreError,
>)
    ensures
        item_index < lines_of(contents@).len() ==> edited is Ok && edited->Ok_0@ == file_text(
            lines_of(contents@).remove(item_index as int),
        ),
        item_index >= lines_of(contents@).len() ==> edited == Err::<String, StoreError>(
            StoreError::IndexOutOfRange,
        ),
{
    let mut lines = split_lines(contents);
    if item_index >= lines.len() {
        return Err(StoreError::IndexOutOfRange);
    }
    let ghost before = lines@;
    lines.remove(item_index);
    assert(texts(lines@) =~= texts(before).remove(item_index as int));
    Ok(write_lines(&lines))
}

/// The text of the file after `contents` was added at its end.
pub fn append_to_file(file: String, contents: &str) -> (text: String)
    ensures
        text@ == file@ + contents@,
{
    file.concat(contents)
}

/// `s` without the white space at either end.
pub fn trim_line(s: &str) -> (trimmed: String)
    ensures
        trimmed@ == trim(s@),
{
    let n: usize = s.unicode_len();
    let mut a: usize = 0;
    assert(s@.subrange(0, n as int) =~= s@);
    while a < n
        invariant
            n == s@.len(),
            a <= n,
            trim_start(s@) == trim_start(s@.subrange(a as int, n as int)),
        ensures
            a <= n,
            trim_start(s@) == s@.subrange(a as int, n as int),
        decreases n - a,
    {
        if !is_space_char(s.get_char(a)) {
            break;
        }
        assert(s@.subrange(a as int, n as int).drop_first() =~= s@.subrange(a + 1, n as int));
        a = a + 1;
    }
    let mut b: usize = n;
    while b > a
        invariant
            n == s@.len(),
            a <= b <= n,
            trim(s@) == trim_end(s@.subrange(a as int, b as int)),
        ensures
            a <= b <= n,
            trim(s@) == s@.subrange(a as int, b as int),
        decreases b - a,
    {
        if !is_space_char(s.get_char(b - 1)) {
            break;
        }
        assert(s@.subrange(a as int, b as int).drop_last() =~= s@.subrange(a as int, b - 1));
        b = b - 1;
    }
    String::from_str(s.substring_char(a, b))
}

/// The records of a file's text, in order: each line trimmed, empty ones
/// left out.
pub fn parse_records(contents: &str) -> (records: Vec<String>)
    ensures
        texts(records@) == records_of(lines_of(contents@)),
{
    let lines = split_lines(contents);
    let mut records: Vec<String> = Vec::new();
    let n: usize = lines.len();
    let mut k: usize = 0;
    proof {
        reveal(Seq::filter);
        assert(texts(lines@).take(0) =~= Seq::<Seq<char>>::empty());
        assert(texts(records@) =~= records_of(texts(lines@).take(0)));
    }
    while k < n
        invariant
            n == lines@.len(),
            k <= n,
            texts(records@) == records_of(texts(lines@).take(k as int)),
        decreases n - k,
    {
        let record = trim_line(lines[k].as_str());
        proof {
            lemma_records_push(texts(lines@).take(k as int), lines@[k as int]@);
            assert(texts(lines@).take(k + 1) =~= texts(lines@).take(k as int).push(
                lines@[k as int]@,
            ));
        }
        if record.as_str().unicode_len() > 0 {
            assert(texts(records@.push(record)) =~= texts(records@).push(record@));
            records.push(record);
        }
        k = k + 1;
    }
    assert(texts(lines@).take(n as int) =~= texts(lines@));
    records
}

/// `s` without the newlines at its end.
pub fn strip_trailing_newlines(s: &str) -> (stripped: String)
    ensures
        stripped@ == without_trailing_newlines(s@),
{
    let mut b: usize = s.unicode_len();
    assert(s@.subrange(0, b as int) =~= s@);
    while b > 0
        invariant
            b <= s@.len(),
            without_trailing_newlines(s@) == without_trailing_newlines(s@.subrange(0, b as int)),
        ensures
            b <= s@.len(),
            without_trailing_newlines(s@) == s@.subrange(0, b as int),
        decreases b,
    {
        if s.get_char(b - 1) != '\n' {
            break;
        }
        assert(s@.subrange(0, b as int).drop_last() =~= s@.subrange(0, b - 1));
        b = b - 1;
    }
    String::from_str(s.substring_char(0, b))
}

} // verus!
