//! The segment loader: finds the register and code segments of a program
//! text and reads each into the ordered list of its payloads.
use vstd::prelude::*;
use crate::errors::{error, error_code, error_message, message_of, ErrorTypes, SegmentErrorTypes};
use crate::text::{
    chars_of, lemma_find_from, digit_end, digits_value, find_from, find_text, is_white, is_white_char,
    lemma_digit_end_bounds, read_digits, scan_digits, slice_string, sub_chars, trim, trim_bounds,
    trim_start,
};

verus! {

/// The views of a list of strings.
pub open spec fn views(v: Seq<String>) -> Seq<Seq<char>> {
    v.map_values(|s: String| s@)
}

/// A line without the `\r` of a `\r\n` ending.
pub open spec fn strip_cr(l: Seq<char>) -> Seq<char> {
    if l.len() > 0 && l.last() == '\r' {
        l.drop_last()
    } else {
        l
    }
}

/// Reading `s` from the left: the lines ended so far, and the line being read.
/// A line ends at `\n`, or at `\r\n`, whose `\r` it does not keep.
pub open spec fn scan_lines(s: Seq<char>) -> (Seq<Seq<char>>, Seq<char>)
    decreases s.len(),
{
    if s.len() == 0 {
        (seq![], seq![])
    } else {
        let prev = scan_lines(s.drop_last());
        if s.last() == '\n' {
            (prev.0.push(strip_cr(prev.1)), seq![])
        } else {
            (prev.0, prev.1.push(s.last()))
        }
    }
}

/// The lines of `s`, the last being what follows the last line break.
pub open spec fn split_lines(s: Seq<char>) -> Seq<Seq<char>> {
    scan_lines(s).0.push(scan_lines(s).1)
}

/// Where `s` starts with an index, a whitespace separator and a payload whose
/// first character is no line break: the length of the index.
pub open spec fn index_head(s: Seq<char>) -> Option<int> {
    let k = digit_end(s, 0);
    if k >= 1 && k + 2 <= s.len() && is_white(s[k]) && s[k + 1] != '\n' {
        Some(k)
    } else {
        None
    }
}

/// The index and the payload of a line of the form `index payload`.
pub open spec fn line_parts(l: Seq<char>) -> Option<(int, Seq<char>)> {
    match index_head(l) {
        Some(k) => Some((digits_value(l.take(k)), l.subrange(k + 1, l.len() as int))),
        None => None,
    }
}

/// Reads a segment's lines in order: empty lines are skipped, each other line
/// must have the form `index payload` with the index equal to the number of
/// payloads read before it. The first line that breaks this decides the error.
pub open spec fn load_lines(kind: SegmentErrorTypes, lines: Seq<Seq<char>>) -> Result<
    Seq<Seq<char>>,
    u32,
>
    decreases lines.len(),
{
    if lines.len() == 0 {
        Ok(seq![])
    } else {
        match load_lines(kind, lines.drop_last()) {
            Err(e) => Err(e),
            Ok(acc) => {
                let l = lines.last();
                if l.len() == 0 {
                    Ok(acc)
                } else {
                    match line_parts(l) {
                        None => Err(error_code(kind, ErrorTypes::MalformedAssignment)),
                        Some(parts) => if parts.0 == acc.len() {
                            Ok(acc.push(parts.1))
                        } else {
                            Err(error_code(kind, ErrorTypes::NotChronological))
                        },
                    }
                }
            },
        }
    }
}

/// A segment's payloads in order, or the code of what is wrong with it: a
/// blank segment has none; one whose text, past its leading whitespace, does
/// not start as a line `index payload` is malformed; otherwise its lines decide.
pub open spec fn load_segment_spec(kind: SegmentErrorTypes, s: Seq<char>) -> Result<
    Seq<Seq<char>>,
    u32,
> {
    if trim(s).len() == 0 {
        Ok(seq![])
    } else if index_head(trim_start(s)) is None {
        Err(error_code(kind, ErrorTypes::MalformedSegment))
    } else {
        load_lines(kind, split_lines(s))
    }
}

/// Where a segment stands in a program text.
pub enum Region {
    Absent,
    Unclosed,
    Body(Seq<char>),
}

/// The text between the first `begin` marker and the first `end` marker after it.
pub open spec fn region(s: Seq<char>, begin: Seq<char>, end: Seq<char>) -> Region {
    match find_from(s, begin, 0) {
        None => Region::Absent,
        Some(i) => match find_from(s, end, i + begin.len()) {
            None => Region::Unclosed,
            Some(j) => Region::Body(s.subrange(i + begin.len(), j)),
        },
    }
}

/// Why a program text could not be loaded.
#[derive(Clone, Copy, Debug, PartialEq, Eq, Structural)]
pub enum LoadError {
    NoRegisterSegment,
    RegisterSegmentOpen,
    NoCodeSegment,
    CodeSegmentOpen,
    /// A segment's lines are wrong: the code says how, and in which segment.
    Segment(u32),
}

pub open spec fn load_error_message(e: LoadError) -> Seq<char> {
    match e {
        LoadError::NoRegisterSegment => "No register segment found!"@,
        LoadError::RegisterSegmentOpen => "Register segment not fully defined!"@,
        LoadError::NoCodeSegment => "No code segment found!"@,
        LoadError::CodeSegmentOpen => "Code segment not fully defined!"@,
        LoadError::Segment(code) => if code <= 8 {
            message_of(code)
        } else {
            "Unknown error!"@
        },
    }
}

impl LoadError {
    /// The text that reports this error.
    pub fn message(&self) -> (r: String)
        ensures
            r@ == load_error_message(*self),
    {
        match self {
            LoadError::NoRegisterSegment => String::from_str("No register segment found!"),
            LoadError::RegisterSegmentOpen => String::from_str(
                "Register segment not fully defined!",
            ),
            LoadError::NoCodeSegment => String::from_str("No code segment found!"),
            LoadError::CodeSegmentOpen => String::from_str("Code segment not fully defined!"),
            LoadError::Segment(code) => match error_message(*code) {
                Some(m) => String::from_str(m),
                None => String::from_str("Unknown error!"),
            },
        }
    }
}

/// The register payloads and the statements of a program text, or why it
/// cannot be loaded. Both segments must be present and closed; the register
/// segment is checked first.
pub open spec fn load_spec(s: Seq<char>) -> Result<(Seq<Seq<char>>, Seq<Seq<char>>), LoadError> {
    match region(s, "BEGIN_REGISTER_SEGMENT"@, "END_REGISTER_SEGMENT"@) {
        Region::Absent => Err(LoadError::NoRegisterSegment),
        Region::Unclosed => Err(LoadError::RegisterSegmentOpen),
        Region::Body(regs) => match region(s, "BEGIN_CODE_SEGMENT"@, "END_CODE_SEGMENT"@) {
            Region::Absent => Err(LoadError::NoCodeSegment),
            Region::Unclosed => Err(LoadError::CodeSegmentOpen),
            Region::Body(code) => match load_segment_spec(SegmentErrorTypes::Variable, regs) {
                Err(e) => Err(LoadError::Segment(e)),
                Ok(vals) => match load_segment_spec(SegmentErrorTypes::Code, code) {
                    Err(e) => Err(LoadError::Segment(e)),
                    Ok(stmts) => Ok((vals, stmts)),
                },
            },
        },
    }
}

/// The bounds of each line of `s`, as `split_lines` cuts it.
fn line_bounds(s: &Vec<char>) -> (r: Vec<(usize, usize)>)
    ensures
        r@.len() == split_lines(s@).len(),
        forall|k: int|
            0 <= k < r@.len() ==> #[trigger] r@[k].0 <= r@[k].1 <= s@.len() && s@.subrange(
                r@[k].0 as int,
                r@[k].1 as int,
            ) == split_lines(s@)[k],
{
    let n = s.len();
    let mut out: Vec<(usize, usize)> = Vec::new();
    let mut start: usize = 0;
    let mut i: usize = 0;
    let ghost mut done: Seq<Seq<char>> = seq![];
    assert(s@.take(0) =~= Seq::<char>::empty());
    assert(s@.subrange(0, 0) =~= Seq::<char>::empty());
    while i < n
        invariant
            n == s@.len(),
            start <= i <= n,
            scan_lines(s@.take(i as int)) == (done, s@.subrange(start as int, i as int)),
            out@.len() == done.len(),
            forall|k: int|
                0 <= k < out@.len() ==> #[trigger] out@[k].0 <= out@[k].1 <= n && s@.subrange(
                    out@[k].0 as int,
                    out@[k].1 as int,
                ) == done[k],
        decreases n - i,
    {
        assert(s@.take(i + 1).drop_last() =~= s@.take(i as int));
        assert(s@.take(i + 1).last() == s@[i as int]);
        if s[i] == '\n' {
            let end = if i > start && s[i - 1] == '\r' {
                i - 1
            } else {
                i
            };
            assert(strip_cr(s@.subrange(start as int, i as int)) =~= s@.subrange(
                start as int,
                end as int,
            ));
            let ghost prev = out@;
            out.push((start, end));
            proof {
                done = done.push(s@.subrange(start as int, end as int));
                assert forall|k: int| 0 <= k < out@.len() implies #[trigger] out@[k].0 <= out@[k].1
                    <= n && s@.subrange(out@[k].0 as int, out@[k].1 as int) == done[k] by {
                    if k < prev.len() {
                        assert(out@[k] == prev[k]);
                    }
                }
            }
            start = i + 1;
            assert(s@.subrange(i + 1, i + 1) =~= Seq::<char>::empty());
            assert(forall|k: int|
                0 <= k < out@.len() ==> #[trigger] out@[k].0 <= out@[k].1 <= n && s@.subrange(
                    out@[k].0 as int,
                    out@[k].1 as int,
                ) == done[k]);
        } else {
            assert(s@.subrange(start as int, i as int).push(s@[i as int]) =~= s@.subrange(
                start as int,
                i + 1,
            ));
        }
        i += 1;
    }
    assert(s@.take(n as int) =~= s@);
    out.push((start, n));
    out
}

/// The length of the index that starts `s`, where `s` starts as a line `index payload`.
fn head_len(s: &Vec<char>) -> (r: Option<usize>)
    ensures
        r matches Some(k) ==> index_head(s@) == Some(k as int),
        r is None ==> index_head(s@) is None,
{
    let k = scan_digits(s, 0);
    proof {
        lemma_digit_end_bounds(s@, 0);
    }
    if k >= 1 && s.len() >= 2 && k <= s.len() - 2 && is_white_char(s[k]) && s[k + 1] != '\n' {
        Some(k)
    } else {
        None
    }
}

/// Once the first `j` lines fail, all of them fail in the same way.
pub proof fn lemma_load_lines_err(kind: SegmentErrorTypes, lines: Seq<Seq<char>>, j: int, e: u32)
    requires
        0 <= j <= lines.len(),
        load_lines(kind, lines.take(j)) == Err::<Seq<Seq<char>>, u32>(e),
    ensures
        load_lines(kind, lines) == Err::<Seq<Seq<char>>, u32>(e),
    decreases lines.len() - j,
{
    if j < lines.len() {
        assert(lines.take(j + 1).drop_last() =~= lines.take(j));
        lemma_load_lines_err(kind, lines, j + 1, e);
    } else {
        assert(lines.take(j) =~= lines);
    }
}

/// Reads the lines of a segment: `Ok` with the payloads in index order, or
/// `Err` with the code of the first line that has no `index payload` form or
/// whose index breaks the order 0, 1, 2, ...
///
/// The kind of segment selects which codes the errors carry.
pub fn load_segment(segment_error_type: SegmentErrorTypes, segment: &str) -> (r: Result<
    Vec<String>,
    u32,
>)
    ensures
        r matches Ok(v) ==> load_segment_spec(segment_error_type, segment@) == Ok::<
            Seq<Seq<char>>,
            u32,
        >(views(v@)),
        r matches Err(e) ==> load_segment_spec(segment_error_type, segment@) == Err::<
            Seq<Seq<char>>,
            u32,
        >(e),
{
    let kind = segment_error_type;
    let chars = chars_of(segment);
    let mut out: Vec<String> = Vec::new();
    let (ta, tb) = trim_bounds(&chars);
    if ta == tb {
        assert(views(out@) =~= seq![]);
        return Ok(out);
    }
    let unindented = sub_chars(&chars, ta, chars.len());
    if head_len(&unindented).is_none() {
        return Err(error(&kind, ErrorTypes::MalformedSegment));
    }
    let bounds = line_bounds(&chars);
    let ghost lines = split_lines(chars@);
    let mut k: usize = 0;
    assert(load_segment_spec(kind, segment@) == load_lines(kind, lines));
    assert(lines.take(0) =~= Seq::<Seq<char>>::empty());
    assert(views(out@) =~= seq![]);
    while k < bounds.len()
        invariant
            kind == segment_error_type,
            chars@ == segment@,
            lines == split_lines(chars@),
            load_segment_spec(kind, segment@) == load_lines(kind, lines),
            bounds@.len() == lines.len(),
            forall|j: int|
                0 <= j < bounds@.len() ==> #[trigger] bounds@[j].0 <= bounds@[j].1 <= chars@.len()
                    && chars@.subrange(bounds@[j].0 as int, bounds@[j].1 as int) == lines[j],
            k <= bounds@.len(),
            load_lines(kind, lines.take(k as int)) == Ok::<Seq<Seq<char>>, u32>(views(out@)),
            out@.len() <= k,
        decreases bounds@.len() - k,
    {
        let (a, b) = bounds[k];
        assert(bounds@[k as int].0 <= bounds@[k as int].1);
        let line = sub_chars(&chars, a, b);
        assert(line@ == lines[k as int]);
        assert(lines.take(k + 1).drop_last() =~= lines.take(k as int));
        assert(lines.take(k + 1).last() == lines[k as int]);
        if a < b {
            match head_len(&line) {
                None => {
                    let e = error(&kind, ErrorTypes::MalformedAssignment);
                    assert(line_parts(line@) is None);
                    assert(load_lines(kind, lines.take(k + 1)) == Err::<Seq<Seq<char>>, u32>(e));
                    proof {
                        lemma_load_lines_err(kind, lines, k + 1, e);
                    }
                    return Err(e);
                },
                Some(d) => {
                    proof {
                        lemma_digit_end_bounds(line@, 0);
                        assert(line@.subrange(0, d as int) =~= line@.take(d as int));
                    }
                    let counter = out.len();
                    let idx = read_digits(&line, 0, d, counter as u128);
                    let in_order = match idx {
                        Some(v) => v == counter as u128,
                        None => false,
                    };
                    if !in_order {
                        let e = error(&kind, ErrorTypes::NotChronological);
                        assert(line_parts(line@) matches Some(p) && p.0 != views(out@).len());
                        assert(load_lines(kind, lines.take(k + 1)) == Err::<Seq<Seq<char>>, u32>(e));
                        proof {
                            lemma_load_lines_err(kind, lines, k + 1, e);
                        }
                        return Err(e);
                    }
                    let payload = slice_string(segment, a + d + 1, b);
                    assert(payload@ =~= line@.subrange(d + 1, line@.len() as int));
                    let ghost prev = out@;
                    out.push(payload);
                    assert(views(out@) =~= views(prev).push(payload@));
                },
            }
        }
        k += 1;
    }
    assert(lines.take(k as int) =~= lines);
    Ok(out)
}

/// Reads the lines of a code segment (see `load_segment`).
pub fn load_code_segment(segment: &str) -> (r: Result<Vec<String>, u32>)
    ensures
        r matches Ok(v) ==> load_segment_spec(SegmentErrorTypes::Code, segment@) == Ok::<
            Seq<Seq<char>>,
            u32,
        >(views(v@)),
        r matches Err(e) ==> load_segment_spec(SegmentErrorTypes::Code, segment@) == Err::<
            Seq<Seq<char>>,
            u32,
        >(e),
{
    load_segment(SegmentErrorTypes::Code, segment)
}

/// Where a pair of markers stands in a text, as positions.
enum Span {
    Absent,
    Unclosed,
    Body(usize, usize),
}

fn find_region(s: &Vec<char>, begin: &str, end: &str) -> (r: Span)
    ensures
        r is Absent ==> region(s@, begin@, end@) is Absent,
        r is Unclosed ==> region(s@, begin@, end@) is Unclosed,
        r matches Span::Body(a, b) ==> a <= b <= s@.len() && region(s@, begin@, end@)
            == Region::Body(s@.subrange(a as int, b as int)),
{
    let n = s.len();
    match find_text(s, begin, 0) {
        None => Span::Absent,
        Some(i) => {
            proof {
                lemma_find_from(s@, begin@, 0);
                assert(i + begin@.len() <= n);
            }
            let from = i + begin.unicode_len();
            match find_text(s, end, from) {
                None => Span::Unclosed,
                Some(j) => {
                    proof {
                        lemma_find_from(s@, end@, from as int);
                    }
                    Span::Body(from, j)
                },
            }
        },
    }
}

/// Loads a program text: the values of its register segment and the
/// statements of its code segment, each in index order, or why it cannot be
/// loaded. The text holds each segment between its own pair of markers
/// (`BEGIN_REGISTER_SEGMENT` ... `END_REGISTER_SEGMENT`, `BEGIN_CODE_SEGMENT`
/// ... `END_CODE_SEGMENT`), in either order.
pub fn load_program(text: &str) -> (r: Result<(Vec<String>, Vec<String>), LoadError>)
    ensures
        r matches Ok(p) ==> load_spec(text@) == Ok::<
            (Seq<Seq<char>>, Seq<Seq<char>>),
            LoadError,
        >((views(p.0@), views(p.1@))),
        r matches Err(e) ==> load_spec(text@) == Err::<
            (Seq<Seq<char>>, Seq<Seq<char>>),
            LoadError,
        >(e),
{
    let chars = chars_of(text);
    let (ra, rb) = match find_region(&chars, "BEGIN_REGISTER_SEGMENT", "END_REGISTER_SEGMENT") {
        Span::Absent => {
            return Err(LoadError::NoRegisterSegment);
        },
        Span::Unclosed => {
            return Err(LoadError::RegisterSegmentOpen);
        },
        Span::Body(a, b) => (a, b),
    };
    let (ca, cb) = match find_region(&chars, "BEGIN_CODE_SEGMENT", "END_CODE_SEGMENT") {
        Span::Absent => {
            return Err(LoadError::NoCodeSegment);
        },
        Span::Unclosed => {
            return Err(LoadError::CodeSegmentOpen);
        },
        Span::Body(a, b) => (a, b),
    };
    let vals = match load_segment(SegmentErrorTypes::Variable, text.substring_char(ra, rb)) {
        Err(e) => {
            return Err(LoadError::Segment(e));
        },
        Ok(v) => v,
    };
    let stmts = match load_segment(SegmentErrorTypes::Code, text.substring_char(ca, cb)) {
        Err(e) => {
            return Err(LoadError::Segment(e));
        },
        Ok(v) => v,
    };
    Ok((vals, stmts))
}

} // verus!
