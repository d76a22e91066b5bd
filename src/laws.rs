//! What holds of the loader over all inputs.
use vstd::prelude::*;
use crate::errors::{error_code, ErrorTypes, SegmentErrorTypes};
use crate::loader::{
    index_head, lemma_load_lines_err, line_parts, load_lines, load_segment_spec, load_spec,
    scan_lines, split_lines, strip_cr,
};
use crate::text::{
    all_digits, decimal, digit_char, digit_end, digit_value, digits_value, is_digit, is_white,
    nat_digits, trim, trim_end, trim_start,
};

verus! {

/// The index of a line of the form `index payload`.
pub open spec fn line_index(l: Seq<char>) -> Option<int> {
    match line_parts(l) {
        Some(p) => Some(p.0),
        None => None,
    }
}

/// Where every non-empty line of `lines` has the form `index payload`, the
/// non-empty lines carrying the indices 0, 1, 2, ... in order: how many
/// non-empty lines there are.
pub open spec fn ordered_count(lines: Seq<Seq<char>>) -> Option<int>
    decreases lines.len(),
{
    if lines.len() == 0 {
        Some(0)
    } else {
        match ordered_count(lines.drop_last()) {
            None => None,
            Some(n) => if lines.last().len() == 0 {
                Some(n)
            } else if line_index(lines.last()) == Some(n) {
                Some(n + 1)
            } else {
                None
            },
        }
    }
}

proof fn lemma_prefix_in_order(kind: SegmentErrorTypes, lines: Seq<Seq<char>>)
    requires
        ordered_count(lines) is Some,
    ensures
        load_lines(kind, lines) is Ok,
        load_lines(kind, lines)->Ok_0.len() == ordered_count(lines)->0,
    decreases lines.len(),
{
    if lines.len() > 0 {
        lemma_prefix_in_order(kind, lines.drop_last());
    }
}

proof fn lemma_ordered_positions(lines: Seq<Seq<char>>, k: int)
    requires
        0 <= k <= lines.len(),
        forall|j: int| 0 <= j < k ==> #[trigger] line_index(lines[j]) == Some(j),
    ensures
        ordered_count(lines.take(k)) == Some(k),
    decreases k,
{
    if k > 0 {
        lemma_ordered_positions(lines, k - 1);
        assert(lines.take(k).drop_last() =~= lines.take(k - 1));
        assert(lines.take(k).last() == lines[k - 1]);
        assert(line_index(lines[k - 1]) == Some(k - 1));
        if lines[k - 1].len() == 0 {
            assert(digit_end(lines[k - 1], 0) == 0);
        }
    } else {
        assert(lines.take(0) =~= Seq::<Seq<char>>::empty());
    }
}

/// A line whose index breaks the order 0, 1, 2, ... (repeated, skipped or
/// out of order) makes the segment's lines fail with `NotChronological` for
/// its kind, whatever the lines after it hold, where the non-empty lines
/// before it are in order (empty lines may stand among them).
/// (`load_segment_spec` reads a segment's lines, `split_lines` of its text,
/// with `load_lines`.)
pub proof fn out_of_order_line_fails(kind: SegmentErrorTypes, lines: Seq<Seq<char>>, k: int)
    requires
        0 <= k < lines.len(),
        ordered_count(lines.take(k)) is Some,
        line_index(lines[k]) is Some,
        line_index(lines[k]) != ordered_count(lines.take(k)),
    ensures
        load_lines(kind, lines) == Err::<Seq<Seq<char>>, u32>(
            error_code(kind, ErrorTypes::NotChronological),
        ),
{
    lemma_prefix_in_order(kind, lines.take(k));
    assert(lines.take(k + 1).drop_last() =~= lines.take(k));
    assert(lines.take(k + 1).last() == lines[k]);
    lemma_load_lines_err(kind, lines, k + 1, error_code(kind, ErrorTypes::NotChronological));
}

/// A non-empty line without the form `index payload` makes the segment's
/// lines fail with `MalformedAssignment` for its kind, where the non-empty
/// lines before it are in order (empty lines may stand among them).
pub proof fn malformed_line_fails(kind: SegmentErrorTypes, lines: Seq<Seq<char>>, k: int)
    requires
        0 <= k < lines.len(),
        ordered_count(lines.take(k)) is Some,
        lines[k].len() > 0,
        line_parts(lines[k]) is None,
    ensures
        load_lines(kind, lines) == Err::<Seq<Seq<char>>, u32>(
            error_code(kind, ErrorTypes::MalformedAssignment),
        ),
{
    lemma_prefix_in_order(kind, lines.take(k));
    assert(lines.take(k + 1).drop_last() =~= lines.take(k));
    assert(lines.take(k + 1).last() == lines[k]);
    lemma_load_lines_err(kind, lines, k + 1, error_code(kind, ErrorTypes::MalformedAssignment));
}

/// A segment that is not blank, and whose text past its leading whitespace
/// does not start as a line `index payload`, fails with `MalformedSegment`
/// for its kind.
pub proof fn malformed_segment_fails(kind: SegmentErrorTypes, s: Seq<char>)
    requires
        trim(s).len() > 0,
        index_head(trim_start(s)) is None,
    ensures
        load_segment_spec(kind, s) == Err::<Seq<Seq<char>>, u32>(
            error_code(kind, ErrorTypes::MalformedSegment),
        ),
{
}

/// A segment that is empty or blank loads as no payloads, not as an error.
pub proof fn blank_segment_is_empty(kind: SegmentErrorTypes, s: Seq<char>)
    requires
        forall|i: int| 0 <= i < s.len() ==> is_white(#[trigger] s[i]),
    ensures
        load_segment_spec(kind, s) == Ok::<Seq<Seq<char>>, u32>(seq![]),
{
    lemma_trim_start_blank(s);
}

proof fn lemma_trim_start_blank(s: Seq<char>)
    requires
        forall|i: int| 0 <= i < s.len() ==> is_white(#[trigger] s[i]),
    ensures
        trim_start(s).len() == 0,
    decreases s.len(),
{
    if s.len() > 0 {
        assert(is_white(s[0]));
        assert forall|i: int| 0 <= i < s.drop_first().len() implies is_white(
            #[trigger] s.drop_first()[i],
        ) by {
            assert(s.drop_first()[i] == s[i + 1]);
        }
        lemma_trim_start_blank(s.drop_first());
    }
}

/// Loading the same program text twice gives the same register values and
/// the same statements: the loader depends on the text alone.
pub proof fn reload_is_identical(
    text: Seq<char>,
    first: (Seq<Seq<char>>, Seq<Seq<char>>),
    second: (Seq<Seq<char>>, Seq<Seq<char>>),
)
    requires
        load_spec(text) == Ok::<(Seq<Seq<char>>, Seq<Seq<char>>), crate::loader::LoadError>(first),
        load_spec(text) == Ok::<(Seq<Seq<char>>, Seq<Seq<char>>), crate::loader::LoadError>(second),
    ensures
        first == second,
{
}

/// A payload: text without line breaks that does not end in `\r`.
pub open spec fn is_payload(p: Seq<char>) -> bool {
    &&& p.len() > 0
    &&& forall|j: int| 0 <= j < p.len() ==> #[trigger] p[j] != '\n'
    &&& p.last() != '\r'
}

/// The line `i payload`.
pub open spec fn numbered_line(i: int, p: Seq<char>) -> Seq<char> {
    decimal(i) + seq![' '] + p
}

/// The lines `ixs[0] ps[0]`, `ixs[1] ps[1]`, ... in order.
pub open spec fn indexed_lines(ixs: Seq<nat>, ps: Seq<Seq<char>>) -> Seq<Seq<char>>
    decreases ps.len(),
{
    if ps.len() == 0 || ixs.len() == 0 {
        seq![]
    } else {
        indexed_lines(ixs.drop_last(), ps.drop_last()).push(
            numbered_line(ixs.last() as int, ps.last()),
        )
    }
}

/// The segment text of the lines `ixs[0] ps[0]`, `ixs[1] ps[1]`, ..., each
/// ended by `\n`.
pub open spec fn indexed_text(ixs: Seq<nat>, ps: Seq<Seq<char>>) -> Seq<char>
    decreases ps.len(),
{
    if ps.len() == 0 || ixs.len() == 0 {
        seq![]
    } else {
        indexed_text(ixs.drop_last(), ps.drop_last()) + numbered_line(
            ixs.last() as int,
            ps.last(),
        ).push('\n')
    }
}

/// The indices 0, 1, ..., n - 1.
pub open spec fn positions(n: nat) -> Seq<nat> {
    Seq::new(n, |i: int| i as nat)
}

/// The segment text of the lines `0 ps[0]`, `1 ps[1]`, ..., each ended by `\n`.
pub open spec fn numbered_text(ps: Seq<Seq<char>>) -> Seq<char> {
    indexed_text(positions(ps.len()), ps)
}

/// Each of `ps` is a payload, and there is an index for each.
pub open spec fn indexed_payloads(ixs: Seq<nat>, ps: Seq<Seq<char>>) -> bool {
    &&& ixs.len() == ps.len()
    &&& forall|i: int| 0 <= i < ps.len() ==> is_payload(#[trigger] ps[i])
}

proof fn lemma_digit_char(d: int)
    requires
        0 <= d < 10,
    ensures
        is_digit(digit_char(d)),
        digit_value(digit_char(d)) == d,
{
    let ds = seq!['0', '1', '2', '3', '4', '5', '6', '7', '8', '9'];
    assert(ds[0] == '0' && ds[1] == '1' && ds[2] == '2' && ds[3] == '3' && ds[4] == '4');
    assert(ds[5] == '5' && ds[6] == '6' && ds[7] == '7' && ds[8] == '8' && ds[9] == '9');
}

proof fn lemma_nat_digits(n: nat)
    ensures
        nat_digits(n).len() >= 1,
        all_digits(nat_digits(n)),
        digits_value(nat_digits(n)) == n,
    decreases n,
{
    if n >= 10 {
        lemma_nat_digits(n / 10);
        lemma_digit_char((n % 10) as int);
        let x = nat_digits(n / 10);
        let c = digit_char((n % 10) as int);
        assert(nat_digits(n) == x.push(c));
        assert(x.push(c).drop_last() =~= x);
        assert(x.push(c).last() == c);
        assert(digits_value(x.push(c)) == 10 * digits_value(x) + digit_value(c));
        assert(10 * (n / 10) + n % 10 == n);
        assert forall|i: int| 0 <= i < nat_digits(n).len() implies is_digit(
            #[trigger] nat_digits(n)[i],
        ) by {
            if i < x.len() {
                assert(nat_digits(n)[i] == x[i]);
            }
        }
    } else {
        let c = digit_char(n as int);
        lemma_digit_char(n as int);
        assert(nat_digits(n) == seq![c]);
        assert(seq![c].drop_last() =~= Seq::<char>::empty());
        assert(seq![c].last() == c);
        assert(digits_value(seq![c]) == 10 * digits_value(Seq::<char>::empty()) + digit_value(c));
    }
}

proof fn lemma_digit_end_at(s: Seq<char>, i: int, k: int)
    requires
        0 <= i <= k <= s.len(),
        forall|j: int| i <= j < k ==> is_digit(#[trigger] s[j]),
        k == s.len() || !is_digit(s[k]),
    ensures
        digit_end(s, i) == k,
    decreases k - i,
{
    if i < k {
        lemma_digit_end_at(s, i + 1, k);
    }
}

proof fn lemma_numbered_line_parts(i: int, p: Seq<char>)
    requires
        0 <= i,
        is_payload(p),
    ensures
        line_parts(numbered_line(i, p)) == Some((i, p)),
        numbered_line(i, p).len() > 0,
        forall|j: int| 0 <= j < numbered_line(i, p).len() ==> #[trigger] numbered_line(i, p)[j] != '\n',
        numbered_line(i, p).last() != '\r',
{
    let d = nat_digits(i as nat);
    let l = numbered_line(i, p);
    lemma_nat_digits(i as nat);
    assert(decimal(i) == d);
    let k = d.len() as int;
    assert(l[k] == ' ');
    lemma_digit_end_at(l, 0, k);
    assert(l.take(k) =~= d);
    assert(l.subrange(k + 1, l.len() as int) =~= p);
    assert(l[k + 1] == p[0]);
    assert forall|j: int| 0 <= j < l.len() implies #[trigger] l[j] != '\n' by {
        if j > k {
            assert(l[j] == p[j - k - 1]);
        }
    }
    assert(l.last() == p.last());
}

proof fn lemma_scan_no_break(a: Seq<char>, l: Seq<char>)
    requires
        forall|j: int| 0 <= j < l.len() ==> #[trigger] l[j] != '\n',
    ensures
        scan_lines(a + l) == (scan_lines(a).0, scan_lines(a).1 + l),
    decreases l.len(),
{
    if l.len() == 0 {
        assert(a + l =~= a);
        assert(scan_lines(a).1 + l =~= scan_lines(a).1);
    } else {
        let x = a + l;
        assert(x.drop_last() =~= a + l.drop_last());
        assert(l.drop_last().len() == l.len() - 1);
        assert forall|j: int| 0 <= j < l.drop_last().len() implies #[trigger] l.drop_last()[j]
            != '\n' by {
            assert(l.drop_last()[j] == l[j]);
        }
        lemma_scan_no_break(a, l.drop_last());
        assert(x.last() == l.last());
        assert(l[l.len() - 1] != '\n');
        assert((scan_lines(a).1 + l.drop_last()).push(l.last()) =~= scan_lines(a).1 + l);
    }
}

proof fn lemma_indexed_drop_last(ixs: Seq<nat>, ps: Seq<Seq<char>>)
    requires
        indexed_payloads(ixs, ps),
        ps.len() > 0,
    ensures
        indexed_payloads(ixs.drop_last(), ps.drop_last()),
        is_payload(ps.last()),
{
    let q = ps.drop_last();
    assert forall|i: int| 0 <= i < q.len() implies is_payload(#[trigger] q[i]) by {
        assert(q[i] == ps[i]);
    }
    assert(is_payload(ps[ps.len() - 1]));
}

proof fn lemma_scan_indexed(ixs: Seq<nat>, ps: Seq<Seq<char>>)
    requires
        indexed_payloads(ixs, ps),
    ensures
        scan_lines(indexed_text(ixs, ps)) == (indexed_lines(ixs, ps), Seq::<char>::empty()),
    decreases ps.len(),
{
    if ps.len() > 0 {
        lemma_indexed_drop_last(ixs, ps);
        lemma_scan_indexed(ixs.drop_last(), ps.drop_last());
        let a = indexed_text(ixs.drop_last(), ps.drop_last());
        let l = numbered_line(ixs.last() as int, ps.last());
        lemma_numbered_line_parts(ixs.last() as int, ps.last());
        lemma_scan_no_break(a, l);
        let x = indexed_text(ixs, ps);
        assert(x =~= (a + l).push('\n'));
        assert(x.drop_last() =~= a + l);
        assert(Seq::<char>::empty() + l =~= l);
        assert(strip_cr(l) == l);
    }
}

proof fn lemma_indexed_lines_at(ixs: Seq<nat>, ps: Seq<Seq<char>>)
    requires
        indexed_payloads(ixs, ps),
    ensures
        indexed_lines(ixs, ps).len() == ps.len(),
        forall|j: int|
            0 <= j < ps.len() ==> #[trigger] indexed_lines(ixs, ps)[j] == numbered_line(
                ixs[j] as int,
                ps[j],
            ),
    decreases ps.len(),
{
    if ps.len() > 0 {
        lemma_indexed_drop_last(ixs, ps);
        lemma_indexed_lines_at(ixs.drop_last(), ps.drop_last());
        let lines = indexed_lines(ixs, ps);
        assert forall|j: int| 0 <= j < ps.len() implies #[trigger] lines[j] == numbered_line(
            ixs[j] as int,
            ps[j],
        ) by {
            if j < ps.len() - 1 {
                assert(ixs.drop_last()[j] == ixs[j]);
                assert(ps.drop_last()[j] == ps[j]);
            }
        }
    }
}

proof fn lemma_indexed_prefix(ixs: Seq<nat>, ps: Seq<Seq<char>>, j: int)
    requires
        indexed_payloads(ixs, ps),
        0 <= j <= ps.len(),
    ensures
        indexed_text(ixs.take(j), ps.take(j)).len() <= indexed_text(ixs, ps).len(),
        forall|i: int|
            0 <= i < indexed_text(ixs.take(j), ps.take(j)).len() ==> #[trigger] indexed_text(
                ixs,
                ps,
            )[i] == indexed_text(ixs.take(j), ps.take(j))[i],
    decreases ps.len(),
{
    if j == ps.len() {
        assert(ixs.take(j) =~= ixs);
        assert(ps.take(j) =~= ps);
    } else {
        lemma_indexed_drop_last(ixs, ps);
        lemma_indexed_prefix(ixs.drop_last(), ps.drop_last(), j);
        assert(ixs.drop_last().take(j) =~= ixs.take(j));
        assert(ps.drop_last().take(j) =~= ps.take(j));
        let t = indexed_text(ixs, ps);
        let tq = indexed_text(ixs.drop_last(), ps.drop_last());
        assert forall|i: int| 0 <= i < tq.len() implies #[trigger] t[i] == tq[i] by {}
    }
}

proof fn lemma_trim_end_prefix(s: Seq<char>)
    ensures
        trim_end(s).len() <= s.len(),
        trim_end(s) == s.take(trim_end(s).len() as int),
        forall|j: int| 0 <= j < s.len() && !is_white(#[trigger] s[j]) ==> j < trim_end(s).len(),
    decreases s.len(),
{
    if s.len() > 0 && is_white(s.last()) {
        let d = s.drop_last();
        lemma_trim_end_prefix(d);
        let m = trim_end(d).len() as int;
        assert(d.take(m) =~= s.take(m));
        assert forall|j: int| 0 <= j < s.len() && !is_white(#[trigger] s[j]) implies j
            < trim_end(s).len() by {
            if j < d.len() {
                assert(d[j] == s[j]);
            }
        }
    } else {
        assert(s.take(s.len() as int) =~= s);
    }
}

proof fn lemma_indexed_head(ixs: Seq<nat>, ps: Seq<Seq<char>>)
    requires
        indexed_payloads(ixs, ps),
        ps.len() >= 1,
    ensures
        trim(indexed_text(ixs, ps)).len() > 0,
        index_head(trim_start(indexed_text(ixs, ps))) is Some,
{
    let text = indexed_text(ixs, ps);
    let lead = ps[0];
    assert(is_payload(lead));
    lemma_indexed_prefix(ixs, ps, 1);
    let one = indexed_text(ixs.take(1), ps.take(1));
    assert(ixs.take(1).drop_last() =~= Seq::<nat>::empty());
    assert(ps.take(1).drop_last() =~= Seq::<Seq<char>>::empty());
    assert(indexed_text(ixs.take(1).drop_last(), ps.take(1).drop_last()) == Seq::<char>::empty());
    let d = nat_digits(ixs[0]);
    lemma_nat_digits(ixs[0]);
    let k = d.len() as int;
    let first = numbered_line(ixs[0] as int, lead);
    assert(decimal(ixs[0] as int) == d);
    assert(first =~= d + seq![' '] + lead);
    assert(one =~= first.push('\n'));
    assert forall|i: int| 0 <= i < k implies is_digit(#[trigger] text[i]) by {
        assert(text[i] == one[i]);
        assert(one[i] == d[i]);
    }
    assert(text[k] == ' ' && text[k + 1] == lead[0]);
    // The text starts with a digit: it has no leading whitespace, and
    // trimming its end keeps that digit.
    assert(is_digit(text[0]));
    assert(trim_start(text) == text);
    lemma_trim_end_prefix(text);
    lemma_digit_end_at(text, 0, k);
}

proof fn lemma_load_positions(kind: SegmentErrorTypes, ixs: Seq<nat>, ps: Seq<Seq<char>>)
    requires
        indexed_payloads(ixs, ps),
        forall|i: int| 0 <= i < ixs.len() ==> #[trigger] ixs[i] == i,
    ensures
        load_lines(kind, indexed_lines(ixs, ps)) == Ok::<Seq<Seq<char>>, u32>(ps),
    decreases ps.len(),
{
    if ps.len() > 0 {
        let q = ps.drop_last();
        lemma_indexed_drop_last(ixs, ps);
        assert forall|i: int| 0 <= i < ixs.drop_last().len() implies #[trigger] ixs.drop_last()[i]
            == i by {
            assert(ixs.drop_last()[i] == ixs[i]);
        }
        lemma_load_positions(kind, ixs.drop_last(), q);
        assert(ixs.last() == ixs.len() - 1);
        lemma_numbered_line_parts(ixs.last() as int, ps.last());
        let l = numbered_line(ixs.last() as int, ps.last());
        let lines = indexed_lines(ixs.drop_last(), q);
        assert(indexed_lines(ixs, ps) == lines.push(l));
        assert(lines.push(l).drop_last() =~= lines);
        assert(lines.push(l).last() == l);
        assert(line_parts(l) == Some((q.len() as int, ps.last())));
        assert(q.push(ps.last()) =~= ps);
    } else {
        assert(ps =~= Seq::<Seq<char>>::empty());
    }
}

/// A segment whose lines are `0 ps[0]`, `1 ps[1]`, ... in order, each ended by
/// a line break, loads as its payloads `ps[0]`, `ps[1]`, ... in order.
pub proof fn numbered_segment_loads(kind: SegmentErrorTypes, ps: Seq<Seq<char>>)
    requires
        forall|i: int| 0 <= i < ps.len() ==> is_payload(#[trigger] ps[i]),
    ensures
        load_segment_spec(kind, numbered_text(ps)) == Ok::<Seq<Seq<char>>, u32>(ps),
{
    let ixs = positions(ps.len());
    let text = numbered_text(ps);
    if ps.len() == 0 {
        assert(trim(text).len() == 0);
        assert(ps =~= Seq::<Seq<char>>::empty());
        return;
    }
    lemma_scan_indexed(ixs, ps);
    lemma_load_positions(kind, ixs, ps);
    let lines = indexed_lines(ixs, ps);
    assert(split_lines(text) == lines.push(Seq::<char>::empty()));
    assert(lines.push(Seq::<char>::empty()).drop_last() =~= lines);
    lemma_indexed_head(ixs, ps);
}

/// A segment whose lines are `ixs[0] ps[0]`, `ixs[1] ps[1]`, ..., each ended
/// by a line break, fails with `NotChronological` for its kind where
/// `ixs[k]` is the first index that differs from its position `k`, whatever
/// indices follow.
pub proof fn out_of_order_segment_fails(
    kind: SegmentErrorTypes,
    ixs: Seq<nat>,
    ps: Seq<Seq<char>>,
    k: int,
)
    requires
        indexed_payloads(ixs, ps),
        0 <= k < ixs.len(),
        forall|j: int| 0 <= j < k ==> #[trigger] ixs[j] == j,
        ixs[k] != k,
    ensures
        load_segment_spec(kind, indexed_text(ixs, ps)) == Err::<Seq<Seq<char>>, u32>(
            error_code(kind, ErrorTypes::NotChronological),
        ),
{
    let text = indexed_text(ixs, ps);
    lemma_scan_indexed(ixs, ps);
    lemma_indexed_lines_at(ixs, ps);
    lemma_indexed_head(ixs, ps);
    let lines = indexed_lines(ixs, ps).push(Seq::<char>::empty());
    assert(split_lines(text) == lines);
    assert forall|j: int| 0 <= j <= k implies #[trigger] line_index(lines[j]) == Some(
        ixs[j] as int,
    ) by {
        assert(lines[j] == numbered_line(ixs[j] as int, ps[j]));
        assert(is_payload(ps[j]));
        lemma_numbered_line_parts(ixs[j] as int, ps[j]);
    }
    assert forall|j: int| 0 <= j < k implies #[trigger] line_index(lines[j]) == Some(j) by {
        assert(line_index(lines[j]) == Some(ixs[j] as int));
    }
    assert(line_index(lines[k]) == Some(ixs[k] as int));
    lemma_ordered_positions(lines, k);
    out_of_order_line_fails(kind, lines, k);
}

} // verus!
