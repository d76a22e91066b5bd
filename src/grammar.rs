//! The statement grammar: which statement a line is, and its parts.
//!
//! ```text
//! let $NAME = 123 | "text" | pop | $LHS op $RHS | input | $OTHER
//! if $LHS cmp $RHS goto INDEX
//! goto INDEX
//! output $NAME
//! quit
//! ```
use vstd::prelude::*;
use crate::text::{
    all_digits, chars_of, contains, contains_text, has_at, lemma_digit_end_bounds,
    lemma_word_end_bounds, scan_digits, scan_word, slice_string, sub_chars, text_at, word_end,
};

verus! {

/// A comparison of an `if` statement.
#[derive(Clone, Copy, Debug, PartialEq, Eq, Structural)]
pub enum Cmp {
    Lt,
    Le,
    Gt,
    Ge,
    Eq,
    Ne,
}

/// The right-hand sides of `let`, as values.
pub enum AssignForm {
    /// A number or a quoted text (without its quotes).
    Literal(Seq<char>, Seq<char>),
    Pop(Seq<char>),
    Arith(Seq<char>, Seq<char>, char, Seq<char>),
    Input(Seq<char>),
    Copy(Seq<char>, Seq<char>),
}

/// A `let` statement: the variable it binds, and from what.
pub enum Assignment {
    Literal(String, String),
    Pop(String),
    Arith(String, String, char, String),
    Input(String),
    Copy(String, String),
}

impl View for Assignment {
    type V = AssignForm;

    open spec fn view(&self) -> AssignForm {
        match self {
            Assignment::Literal(n, v) => AssignForm::Literal(n@, v@),
            Assignment::Pop(n) => AssignForm::Pop(n@),
            Assignment::Arith(d, l, op, r) => AssignForm::Arith(d@, l@, *op, r@),
            Assignment::Input(n) => AssignForm::Input(n@),
            Assignment::Copy(n, m) => AssignForm::Copy(n@, m@),
        }
    }
}

/// The parts of an `if` statement, as values.
pub struct CondForm {
    pub lhs: Seq<char>,
    pub cmp: Cmp,
    pub rhs: Seq<char>,
    pub target: Seq<char>,
}

/// An `if` statement: two variables, their comparison, and the digits of the
/// index to jump to.
pub struct Condition {
    pub lhs: String,
    pub cmp: Cmp,
    pub rhs: String,
    pub target: Vec<char>,
}

impl View for Condition {
    type V = CondForm;

    open spec fn view(&self) -> CondForm {
        CondForm { lhs: self.lhs@, cmp: self.cmp, rhs: self.rhs@, target: self.target@ }
    }
}

pub open spec fn is_op(c: char) -> bool {
    c == '+' || c == '-' || c == '*' || c == '/'
}

pub open spec fn is_letter_or_space(c: char) -> bool {
    ('a' <= c && c <= 'z') || ('A' <= c && c <= 'Z') || c == ' '
}

/// One or more digits.
pub open spec fn is_number(r: Seq<char>) -> bool {
    r.len() > 0 && all_digits(r)
}

/// Letters and spaces between double quotes.
pub open spec fn is_quoted(r: Seq<char>) -> bool {
    &&& r.len() >= 2
    &&& r[0] == '"'
    &&& r.last() == '"'
    &&& forall|i: int| 1 <= i < r.len() - 1 ==> is_letter_or_space(#[trigger] r[i])
}

/// `$LHS op $RHS`: the two names and the operator.
pub open spec fn arith_parts(r: Seq<char>) -> Option<(Seq<char>, char, Seq<char>)> {
    if r.len() > 0 && r[0] == '$' {
        let e1 = word_end(r, 1);
        if e1 > 1 && e1 + 4 <= r.len() && r[e1] == ' ' && is_op(r[e1 + 1]) && r[e1 + 2] == ' '
            && r[e1 + 3] == '$' {
            let e2 = word_end(r, e1 + 4);
            if e2 > e1 + 4 && e2 == r.len() {
                Some((r.subrange(1, e1), r[e1 + 1], r.subrange(e1 + 4, e2)))
            } else {
                None
            }
        } else {
            None
        }
    } else {
        None
    }
}

/// `$NAME`: the name.
pub open spec fn var_ref(r: Seq<char>) -> Option<Seq<char>> {
    if r.len() > 1 && r[0] == '$' && word_end(r, 1) == r.len() {
        Some(r.drop_first())
    } else {
        None
    }
}

/// What the right-hand side `r` of `let $name = r` binds, trying the forms in
/// order: a literal, `pop`, arithmetic, `input`, another variable.
pub open spec fn rhs_form(name: Seq<char>, r: Seq<char>) -> Option<AssignForm> {
    if is_number(r) {
        Some(AssignForm::Literal(name, r))
    } else if is_quoted(r) {
        Some(AssignForm::Literal(name, r.subrange(1, r.len() - 1)))
    } else if r == "pop"@ {
        Some(AssignForm::Pop(name))
    } else if arith_parts(r) is Some {
        let a = arith_parts(r)->0;
        Some(AssignForm::Arith(name, a.0, a.1, a.2))
    } else if r == "input"@ {
        Some(AssignForm::Input(name))
    } else if var_ref(r) is Some {
        Some(AssignForm::Copy(name, var_ref(r)->0))
    } else {
        None
    }
}

/// The form of a line `let $name = rhs`, if it has one.
pub open spec fn parse_assign_spec(l: Seq<char>) -> Option<AssignForm> {
    let p = "let $"@;
    let q = " = "@;
    if has_at(l, 0, p) {
        let e = word_end(l, p.len() as int);
        if e > p.len() && has_at(l, e, q) {
            rhs_form(l.subrange(p.len() as int, e), l.subrange(e + q.len(), l.len() as int))
        } else {
            None
        }
    } else {
        None
    }
}

/// The target digits of a line `goto INDEX`.
pub open spec fn parse_goto_spec(l: Seq<char>) -> Option<Seq<char>> {
    let p = "goto "@;
    if has_at(l, 0, p) && is_number(l.subrange(p.len() as int, l.len() as int)) {
        Some(l.subrange(p.len() as int, l.len() as int))
    } else {
        None
    }
}

/// The comparison that starts at `i`, and its length.
pub open spec fn cmp_at(l: Seq<char>, i: int) -> Option<(Cmp, int)> {
    if 0 <= i && i + 1 < l.len() && l[i] == '<' && l[i + 1] == '=' {
        Some((Cmp::Le, 2))
    } else if 0 <= i < l.len() && l[i] == '<' {
        Some((Cmp::Lt, 1))
    } else if 0 <= i && i + 1 < l.len() && l[i] == '>' && l[i + 1] == '=' {
        Some((Cmp::Ge, 2))
    } else if 0 <= i < l.len() && l[i] == '>' {
        Some((Cmp::Gt, 1))
    } else if 0 <= i && i + 1 < l.len() && l[i] == '!' && l[i + 1] == '=' {
        Some((Cmp::Ne, 2))
    } else if 0 <= i < l.len() && l[i] == '=' {
        Some((Cmp::Eq, 1))
    } else {
        None
    }
}

/// The parts of a line `if $LHS cmp $RHS goto INDEX`.
pub open spec fn parse_if_spec(l: Seq<char>) -> Option<CondForm> {
    let p = "if $"@;
    let d = " $"@;
    let g = " goto "@;
    if has_at(l, 0, p) {
        let e1 = word_end(l, p.len() as int);
        if e1 > p.len() && e1 < l.len() && l[e1] == ' ' && cmp_at(l, e1 + 1) is Some {
            let c = cmp_at(l, e1 + 1)->0;
            let s2 = e1 + 1 + c.1 + d.len();
            if has_at(l, e1 + 1 + c.1, d) {
                let e2 = word_end(l, s2);
                if e2 > s2 && has_at(l, e2, g) && is_number(l.subrange(e2 + g.len(), l.len() as int)) {
                    Some(
                        CondForm {
                            lhs: l.subrange(p.len() as int, e1),
                            cmp: c.0,
                            rhs: l.subrange(s2, e2),
                            target: l.subrange(e2 + g.len(), l.len() as int),
                        },
                    )
                } else {
                    None
                }
            } else {
                None
            }
        } else {
            None
        }
    } else {
        None
    }
}

/// The variable of a line `output $NAME`.
pub open spec fn parse_output_spec(l: Seq<char>) -> Option<Seq<char>> {
    let p = "output $"@;
    if has_at(l, 0, p) && word_end(l, p.len() as int) == l.len() && l.len() > p.len() {
        Some(l.subrange(p.len() as int, l.len() as int))
    } else {
        None
    }
}

/// `a` comes before `b` in lexicographic order of their characters (the
/// order of `str`'s `<`).
pub open spec fn seq_lt(a: Seq<char>, b: Seq<char>) -> bool
    decreases a.len(),
{
    if a.len() == 0 {
        b.len() > 0
    } else if b.len() == 0 {
        false
    } else if a[0] != b[0] {
        a[0] < b[0]
    } else {
        seq_lt(a.drop_first(), b.drop_first())
    }
}

/// Whether `a cmp b` holds, comparing the texts lexicographically.
pub open spec fn cmp_holds(cmp: Cmp, a: Seq<char>, b: Seq<char>) -> bool {
    match cmp {
        Cmp::Lt => seq_lt(a, b),
        Cmp::Le => seq_lt(a, b) || a == b,
        Cmp::Gt => seq_lt(b, a),
        Cmp::Ge => seq_lt(b, a) || a == b,
        Cmp::Eq => a == b,
        Cmp::Ne => a != b,
    }
}

fn is_op_char(c: char) -> (r: bool)
    ensures
        r == is_op(c),
{
    c == '+' || c == '-' || c == '*' || c == '/'
}

fn is_letter_or_space_char(c: char) -> (r: bool)
    ensures
        r == is_letter_or_space(c),
{
    ('a' <= c && c <= 'z') || ('A' <= c && c <= 'Z') || c == ' '
}

/// Whether `s` is exactly `p`.
fn text_is(s: &Vec<char>, p: &str) -> (r: bool)
    ensures
        r == (s@ == p@),
{
    assert(s@.subrange(0, s@.len() as int) =~= s@);
    text_at(s, 0, p) && s.len() == p.unicode_len()
}

fn number_like(r: &Vec<char>) -> (b: bool)
    ensures
        b == is_number(r@),
{
    let e = scan_digits(r, 0);
    proof {
        lemma_digit_end_bounds(r@, 0);
    }
    r.len() > 0 && e == r.len()
}

fn quoted(r: &Vec<char>) -> (b: bool)
    ensures
        b == is_quoted(r@),
{
    let n = r.len();
    if n < 2 || r[0] != '"' || r[n - 1] != '"' {
        return false;
    }
    let mut i: usize = 1;
    while i < n - 1
        invariant
            n == r@.len(),
            n >= 2,
            1 <= i <= n - 1,
            forall|j: int| 1 <= j < i ==> is_letter_or_space(#[trigger] r@[j]),
        decreases n - i,
    {
        if !is_letter_or_space_char(r[i]) {
            return false;
        }
        i += 1;
    }
    true
}

fn arith_of(r: &Vec<char>, text: &str) -> (out: Option<(String, char, String)>)
    requires
        r@ == text@,
    ensures
        out matches Some(a) ==> arith_parts(r@) == Some((a.0@, a.1, a.2@)),
        out is None ==> arith_parts(r@) is None,
{
    let n = r.len();
    if n == 0 || r[0] != '$' {
        return None;
    }
    let e1 = scan_word(r, 1);
    proof {
        lemma_word_end_bounds(r@, 1);
    }
    if e1 <= 1 || n < 4 || e1 > n - 4 {
        return None;
    }
    if r[e1] != ' ' || !is_op_char(r[e1 + 1]) || r[e1 + 2] != ' ' || r[e1 + 3] != '$' {
        return None;
    }
    let e2 = scan_word(r, e1 + 4);
    if e2 <= e1 + 4 || e2 != n {
        return None;
    }
    Some((slice_string(text, 1, e1), r[e1 + 1], slice_string(text, e1 + 4, e2)))
}

fn var_ref_of(r: &Vec<char>, text: &str) -> (out: Option<String>)
    requires
        r@ == text@,
    ensures
        out matches Some(v) ==> var_ref(r@) == Some(v@),
        out is None ==> var_ref(r@) is None,
{
    let n = r.len();
    if n <= 1 || r[0] != '$' {
        return None;
    }
    if scan_word(r, 1) != n {
        return None;
    }
    let v = slice_string(text, 1, n);
    assert(v@ =~= r@.drop_first());
    Some(v)
}

/// Reads a line `let $name = rhs`: the variable and the form of `rhs`, or
/// `None` where the line has none of the forms.
pub fn parse_assign(line: &str) -> (r: Option<Assignment>)
    ensures
        r matches Some(a) ==> parse_assign_spec(line@) == Some(a@),
        r is None ==> parse_assign_spec(line@) is None,
{
    let s = chars_of(line);
    let n = s.len();
    let p = "let $";
    let q = " = ";
    if !text_at(&s, 0, p) {
        return None;
    }
    let pl = p.unicode_len();
    let e = scan_word(&s, pl);
    proof {
        lemma_word_end_bounds(s@, pl as int);
    }
    if e <= pl || !text_at(&s, e, q) {
        return None;
    }
    let rs = e + q.unicode_len();
    let name = slice_string(line, pl, e);
    let rtext = line.substring_char(rs, n);
    let r = sub_chars(&s, rs, n);
    if number_like(&r) {
        return Some(Assignment::Literal(name, String::from_str(rtext)));
    }
    if quoted(&r) {
        let v = slice_string(rtext, 1, r.len() - 1);
        return Some(Assignment::Literal(name, v));
    }
    if text_is(&r, "pop") {
        return Some(Assignment::Pop(name));
    }
    match arith_of(&r, rtext) {
        Some((lhs, op, rhs)) => {
            return Some(Assignment::Arith(name, lhs, op, rhs));
        },
        None => {},
    }
    if text_is(&r, "input") {
        return Some(Assignment::Input(name));
    }
    match var_ref_of(&r, rtext) {
        Some(src) => Some(Assignment::Copy(name, src)),
        None => None,
    }
}

/// Reads a line `goto INDEX`: the digits of the index.
pub fn parse_goto(line: &str) -> (r: Option<Vec<char>>)
    ensures
        r matches Some(d) ==> parse_goto_spec(line@) == Some(d@),
        r is None ==> parse_goto_spec(line@) is None,
{
    let s = chars_of(line);
    let p = "goto ";
    if !text_at(&s, 0, p) {
        return None;
    }
    let d = sub_chars(&s, p.unicode_len(), s.len());
    if number_like(&d) {
        Some(d)
    } else {
        None
    }
}

fn cmp_of(l: &Vec<char>, i: usize) -> (r: Option<(Cmp, usize)>)
    ensures
        r matches Some(c) ==> cmp_at(l@, i as int) == Some((c.0, c.1 as int)),
        r is None ==> cmp_at(l@, i as int) is None,
{
    let n = l.len();
    if i >= n {
        return None;
    }
    let two = i + 1 < n;
    if l[i] == '<' {
        if two && l[i + 1] == '=' {
            Some((Cmp::Le, 2))
        } else {
            Some((Cmp::Lt, 1))
        }
    } else if l[i] == '>' {
        if two && l[i + 1] == '=' {
            Some((Cmp::Ge, 2))
        } else {
            Some((Cmp::Gt, 1))
        }
    } else if l[i] == '!' {
        if two && l[i + 1] == '=' {
            Some((Cmp::Ne, 2))
        } else {
            None
        }
    } else if l[i] == '=' {
        Some((Cmp::Eq, 1))
    } else {
        None
    }
}

/// Reads a line `if $LHS cmp $RHS goto INDEX`.
pub fn parse_if(line: &str) -> (r: Option<Condition>)
    ensures
        r matches Some(c) ==> parse_if_spec(line@) == Some(c@),
        r is None ==> parse_if_spec(line@) is None,
{
    let s = chars_of(line);
    let n = s.len();
    let p = "if $";
    let d = " $";
    let g = " goto ";
    if !text_at(&s, 0, p) {
        return None;
    }
    let pl = p.unicode_len();
    let e1 = scan_word(&s, pl);
    proof {
        lemma_word_end_bounds(s@, pl as int);
    }
    if e1 <= pl || e1 >= n || s[e1] != ' ' {
        return None;
    }
    let (cmp, cl) = match cmp_of(&s, e1 + 1) {
        Some(c) => c,
        None => {
            return None;
        },
    };
    if !text_at(&s, e1 + 1 + cl, d) {
        return None;
    }
    let s2 = e1 + 1 + cl + d.unicode_len();
    let e2 = scan_word(&s, s2);
    proof {
        lemma_word_end_bounds(s@, s2 as int);
    }
    if e2 <= s2 || !text_at(&s, e2, g) {
        return None;
    }
    let ts = e2 + g.unicode_len();
    let target = sub_chars(&s, ts, n);
    if !number_like(&target) {
        return None;
    }
    Some(
        Condition {
            lhs: slice_string(line, pl, e1),
            cmp,
            rhs: slice_string(line, s2, e2),
            target,
        },
    )
}

/// Reads a line `output $NAME`: the variable.
pub fn parse_output(line: &str) -> (r: Option<String>)
    ensures
        r matches Some(v) ==> parse_output_spec(line@) == Some(v@),
        r is None ==> parse_output_spec(line@) is None,
{
    let s = chars_of(line);
    let p = "output $";
    if !text_at(&s, 0, p) {
        return None;
    }
    let pl = p.unicode_len();
    if scan_word(&s, pl) != s.len() || s.len() <= pl {
        return None;
    }
    Some(slice_string(line, pl, s.len()))
}

/// Whether `a` comes before `b` in lexicographic order.
pub fn text_less(a: &Vec<char>, b: &Vec<char>) -> (r: bool)
    ensures
        r == seq_lt(a@, b@),
{
    let mut i: usize = 0;
    assert(a@.subrange(0, a@.len() as int) =~= a@);
    assert(b@.subrange(0, b@.len() as int) =~= b@);
    loop
        invariant
            i <= a@.len(),
            i <= b@.len(),
            seq_lt(a@, b@) == seq_lt(
                a@.subrange(i as int, a@.len() as int),
                b@.subrange(i as int, b@.len() as int),
            ),
        decreases a@.len() - i,
    {
        if i == a.len() {
            return i < b.len();
        }
        if i == b.len() {
            return false;
        }
        if a[i] != b[i] {
            return a[i] < b[i];
        }
        assert(a@.subrange(i as int, a@.len() as int).drop_first() =~= a@.subrange(
            i + 1,
            a@.len() as int,
        ));
        assert(b@.subrange(i as int, b@.len() as int).drop_first() =~= b@.subrange(
            i + 1,
            b@.len() as int,
        ));
        i += 1;
    }
}

/// Whether `a cmp b` holds.
pub fn compare(cmp: Cmp, a: &String, b: &String) -> (r: bool)
    ensures
        r == cmp_holds(cmp, a@, b@),
{
    let ac = chars_of(a.as_str());
    let bc = chars_of(b.as_str());
    let same = *a == *b;
    match cmp {
        Cmp::Lt => text_less(&ac, &bc),
        Cmp::Le => text_less(&ac, &bc) || same,
        Cmp::Gt => text_less(&bc, &ac),
        Cmp::Ge => text_less(&bc, &ac) || same,
        Cmp::Eq => same,
        Cmp::Ne => !same,
    }
}

/// The state that handles a statement, chosen by the first keyword that the
/// line contains, in the order `let`, `if`, `goto`, `quit`, `output`.
pub open spec fn keyword_class(l: Seq<char>) -> Option<int> {
    if contains(l, "let"@) {
        Some(0)
    } else if contains(l, "if"@) {
        Some(1)
    } else if contains(l, "goto"@) {
        Some(2)
    } else if contains(l, "quit"@) {
        Some(3)
    } else if contains(l, "output"@) {
        Some(4)
    } else {
        None
    }
}

/// The number of the first keyword in `let`, `if`, `goto`, `quit`, `output`
/// that `line` contains.
pub fn keyword_of(line: &str) -> (r: Option<usize>)
    ensures
        r matches Some(k) ==> keyword_class(line@) == Some(k as int),
        r is None ==> keyword_class(line@) is None,
{
    let s = chars_of(line);
    if contains_text(&s, "let") {
        Some(0)
    } else if contains_text(&s, "if") {
        Some(1)
    } else if contains_text(&s, "goto") {
        Some(2)
    } else if contains_text(&s, "quit") {
        Some(3)
    } else if contains_text(&s, "output") {
        Some(4)
    } else {
        None
    }
}

} // verus!
