//! The rule table of the scanner. Each lexical rule is given by a
//! specification function returning the length of text it matches at a
//! position of a line, or nothing when it does not match there. The rules
//! are totally ordered; `winning_kind` resolves a position to the first rule
//! that matches there, and a run of non-whitespace characters claimed by no
//! rule is the error ("catch-all") case.

use vstd::prelude::*;
use vstd::string::StrSliceExecFns;

use crate::chars::{is_space_char, is_digit_char, is_alpha_char, is_word_char};

verus! {

/// The identity of a lexical rule, one per token variant, in priority order:
/// the order of declaration here is the order of the rule table.
#[derive(Clone, Copy, PartialEq, Eq, Structural, Debug)]
pub enum RuleKind {
    Float,
    Int,
    Char,
    Equal,
    Neq,
    Leq,
    Geq,
    Less,
    Greater,
    Add,
    Sub,
    Mul,
    Div,
    Assign,
    Not,
    And,
    Or,
    Bnot,
    Band,
    Bor,
    Xor,
    Lambda,
    Comma,
    Period,
    Semicolon,
    Lpar,
    Rpar,
    Call,
    Builtin,
    Name,
}

/// Length of the run of decimal digits starting at position `i` of `s`.
pub open spec fn digit_run_len(s: Seq<char>, i: int) -> int
    decreases s.len() - i,
{
    if i < 0 || i >= s.len() || !is_digit_char(s[i]) {
        0
    } else {
        1 + digit_run_len(s, i + 1)
    }
}

/// Length of the run of word characters starting at position `i` of `s`.
pub open spec fn word_run_len(s: Seq<char>, i: int) -> int
    decreases s.len() - i,
{
    if i < 0 || i >= s.len() || !is_word_char(s[i]) {
        0
    } else {
        1 + word_run_len(s, i + 1)
    }
}

/// Length of the run of non-whitespace characters starting at position `i`.
pub open spec fn nonspace_run_len(s: Seq<char>, i: int) -> int
    decreases s.len() - i,
{
    if i < 0 || i >= s.len() || is_space_char(s[i]) {
        0
    } else {
        1 + nonspace_run_len(s, i + 1)
    }
}

/// A single fixed character, such as `+` or `(`.
pub open spec fn lit1_len(s: Seq<char>, i: int, c: char) -> Option<int> {
    if 0 <= i < s.len() && s[i] == c {
        Some(1int)
    } else {
        None
    }
}

/// A fixed two-character operator, such as `==` or `&&`.
pub open spec fn lit2_len(s: Seq<char>, i: int, c0: char, c1: char) -> Option<int> {
    if 0 <= i && i + 1 < s.len() && s[i] == c0 && s[i + 1] == c1 {
        Some(2int)
    } else {
        None
    }
}

/// A floating-point literal: optional digits, a period, then at least one
/// digit. The leading digit run is maximal, so the literal is exactly
/// `digits . digits`.
pub open spec fn float_len(s: Seq<char>, i: int) -> Option<int> {
    let d = digit_run_len(s, i);
    let f = digit_run_len(s, i + d + 1);
    if 0 <= i && i + d < s.len() && s[i + d] == '.' && f > 0 {
        Some(d + 1 + f)
    } else {
        None
    }
}

/// An integer literal: one or more digits, maximal.
pub open spec fn int_len(s: Seq<char>, i: int) -> Option<int> {
    if 0 <= i && digit_run_len(s, i) > 0 {
        Some(digit_run_len(s, i))
    } else {
        None
    }
}

/// A character literal: a quote, one letter or line feed, and a quote.
pub open spec fn char_lit_len(s: Seq<char>, i: int) -> Option<int> {
    if 0 <= i && i + 2 < s.len() && s[i] == '\'' && (is_alpha_char(s[i + 1]) || s[i + 1] == '\n')
        && s[i + 2] == '\'' {
        Some(3int)
    } else {
        None
    }
}

/// A call: an identifier (letter, then word characters, maximal) followed
/// immediately by an opening parenthesis, which is part of the lexeme.
pub open spec fn call_len(s: Seq<char>, i: int) -> Option<int> {
    if 0 <= i < s.len() && is_alpha_char(s[i]) {
        let e = i + 1 + word_run_len(s, i + 1);
        if e < s.len() && s[e] == '(' {
            Some(e + 1 - i)
        } else {
            None
        }
    } else {
        None
    }
}

/// A builtin call: an underscore, an identifier, and an opening parenthesis.
pub open spec fn builtin_len(s: Seq<char>, i: int) -> Option<int> {
    if 0 <= i && i + 1 < s.len() && s[i] == '_' && is_alpha_char(s[i + 1]) {
        let e = i + 2 + word_run_len(s, i + 2);
        if e < s.len() && s[e] == '(' {
            Some(e + 1 - i)
        } else {
            None
        }
    } else {
        None
    }
}

/// A bare identifier: a letter followed by word characters, maximal.
pub open spec fn name_len(s: Seq<char>, i: int) -> Option<int> {
    if 0 <= i < s.len() && is_alpha_char(s[i]) {
        Some(1 + word_run_len(s, i + 1))
    } else {
        None
    }
}

/// The pattern semantics of one rule: the length the rule matches at
/// position `i` of `s`, or nothing when it does not match there.
pub open spec fn rule_len(s: Seq<char>, i: int, k: RuleKind) -> Option<int> {
    match k {
        RuleKind::Float => float_len(s, i),
        RuleKind::Int => int_len(s, i),
        RuleKind::Char => char_lit_len(s, i),
        RuleKind::Equal => lit2_len(s, i, '=', '='),
        RuleKind::Neq => lit2_len(s, i, '!', '='),
        RuleKind::Leq => lit2_len(s, i, '<', '='),
        RuleKind::Geq => lit2_len(s, i, '>', '='),
        RuleKind::Less => lit1_len(s, i, '<'),
        RuleKind::Greater => lit1_len(s, i, '>'),
        RuleKind::Add => lit1_len(s, i, '+'),
        RuleKind::Sub => lit1_len(s, i, '-'),
        RuleKind::Mul => lit1_len(s, i, '*'),
        RuleKind::Div => lit1_len(s, i, '/'),
        RuleKind::Assign => lit1_len(s, i, '='),
        RuleKind::Not => lit1_len(s, i, '!'),
        RuleKind::And => lit2_len(s, i, '&', '&'),
        RuleKind::Or => lit2_len(s, i, '|', '|'),
        RuleKind::Bnot => lit1_len(s, i, '~'),
        RuleKind::Band => lit1_len(s, i, '&'),
        RuleKind::Bor => lit1_len(s, i, '|'),
        RuleKind::Xor => lit1_len(s, i, '^'),
        RuleKind::Lambda => lit1_len(s, i, '\\'),
        RuleKind::Comma => lit1_len(s, i, ','),
        RuleKind::Period => lit1_len(s, i, '.'),
        RuleKind::Semicolon => lit1_len(s, i, ';'),
        RuleKind::Lpar => lit1_len(s, i, '('),
        RuleKind::Rpar => lit1_len(s, i, ')'),
        RuleKind::Call => call_len(s, i),
        RuleKind::Builtin => builtin_len(s, i),
        RuleKind::Name => name_len(s, i),
    }
}

/// The priority ("leftmost-first") policy of the scanner: at a position, the
/// first rule of the table that matches there wins, whatever the other rules
/// would match. Nothing means no rule matched, which is the error case.
pub open spec fn winning_kind(s: Seq<char>, i: int) -> Option<RuleKind> {
    if rule_len(s, i, RuleKind::Float) is Some {
        Some(RuleKind::Float)
    } else if rule_len(s, i, RuleKind::Int) is Some {
        Some(RuleKind::Int)
    } else if rule_len(s, i, RuleKind::Char) is Some {
        Some(RuleKind::Char)
    } else if rule_len(s, i, RuleKind::Equal) is Some {
        Some(RuleKind::Equal)
    } else if rule_len(s, i, RuleKind::Neq) is Some {
        Some(RuleKind::Neq)
    } else if rule_len(s, i, RuleKind::Leq) is Some {
        Some(RuleKind::Leq)
    } else if rule_len(s, i, RuleKind::Geq) is Some {
        Some(RuleKind::Geq)
    } else if rule_len(s, i, RuleKind::Less) is Some {
        Some(RuleKind::Less)
    } else if rule_len(s, i, RuleKind::Greater) is Some {
        Some(RuleKind::Greater)
    } else if rule_len(s, i, RuleKind::Add) is Some {
        Some(RuleKind::Add)
    } else if rule_len(s, i, RuleKind::Sub) is Some {
        Some(RuleKind::Sub)
    } else if rule_len(s, i, RuleKind::Mul) is Some {
        Some(RuleKind::Mul)
    } else if rule_len(s, i, RuleKind::Div) is Some {
        Some(RuleKind::Div)
    } else if rule_len(s, i, RuleKind::Assign) is Some {
        Some(RuleKind::Assign)
    } else if rule_len(s, i, RuleKind::Not) is Some {
        Some(RuleKind::Not)
    } else if rule_len(s, i, RuleKind::And) is Some {
        Some(RuleKind::And)
    } else if rule_len(s, i, RuleKind::Or) is Some {
        Some(RuleKind::Or)
    } else if rule_len(s, i, RuleKind::Bnot) is Some {
        Some(RuleKind::Bnot)
    } else if rule_len(s, i, RuleKind::Band) is Some {
        Some(RuleKind::Band)
    } else if rule_len(s, i, RuleKind::Bor) is Some {
        Some(RuleKind::Bor)
    } else if rule_len(s, i, RuleKind::Xor) is Some {
        Some(RuleKind::Xor)
    } else if rule_len(s, i, RuleKind::Lambda) is Some {
        Some(RuleKind::Lambda)
    } else if rule_len(s, i, RuleKind::Comma) is Some {
        Some(RuleKind::Comma)
    } else if rule_len(s, i, RuleKind::Period) is Some {
        Some(RuleKind::Period)
    } else if rule_len(s, i, RuleKind::Semicolon) is Some {
        Some(RuleKind::Semicolon)
    } else if rule_len(s, i, RuleKind::Lpar) is Some {
        Some(RuleKind::Lpar)
    } else if rule_len(s, i, RuleKind::Rpar) is Some {
        Some(RuleKind::Rpar)
    } else if rule_len(s, i, RuleKind::Call) is Some {
        Some(RuleKind::Call)
    } else if rule_len(s, i, RuleKind::Builtin) is Some {
        Some(RuleKind::Builtin)
    } else if rule_len(s, i, RuleKind::Name) is Some {
        Some(RuleKind::Name)
    } else {
        None
    }
}

/// The length of the match at position `i`: the winning rule's length, or
/// the maximal non-whitespace run for the error case.
pub open spec fn match_len_at(s: Seq<char>, i: int) -> int {
    match winning_kind(s, i) {
        Some(k) => rule_len(s, i, k)->Some_0,
        None => nonspace_run_len(s, i),
    }
}

/// The distance the scan advances from position `i`, kept at least one and
/// at most the remaining length so that the scan always makes progress; at
/// a non-whitespace position within the line it equals `match_len_at`.
pub open spec fn step_len(s: Seq<char>, i: int) -> int {
    let l = match_len_at(s, i);
    let rem = s.len() - i;
    if rem < 1 {
        1
    } else if l < 1 {
        1
    } else if l > rem {
        rem
    } else {
        l
    }
}

/// The digit run lies within the line, consists of digits, and is maximal.
pub proof fn lemma_digit_run(s: Seq<char>, i: int)
    requires
        0 <= i <= s.len(),
    ensures
        0 <= digit_run_len(s, i),
        i + digit_run_len(s, i) <= s.len(),
        forall|j: int| i <= j < i + digit_run_len(s, i) ==> is_digit_char(s[j]),
        i + digit_run_len(s, i) < s.len() ==> !is_digit_char(s[i + digit_run_len(s, i)]),
    decreases s.len() - i,
{
    if i < s.len() && is_digit_char(s[i]) {
        lemma_digit_run(s, i + 1);
    }
}

/// The word-character run lies within the line, consists of word
/// characters, and is maximal.
pub proof fn lemma_word_run(s: Seq<char>, i: int)
    requires
        0 <= i <= s.len(),
    ensures
        0 <= word_run_len(s, i),
        i + word_run_len(s, i) <= s.len(),
        forall|j: int| i <= j < i + word_run_len(s, i) ==> is_word_char(s[j]),
        i + word_run_len(s, i) < s.len() ==> !is_word_char(s[i + word_run_len(s, i)]),
    decreases s.len() - i,
{
    if i < s.len() && is_word_char(s[i]) {
        lemma_word_run(s, i + 1);
    }
}

/// The non-whitespace run lies within the line, consists of non-whitespace
/// characters, and is maximal.
pub proof fn lemma_nonspace_run(s: Seq<char>, i: int)
    requires
        0 <= i <= s.len(),
    ensures
        0 <= nonspace_run_len(s, i),
        i + nonspace_run_len(s, i) <= s.len(),
        forall|j: int| i <= j < i + nonspace_run_len(s, i) ==> !is_space_char(s[j]),
        i + nonspace_run_len(s, i) < s.len() ==> is_space_char(s[i + nonspace_run_len(s, i)]),
    decreases s.len() - i,
{
    if i < s.len() && !is_space_char(s[i]) {
        lemma_nonspace_run(s, i + 1);
    }
}

/// Every rule match is at least one character long and stays within the
/// line; so does the error run at an unclaimed non-whitespace position.
/// Hence the scan's step equals the match length there.
pub proof fn lemma_match_len_bounds(s: Seq<char>, i: int)
    requires
        0 <= i < s.len(),
        !is_space_char(s[i]),
    ensures
        1 <= match_len_at(s, i),
        i + match_len_at(s, i) <= s.len(),
        step_len(s, i) == match_len_at(s, i),
{
    lemma_digit_run(s, i);
    lemma_nonspace_run(s, i);
    match winning_kind(s, i) {
        Some(k) => {
            match k {
                RuleKind::Float => {
                    let d = digit_run_len(s, i);
                    lemma_digit_run(s, i + d + 1);
                },
                RuleKind::Int => {},
                RuleKind::Call => {
                    lemma_word_run(s, i + 1);
                },
                RuleKind::Builtin => {
                    lemma_word_run(s, i + 2);
                },
                RuleKind::Name => {
                    lemma_word_run(s, i + 1);
                },
                _ => {},
            }
        },
        None => {},
    }
}

/// Counts the digit run starting at `i`.
pub fn digit_run(s: &str, i: usize) -> (n: usize)
    requires
        i <= s@.len(),
    ensures
        n as int == digit_run_len(s@, i as int),
        i + n <= s@.len(),
{
    let len = s.unicode_len();
    let mut j = i;
    loop
        invariant
            i <= j <= len,
            len == s@.len(),
            digit_run_len(s@, i as int) == j - i + digit_run_len(s@, j as int),
        ensures
            i <= j <= len,
            digit_run_len(s@, i as int) == j - i,
        decreases len - j,
    {
        if j == len {
            break;
        }
        let c = s.get_char(j);
        if !crate::chars::digit_char(c) {
            break;
        }
        j = j + 1;
    }
    j - i
}

/// Counts the word-character run starting at `i`.
pub fn word_run(s: &str, i: usize) -> (n: usize)
    requires
        i <= s@.len(),
    ensures
        n as int == word_run_len(s@, i as int),
        i + n <= s@.len(),
{
    let len = s.unicode_len();
    let mut j = i;
    loop
        invariant
            i <= j <= len,
            len == s@.len(),
            word_run_len(s@, i as int) == j - i + word_run_len(s@, j as int),
        ensures
            i <= j <= len,
            word_run_len(s@, i as int) == j - i,
        decreases len - j,
    {
        if j == len {
            break;
        }
        let c = s.get_char(j);
        if !crate::chars::word_char(c) {
            break;
        }
        j = j + 1;
    }
    j - i
}

/// Counts the non-whitespace run starting at `i`.
pub fn nonspace_run(s: &str, i: usize) -> (n: usize)
    requires
        i <= s@.len(),
    ensures
        n as int == nonspace_run_len(s@, i as int),
        i + n <= s@.len(),
{
    let len = s.unicode_len();
    let mut j = i;
    loop
        invariant
            i <= j <= len,
            len == s@.len(),
            nonspace_run_len(s@, i as int) == j - i + nonspace_run_len(s@, j as int),
        ensures
            i <= j <= len,
            nonspace_run_len(s@, i as int) == j - i,
        decreases len - j,
    {
        if j == len {
            break;
        }
        let c = s.get_char(j);
        if crate::chars::space_char(c) {
            break;
        }
        j = j + 1;
    }
    j - i
}

fn try_lit1(s: &str, i: usize, c: char) -> (r: Option<usize>)
    requires
        i < s@.len(),
    ensures
        match r {
            Some(l) => lit1_len(s@, i as int, c) == Some(l as int) && i + l <= s@.len(),
            None => lit1_len(s@, i as int, c) is None,
        },
{
    if s.get_char(i) == c {
        Some(1)
    } else {
        None
    }
}

fn try_lit2(s: &str, i: usize, c0: char, c1: char) -> (r: Option<usize>)
    requires
        i < s@.len(),
    ensures
        match r {
            Some(l) => lit2_len(s@, i as int, c0, c1) == Some(l as int) && i + l <= s@.len(),
            None => lit2_len(s@, i as int, c0, c1) is None,
        },
{
    let len = s.unicode_len();
    if i + 1 < len && s.get_char(i) == c0 && s.get_char(i + 1) == c1 {
        Some(2)
    } else {
        None
    }
}

fn try_float(s: &str, i: usize) -> (r: Option<usize>)
    requires
        i < s@.len(),
    ensures
        match r {
            Some(l) => float_len(s@, i as int) == Some(l as int) && 1 <= l && i + l <= s@.len(),
            None => float_len(s@, i as int) is None,
        },
{
    let len = s.unicode_len();
    let d = digit_run(s, i);
    if i + d < len && s.get_char(i + d) == '.' {
        let f = digit_run(s, i + d + 1);
        if f > 0 {
            Some(d + 1 + f)
        } else {
            None
        }
    } else {
        None
    }
}

fn try_int(s: &str, i: usize) -> (r: Option<usize>)
    requires
        i < s@.len(),
    ensures
        match r {
            Some(l) => int_len(s@, i as int) == Some(l as int) && 1 <= l && i + l <= s@.len(),
            None => int_len(s@, i as int) is None,
        },
{
    let d = digit_run(s, i);
    if d > 0 {
        Some(d)
    } else {
        None
    }
}

fn try_char_lit(s: &str, i: usize) -> (r: Option<usize>)
    requires
        i < s@.len(),
    ensures
        match r {
            Some(l) => char_lit_len(s@, i as int) == Some(l as int) && i + l <= s@.len(),
            None => char_lit_len(s@, i as int) is None,
        },
{
    let len = s.unicode_len();
    if len - i > 2 && s.get_char(i) == '\'' && s.get_char(i + 2) == '\'' {
        let c = s.get_char(i + 1);
        if crate::chars::alpha_char(c) || c == '\n' {
            Some(3)
        } else {
            None
        }
    } else {
        None
    }
}

fn try_call(s: &str, i: usize) -> (r: Option<usize>)
    requires
        i < s@.len(),
    ensures
        match r {
            Some(l) => call_len(s@, i as int) == Some(l as int) && 1 <= l && i + l <= s@.len(),
            None => call_len(s@, i as int) is None,
        },
{
    let len = s.unicode_len();
    if crate::chars::alpha_char(s.get_char(i)) {
        let e = i + 1 + word_run(s, i + 1);
        if e < len && s.get_char(e) == '(' {
            Some(e + 1 - i)
        } else {
            None
        }
    } else {
        None
    }
}

fn try_builtin(s: &str, i: usize) -> (r: Option<usize>)
    requires
        i < s@.len(),
    ensures
        match r {
            Some(l) => builtin_len(s@, i as int) == Some(l as int) && 1 <= l && i + l <= s@.len(),
            None => builtin_len(s@, i as int) is None,
        },
{
    let len = s.unicode_len();
    if i + 1 < len && s.get_char(i) == '_' && crate::chars::alpha_char(s.get_char(i + 1)) {
        let e = i + 2 + word_run(s, i + 2);
        if e < len && s.get_char(e) == '(' {
            Some(e + 1 - i)
        } else {
            None
        }
    } else {
        None
    }
}

fn try_name(s: &str, i: usize) -> (r: Option<usize>)
    requires
        i < s@.len(),
    ensures
        match r {
            Some(l) => name_len(s@, i as int) == Some(l as int) && 1 <= l && i + l <= s@.len(),
            None => name_len(s@, i as int) is None,
        },
{
    let len = s.unicode_len();
    if crate::chars::alpha_char(s.get_char(i)) {
        Some(1 + word_run(s, i + 1))
    } else {
        None
    }
}

/// Resolves a non-whitespace position: tries the rules in table order and
/// returns the first that matches, with its match length; or, when none
/// matches, the error case with the length of the non-whitespace run.
pub fn match_here(s: &str, i: usize) -> (r: (Option<RuleKind>, usize))
    requires
        i < s@.len(),
        !is_space_char(s@[i as int]),
    ensures
        r.0 == winning_kind(s@, i as int),
        r.1 as int == match_len_at(s@, i as int),
        r.1 as int == step_len(s@, i as int),
        1 <= r.1,
        i + r.1 <= s@.len(),
{
    proof {
        lemma_match_len_bounds(s@, i as int);
    }
    if let Some(l) = try_float(s, i) {
        return (Some(RuleKind::Float), l);
    }
    if let Some(l) = try_int(s, i) {
        return (Some(RuleKind::Int), l);
    }
    if let Some(l) = try_char_lit(s, i) {
        return (Some(RuleKind::Char), l);
    }
    if let Some(l) = try_lit2(s, i, '=', '=') {
        return (Some(RuleKind::Equal), l);
    }
    if let Some(l) = try_lit2(s, i, '!', '=') {
        return (Some(RuleKind::Neq), l);
    }
    if let Some(l) = try_lit2(s, i, '<', '=') {
        return (Some(RuleKind::Leq), l);
    }
    if let Some(l) = try_lit2(s, i, '>', '=') {
        return (Some(RuleKind::Geq), l);
    }
    if let Some(l) = try_lit1(s, i, '<') {
        return (Some(RuleKind::Less), l);
    }
    if let Some(l) = try_lit1(s, i, '>') {
        return (Some(RuleKind::Greater), l);
    }
    if let Some(l) = try_lit1(s, i, '+') {
        return (Some(RuleKind::Add), l);
    }
    if let Some(l) = try_lit1(s, i, '-') {
        return (Some(RuleKind::Sub), l);
    }
    if let Some(l) = try_lit1(s, i, '*') {
        return (Some(RuleKind::Mul), l);
    }
    if let Some(l) = try_lit1(s, i, '/') {
        return (Some(RuleKind::Div), l);
    }
    if let Some(l) = try_lit1(s, i, '=') {
        return (Some(RuleKind::Assign), l);
    }
    if let Some(l) = try_lit1(s, i, '!') {
        return (Some(RuleKind::Not), l);
    }
    if let Some(l) = try_lit2(s, i, '&', '&') {
        return (Some(RuleKind::And), l);
    }
    if let Some(l) = try_lit2(s, i, '|', '|') {
        return (Some(RuleKind::Or), l);
    }
    if let Some(l) = try_lit1(s, i, '~') {
        return (Some(RuleKind::Bnot), l);
    }
    if let Some(l) = try_lit1(s, i, '&') {
        return (Some(RuleKind::Band), l);
    }
    if let Some(l) = try_lit1(s, i, '|') {
        return (Some(RuleKind::Bor), l);
    }
    if let Some(l) = try_lit1(s, i, '^') {
        return (Some(RuleKind::Xor), l);
    }
    if let Some(l) = try_lit1(s, i, '\\') {
        return (Some(RuleKind::Lambda), l);
    }
    if let Some(l) = try_lit1(s, i, ',') {
        return (Some(RuleKind::Comma), l);
    }
    if let Some(l) = try_lit1(s, i, '.') {
        return (Some(RuleKind::Period), l);
    }
    if let Some(l) = try_lit1(s, i, ';') {
        return (Some(RuleKind::Semicolon), l);
    }
    if let Some(l) = try_lit1(s, i, '(') {
        return (Some(RuleKind::Lpar), l);
    }
    if let Some(l) = try_lit1(s, i, ')') {
        return (Some(RuleKind::Rpar), l);
    }
    if let Some(l) = try_call(s, i) {
        return (Some(RuleKind::Call), l);
    }
    if let Some(l) = try_builtin(s, i) {
        return (Some(RuleKind::Builtin), l);
    }
    if let Some(l) = try_name(s, i) {
        return (Some(RuleKind::Name), l);
    }
    let n = nonspace_run(s, i);
    (None, n)
}

} // verus!
