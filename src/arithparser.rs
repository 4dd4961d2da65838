use vstd::prelude::*;
use crate::text::string_of;
use crate::value::Command;

verus! {

/// A malformed parenthesized expression; `at` is the token where parsing
/// stopped.
#[derive(Clone, Copy, Debug, PartialEq, Eq, Structural)]
pub struct SyntaxError {
    pub at: usize,
}

/// The character views of a sequence of character vectors.
pub open spec fn char_views(v: Seq<Vec<char>>) -> Seq<Seq<char>> {
    v.map_values(|t: Vec<char>| t@)
}

/// The views of a sequence of instructions.
pub open spec fn cmd_views(v: Seq<Command>) -> Seq<Command<Seq<char>>> {
    v.map_values(|c: Command| c@)
}

/// Whether the token is exactly the word `w`.
pub fn is_word(t: &Vec<char>, w: &str) -> (r: bool)
    ensures
        r == (t@ == w@),
{
    let n = w.unicode_len();
    if t.len() != n {
        return false;
    }
    let mut k: usize = 0;
    while k < n
        invariant
            n == w@.len(),
            t@.len() == n,
            k <= n,
            t@.take(k as int) == w@.take(k as int),
        decreases n - k,
    {
        if t[k] != w.get_char(k) {
            return false;
        }
        k += 1;
        assert(t@.take(k as int) =~= w@.take(k as int));
    }
    assert(t@ =~= t@.take(n as int));
    assert(w@ =~= w@.take(n as int));
    true
}

/// The instruction of an infix operator token.
pub open spec fn binary_op(t: Seq<char>) -> Option<Command<Seq<char>>> {
    if t == "+"@ {
        Some(Command::Add)
    } else if t == "-"@ {
        Some(Command::Sub)
    } else if t == "*"@ {
        Some(Command::Mul)
    } else if t == "/"@ {
        Some(Command::Div)
    } else if t == ">"@ {
        Some(Command::GT)
    } else if t == ">="@ {
        Some(Command::GE)
    } else if t == "<"@ {
        Some(Command::LT)
    } else if t == "<="@ {
        Some(Command::LE)
    } else if t == "=="@ {
        Some(Command::EQ)
    } else if t == "!="@ {
        Some(Command::NE)
    } else {
        None
    }
}

fn binary_op_of(t: &Vec<char>) -> (r: Option<Command>)
    ensures
        match r {
            Some(c) => binary_op(t@) == Some(c@),
            None => binary_op(t@) is None,
        },
{
    if is_word(t, "+") {
        Some(Command::Add)
    } else if is_word(t, "-") {
        Some(Command::Sub)
    } else if is_word(t, "*") {
        Some(Command::Mul)
    } else if is_word(t, "/") {
        Some(Command::Div)
    } else if is_word(t, ">") {
        Some(Command::GT)
    } else if is_word(t, ">=") {
        Some(Command::GE)
    } else if is_word(t, "<") {
        Some(Command::LT)
    } else if is_word(t, "<=") {
        Some(Command::LE)
    } else if is_word(t, "==") {
        Some(Command::EQ)
    } else if is_word(t, "!=") {
        Some(Command::NE)
    } else {
        None
    }
}

/// The number that token `i` denotes, if any.
pub open spec fn number_at(nums: Seq<Option<u64>>, i: int) -> Option<u64> {
    if 0 <= i < nums.len() {
        nums[i]
    } else {
        None
    }
}

/// A reference token carrying the modifier `m` as its last character.
pub open spec fn is_ref_with(t: Seq<char>, m: char) -> bool {
    t.len() > 0 && t[0] == '@' && t.last() == m
}

/// The instructions of a leaf value token.
pub open spec fn leaf(t: Seq<char>, n: Option<u64>) -> Seq<Command<Seq<char>>> {
    if n is Some {
        seq![Command::Pushn(n->0)]
    } else if is_ref_with(t, '!') {
        seq![Command::NamedReference(t.drop_last(), 0), Command::Jmp]
    } else if is_ref_with(t, '$') {
        seq![Command::NamedReference(t.drop_last(), 0), Command::Get]
    } else if t.len() > 0 && t[0] == '@' {
        seq![Command::NamedReference(t, 0)]
    } else {
        seq![Command::Pushs(t)]
    }
}

/// `expr := '(' expr op expr (op expr)* ')' | value`, from token `i`: the
/// postfix instructions and the position after the expression.
pub open spec fn expr(toks: Seq<Seq<char>>, nums: Seq<Option<u64>>, i: int) -> Option<
    (Seq<Command<Seq<char>>>, int),
>
    decreases toks.len() - i, 1int,
{
    if i < 0 || i >= toks.len() {
        None
    } else if toks[i] == "("@ {
        binary(toks, nums, i)
    } else {
        Some((leaf(toks[i], number_at(nums, i)), i + 1))
    }
}

/// A parenthesized expression opening at token `i`.
pub open spec fn binary(toks: Seq<Seq<char>>, nums: Seq<Option<u64>>, i: int) -> Option<
    (Seq<Command<Seq<char>>>, int),
>
    decreases toks.len() - i, 0int,
{
    if i < 0 || i >= toks.len() {
        None
    } else {
        match expr(toks, nums, i + 1) {
            None => None,
            Some((c1, j)) => if !(i < j < toks.len()) || binary_op(toks[j]) is None {
                None
            } else {
                match expr(toks, nums, j + 1) {
                    None => None,
                    Some((c2, k)) => if !(j < k < toks.len()) {
                        None
                    } else if toks[k] == ")"@ {
                        Some((c1 + c2 + seq![binary_op(toks[j])->0], k + 1))
                    } else {
                        match continuation(toks, nums, k) {
                            None => None,
                            Some((c3, m)) => Some(
                                (c1 + c2 + seq![binary_op(toks[j])->0] + c3, m + 1),
                            ),
                        }
                    },
                }
            },
        }
    }
}

/// The `op expr` pairs that follow a first operation without parentheses,
/// up to (not past) the closing parenthesis; each operator comes after its
/// right operand.
pub open spec fn continuation(toks: Seq<Seq<char>>, nums: Seq<Option<u64>>, k: int) -> Option<
    (Seq<Command<Seq<char>>>, int),
>
    decreases toks.len() - k, 0int,
{
    if k < 0 || k >= toks.len() || binary_op(toks[k]) is None {
        None
    } else {
        match expr(toks, nums, k + 1) {
            None => None,
            Some((c, m)) => if !(k < m < toks.len()) {
                None
            } else if toks[m] == ")"@ {
                Some((c + seq![binary_op(toks[k])->0], m))
            } else {
                match continuation(toks, nums, m) {
                    None => None,
                    Some((c2, m2)) => Some((c + seq![binary_op(toks[k])->0] + c2, m2)),
                }
            },
        }
    }
}

/// Whether an exec parse result agrees with its spec.
pub open spec fn parsed_as(
    r: Result<(Vec<Command>, usize), SyntaxError>,
    s: Option<(Seq<Command<Seq<char>>>, int)>,
) -> bool {
    match r {
        Ok((c, j)) => s == Some((cmd_views(c@), j as int)),
        Err(_) => s is None,
    }
}

fn parse_value(toks: &Vec<Vec<char>>, nums: &Vec<Option<u64>>, i: usize) -> (r: Vec<Command>)
    requires
        i < toks@.len(),
    ensures
        cmd_views(r@) == leaf(toks@[i as int]@, number_at(nums@, i as int)),
{
    let t = &toks[i];
    let n = t.len();
    let mut out: Vec<Command> = Vec::new();
    if i < nums.len() && nums[i].is_some() {
        let v = nums[i].unwrap();
        out.push(Command::Pushn(v));
    } else if n > 0 && t[0] == '@' && (t[n - 1] == '!' || t[n - 1] == '$') {
        let mut name = t.clone();
        name.pop();
        assert(name@ =~= t@.drop_last());
        out.push(Command::NamedReference(string_of(&name), 0));
        if t[n - 1] == '!' {
            out.push(Command::Jmp);
        } else {
            out.push(Command::Get);
        }
    } else if n > 0 && t[0] == '@' {
        out.push(Command::NamedReference(string_of(t), 0));
    } else {
        out.push(Command::Pushs(string_of(t)));
    }
    assert(cmd_views(out@) =~= leaf(toks@[i as int]@, number_at(nums@, i as int)));
    out
}

fn parse_expression(toks: &Vec<Vec<char>>, nums: &Vec<Option<u64>>, i: usize) -> (r: Result<
    (Vec<Command>, usize),
    SyntaxError,
>)
    ensures
        parsed_as(r, expr(char_views(toks@), nums@, i as int)),
    decreases toks@.len() - i, 1int,
{
    let ghost tv = char_views(toks@);
    if i >= toks.len() {
        return Err(SyntaxError { at: i });
    }
    assert(tv[i as int] == toks@[i as int]@);
    if is_word(&toks[i], "(") {
        parse_binary_expression(toks, nums, i)
    } else {
        Ok((parse_value(toks, nums, i), i + 1))
    }
}

fn parse_binary_expression(toks: &Vec<Vec<char>>, nums: &Vec<Option<u64>>, i: usize) -> (r:
    Result<(Vec<Command>, usize), SyntaxError>)
    ensures
        parsed_as(r, binary(char_views(toks@), nums@, i as int)),
    decreases toks@.len() - i, 0int,
{
    let ghost tv = char_views(toks@);
    if i >= toks.len() {
        return Err(SyntaxError { at: i });
    }
    let (mut parsed, j) = parse_expression(toks, nums, i + 1)?;
    if !(i < j && j < toks.len()) {
        return Err(SyntaxError { at: j });
    }
    assert(tv[j as int] == toks@[j as int]@);
    let op = match binary_op_of(&toks[j]) {
        Some(op) => op,
        None => {
            return Err(SyntaxError { at: j });
        },
    };
    let (mut right, k) = parse_expression(toks, nums, j + 1)?;
    if !(j < k && k < toks.len()) {
        return Err(SyntaxError { at: k });
    }
    assert(tv[k as int] == toks@[k as int]@);
    let ghost c1 = cmd_views(parsed@);
    let ghost c2 = cmd_views(right@);
    parsed.append(&mut right);
    parsed.push(op);
    assert(cmd_views(parsed@) =~= c1 + c2 + seq![binary_op(tv[j as int])->0]);
    if is_word(&toks[k], ")") {
        Ok((parsed, k + 1))
    } else {
        let (mut rest, m) = parse_expression_continuation(toks, nums, k)?;
        if m >= toks.len() {
            return Err(SyntaxError { at: m });
        }
        let ghost c12 = cmd_views(parsed@);
        let ghost c3 = cmd_views(rest@);
        parsed.append(&mut rest);
        assert(cmd_views(parsed@) =~= c12 + c3);
        Ok((parsed, m + 1))
    }
}

fn parse_expression_continuation(toks: &Vec<Vec<char>>, nums: &Vec<Option<u64>>, k: usize) -> (r:
    Result<(Vec<Command>, usize), SyntaxError>)
    ensures
        parsed_as(r, continuation(char_views(toks@), nums@, k as int)),
        r matches Ok((_, m)) ==> m < toks@.len(),
    decreases toks@.len() - k, 0int,
{
    let ghost tv = char_views(toks@);
    if k >= toks.len() {
        return Err(SyntaxError { at: k });
    }
    assert(tv[k as int] == toks@[k as int]@);
    let op = match binary_op_of(&toks[k]) {
        Some(op) => op,
        None => {
            return Err(SyntaxError { at: k });
        },
    };
    let (mut parsed, m) = parse_expression(toks, nums, k + 1)?;
    if !(k < m && m < toks.len()) {
        return Err(SyntaxError { at: m });
    }
    assert(tv[m as int] == toks@[m as int]@);
    let ghost c = cmd_views(parsed@);
    parsed.push(op);
    assert(cmd_views(parsed@) =~= c + seq![binary_op(tv[k as int])->0]);
    if is_word(&toks[m], ")") {
        Ok((parsed, m))
    } else {
        let (mut rest, m2) = parse_expression_continuation(toks, nums, m)?;
        let ghost c1 = cmd_views(parsed@);
        let ghost c2 = cmd_views(rest@);
        parsed.append(&mut rest);
        assert(cmd_views(parsed@) =~= c1 + c2);
        Ok((parsed, m2))
    }
}

/// Parses one parenthesized expression starting at token `i` into postfix
/// instructions, and returns them with the position just after it.
pub fn parse(toks: &Vec<Vec<char>>, nums: &Vec<Option<u64>>, i: usize) -> (r: Result<
    (Vec<Command>, usize),
    SyntaxError,
>)
    ensures
        parsed_as(r, expr(char_views(toks@), nums@, i as int)),
{
    parse_expression(toks, nums, i)
}

} // verus!
