use vstd::prelude::*;
use crate::arithparser::{
    char_views,
    cmd_views,
    expr,
    is_word,
    number_at,
    parse,
    SyntaxError,
};
use crate::text::{
    chars_of,
    comment_pattern,
    comments_removed,
    parse_count,
    parsed_count,
    regex_erased,
    replace_all,
    replaced,
    split_tokens,
    string_of,
    strip_comments,
    views,
    words,
};
use crate::value::{Command, SourceReference, Visibility};

verus! {

/// A lexed program: instructions and, position by position, the source
/// token each one came from.
pub struct Lexed {
    pub program: Vec<Command>,
    pub source: Vec<SourceReference>,
}

/// The views of a sequence of source references.
pub open spec fn src_views(v: Seq<SourceReference>) -> Seq<SourceReference<Seq<char>>> {
    v.map_values(|s: SourceReference| s@)
}

/// The instruction of a keyword token.
pub open spec fn keyword(t: Seq<char>) -> Option<Command<Seq<char>>> {
    if t == "include"@ {
        Some(Command::Include)
    } else if t == "STACK"@ {
        Some(Command::PrintStack)
    } else if t == "{"@ || t == "is"@ {
        Some(Command::Define(Visibility::Public, 0))
    } else if t == "}"@ || t == "in"@ {
        Some(Command::EndDefine)
    } else if t == "priv"@ {
        Some(Command::Define(Visibility::Private, 0))
    } else if t == "return"@ || t == "_"@ {
        Some(Command::Return)
    } else if t == "jump"@ {
        Some(Command::Jmp)
    } else if t == "jump?"@ {
        Some(Command::JmpIf)
    } else if t == "loop?"@ {
        Some(Command::LoopIf)
    } else if t == "not"@ {
        Some(Command::Not)
    } else if t == "dup"@ {
        Some(Command::Dup)
    } else if t == "swap"@ {
        Some(Command::Swap)
    } else if t == "drop"@ {
        Some(Command::Drop)
    } else if t == "put"@ {
        Some(Command::Put)
    } else if t == "get"@ {
        Some(Command::Get)
    } else if t == "pull"@ {
        Some(Command::Pull)
    } else if t == "->"@ {
        Some(Command::ArrowPut)
    } else if t == "lambda"@ {
        Some(Command::Lambda(0))
    } else if t == "__bytes"@ {
        Some(Command::Bytes)
    } else if t == "+"@ {
        Some(Command::Add)
    } else if t == "-"@ {
        Some(Command::Sub)
    } else if t == "*"@ {
        Some(Command::Mul)
    } else if t == "/"@ {
        Some(Command::Div)
    } else if t == "%"@ {
        Some(Command::Mod)
    } else if t == "<"@ {
        Some(Command::LT)
    } else if t == "<="@ {
        Some(Command::LE)
    } else if t == ">"@ {
        Some(Command::GT)
    } else if t == ">="@ {
        Some(Command::GE)
    } else if t == "=="@ {
        Some(Command::EQ)
    } else if t == "!="@ {
        Some(Command::NE)
    } else if t == "addr"@ {
        Some(Command::AddressOf)
    } else if t == "print"@ {
        Some(Command::Print)
    } else {
        None
    }
}

fn keyword_of(t: &Vec<char>) -> (r: Option<Command>)
    ensures
        match r {
            Some(c) => keyword(t@) == Some(c@),
            None => keyword(t@) is None,
        },
{
    if is_word(t, "include") {
        Some(Command::Include)
    } else if is_word(t, "STACK") {
        Some(Command::PrintStack)
    } else if is_word(t, "{") || is_word(t, "is") {
        Some(Command::Define(Visibility::Public, 0))
    } else if is_word(t, "}") || is_word(t, "in") {
        Some(Command::EndDefine)
    } else if is_word(t, "priv") {
        Some(Command::Define(Visibility::Private, 0))
    } else if is_word(t, "return") || is_word(t, "_") {
        Some(Command::Return)
    } else if is_word(t, "jump") {
        Some(Command::Jmp)
    } else if is_word(t, "jump?") {
        Some(Command::JmpIf)
    } else if is_word(t, "loop?") {
        Some(Command::LoopIf)
    } else if is_word(t, "not") {
        Some(Command::Not)
    } else if is_word(t, "dup") {
        Some(Command::Dup)
    } else if is_word(t, "swap") {
        Some(Command::Swap)
    } else if is_word(t, "drop") {
        Some(Command::Drop)
    } else if is_word(t, "put") {
        Some(Command::Put)
    } else if is_word(t, "get") {
        Some(Command::Get)
    } else if is_word(t, "pull") {
        Some(Command::Pull)
    } else if is_word(t, "->") {
        Some(Command::ArrowPut)
    } else if is_word(t, "lambda") {
        Some(Command::Lambda(0))
    } else if is_word(t, "__bytes") {
        Some(Command::Bytes)
    } else if is_word(t, "+") {
        Some(Command::Add)
    } else if is_word(t, "-") {
        Some(Command::Sub)
    } else if is_word(t, "*") {
        Some(Command::Mul)
    } else if is_word(t, "/") {
        Some(Command::Div)
    } else if is_word(t, "%") {
        Some(Command::Mod)
    } else if is_word(t, "<") {
        Some(Command::LT)
    } else if is_word(t, "<=") {
        Some(Command::LE)
    } else if is_word(t, ">") {
        Some(Command::GT)
    } else if is_word(t, ">=") {
        Some(Command::GE)
    } else if is_word(t, "==") {
        Some(Command::EQ)
    } else if is_word(t, "!=") {
        Some(Command::NE)
    } else if is_word(t, "addr") {
        Some(Command::AddressOf)
    } else if is_word(t, "print") {
        Some(Command::Print)
    } else {
        None
    }
}


/// Whether token `t` ends a quoted string; the opening token needs a quote
/// of its own after the opening one.
pub open spec fn closes(t: Seq<char>, first: bool) -> bool {
    t.len() > 0 && t.last() == '"' && !(t.len() >= 2 && t[t.len() - 2] == '\\') && !(first
        && t.len() < 2)
}

/// Where a string opened at token `i` ends, scanning from token `j`, and
/// whether a closing quote was found (else it runs to the last token).
pub open spec fn string_end(toks: Seq<Seq<char>>, i: int, j: int) -> (int, bool)
    decreases toks.len() - j,
{
    if j < i || j >= toks.len() {
        (toks.len() - 1, false)
    } else if closes(toks[j], j == i) {
        (j, true)
    } else {
        string_end(toks, i, j + 1)
    }
}

/// Tokens `i..=j` joined by single spaces.
pub open spec fn joined(toks: Seq<Seq<char>>, i: int, j: int) -> Seq<char>
    decreases j - i,
{
    if j <= i {
        toks[i]
    } else {
        joined(toks, i, j - 1) + seq![' '] + toks[j]
    }
}

/// The escapes `\"` and `\n` of a string literal, resolved.
pub open spec fn unescaped(s: Seq<char>) -> Seq<char> {
    replaced(replaced(s, "\\\""@, "\""@), "\\n"@, "\n"@)
}

/// The text of a string literal that opens at token `i`.
pub open spec fn string_literal(toks: Seq<Seq<char>>, i: int) -> Seq<char> {
    let (end, closed) = string_end(toks, i, i);
    let full = joined(toks, i, end);
    unescaped(
        if closed {
            full.subrange(1, full.len() - 1)
        } else {
            full.drop_first()
        },
    )
}

pub open spec fn is_modifier(c: char) -> bool {
    c == '$' || c == '!' || c == '?'
}

/// How many modifier characters end the token.
pub open spec fn modifier_count(t: Seq<char>) -> nat
    decreases t.len(),
{
    if t.len() == 0 || !is_modifier(t.last()) {
        0
    } else {
        1 + modifier_count(t.drop_last())
    }
}

/// The instruction of a modifier: `$` reads, `!` jumps, `?` jumps if.
pub open spec fn modifier_command(c: char) -> Command<Seq<char>> {
    if c == '$' {
        Command::Get
    } else if c == '!' {
        Command::Jmp
    } else {
        Command::JmpIf
    }
}

pub open spec fn invisibles(n: int) -> Seq<SourceReference<Seq<char>>> {
    Seq::new(n as nat, |k: int| SourceReference::Invisible)
}

/// How many returns a `_N` token stands for: `N`, or one when `N` is not a
/// positive count.
pub open spec fn return_count(t: Seq<char>) -> int {
    match parsed_count(t.drop_first()) {
        Some(n) => if n >= 1 {
            n as int
        } else {
            1
        },
        None => 1,
    }
}

/// The source references of a parenthesized expression: the last
/// instruction shows the last token, the others nothing.
pub open spec fn expression_sources(n: int, last: Seq<char>) -> Seq<SourceReference<Seq<char>>> {
    if n <= 0 {
        seq![]
    } else {
        invisibles(n - 1).push(SourceReference::Visible(last))
    }
}

/// The instructions and source references that token `i` produces, and the
/// next token to read; `None` for a malformed parenthesized expression.
pub open spec fn lex_token(toks: Seq<Seq<char>>, nums: Seq<Option<u64>>, i: int) -> Option<
    (Seq<Command<Seq<char>>>, Seq<SourceReference<Seq<char>>>, int),
> {
    let t = toks[i];
    if keyword(t) is Some {
        Some((seq![keyword(t)->0], seq![SourceReference::Visible(t)], i + 1))
    } else if t == "\\space"@ {
        Some((seq![Command::Pushs(" "@)], seq![SourceReference::Visible(t)], i + 1))
    } else if t.len() > 0 && t[0] == '"' {
        let end = string_end(toks, i, i).0;
        Some(
            (
                seq![Command::Pushs(string_literal(toks, i))],
                seq![SourceReference::Visible(toks[end])],
                end + 1,
            ),
        )
    } else if t.len() > 0 && t[0] == '@' {
        let k = modifier_count(t);
        let base = (t.len() - k) as int;
        Some(
            (
                seq![Command::NamedReference(t.take(base), 0)] + t.skip(base).map_values(
                    |c: char| modifier_command(c),
                ),
                seq![SourceReference::Visible(t)] + invisibles(k as int),
                i + 1,
            ),
        )
    } else if t.len() > 0 && t[0] == '_' {
        let n = return_count(t);
        Some(
            (
                Seq::new(n as nat, |k: int| Command::Return),
                invisibles(n - 1).push(SourceReference::Visible(t)),
                i + 1,
            ),
        )
    } else if number_at(nums, i) is Some {
        Some(
            (
                seq![Command::Pushn(number_at(nums, i)->0)],
                seq![SourceReference::Visible(t)],
                i + 1,
            ),
        )
    } else if t.len() > 0 && t[0] == '(' {
        match expr(toks, nums, i) {
            None => None,
            Some((c, j)) => Some((c, expression_sources(c.len() as int, toks[j - 1]), j)),
        }
    } else {
        Some((seq![Command::Pushs(t)], seq![SourceReference::Visible(t)], i + 1))
    }
}

/// The lexed form of tokens `i..`.
pub open spec fn lex_from(toks: Seq<Seq<char>>, nums: Seq<Option<u64>>, i: int) -> Option<
    (Seq<Command<Seq<char>>>, Seq<SourceReference<Seq<char>>>),
>
    decreases toks.len() - i,
{
    if i < 0 || i >= toks.len() {
        Some((seq![], seq![]))
    } else {
        match lex_token(toks, nums, i) {
            None => None,
            Some((c, s, j)) => if j <= i || j > toks.len() {
                None
            } else {
                match lex_from(toks, nums, j) {
                    None => None,
                    Some((c2, s2)) => Some((c + c2, s + s2)),
                }
            },
        }
    }
}

fn sub_chars(v: &Vec<char>, a: usize, b: usize) -> (r: Vec<char>)
    requires
        a <= b <= v@.len(),
    ensures
        r@ == v@.subrange(a as int, b as int),
{
    let mut out: Vec<char> = Vec::new();
    let mut k: usize = a;
    while k < b
        invariant
            a <= k <= b,
            b <= v@.len(),
            out@ == v@.subrange(a as int, k as int),
        decreases b - k,
    {
        out.push(v[k]);
        k += 1;
        assert(out@ =~= v@.subrange(a as int, k as int));
    }
    out
}

fn closes_exec(t: &Vec<char>, first: bool) -> (r: bool)
    ensures
        r == closes(t@, first),
{
    let n = t.len();
    n > 0 && t[n - 1] == '"' && !(n >= 2 && t[n - 2] == '\\') && !(first && n < 2)
}

fn unescape(s: &Vec<char>) -> (r: Vec<char>)
    ensures
        r@ == unescaped(s@),
{
    let quote_escape = chars_of("\\\"");
    let quote = chars_of("\"");
    let newline_escape = chars_of("\\n");
    let newline = chars_of("\n");
    proof {
        reveal_strlit("\\\"");
        reveal_strlit("\\n");
    }
    let a = replace_all(s, &quote_escape, &quote);
    replace_all(&a, &newline_escape, &newline)
}

proof fn lemma_string_end_bounds(toks: Seq<Seq<char>>, i: int, j: int)
    requires
        0 <= i < toks.len(),
        i <= j,
    ensures
        i <= string_end(toks, i, j).0 < toks.len(),
        j <= toks.len() ==> j - 1 <= string_end(toks, i, j).0,
        string_end(toks, i, j).1 ==> closes(
            toks[string_end(toks, i, j).0],
            string_end(toks, i, j).0 == i,
        ),
    decreases toks.len() - j,
{
    if j < toks.len() && !closes(toks[j], j == i) {
        lemma_string_end_bounds(toks, i, j + 1);
    }
}

/// Reads the quoted string that opens at token `i`.
fn lex_string(toks: &Vec<Vec<char>>, i: usize) -> (r: (String, usize))
    requires
        i < toks@.len(),
        toks@[i as int]@.len() > 0,
    ensures
        r.0@ == string_literal(char_views(toks@), i as int),
        r.1 as int == string_end(char_views(toks@), i as int, i as int).0,
{
    let ghost tv = char_views(toks@);
    let n = toks.len();
    let mut full: Vec<char> = toks[i].clone();
    let mut j: usize = i;
    assert(tv[i as int] == toks@[i as int]@);
    proof {
        lemma_string_end_bounds(tv, i as int, i as int);
    }
    while !closes_exec(&toks[j], j == i) && j + 1 < n
        invariant
            n == toks@.len(),
            tv == char_views(toks@),
            i <= j < n,
            full@ == joined(tv, i as int, j as int),
            string_end(tv, i as int, i as int) == string_end(tv, i as int, j as int),
        decreases n - j,
    {
        assert(tv[j as int] == toks@[j as int]@);
        let ghost before = full@;
        full.push(' ');
        let mut next = toks[j + 1].clone();
        full.append(&mut next);
        j += 1;
        assert(full@ =~= joined(tv, i as int, j as int));
    }
    assert(tv[j as int] == toks@[j as int]@);
    let closed = closes_exec(&toks[j], j == i);
    proof {
        lemma_string_end_bounds(tv, i as int, j as int);
        if !closed {
            lemma_string_end_bounds(tv, i as int, j + 1);
        }
    }
    assert(string_end(tv, i as int, i as int) == (j as int, closed));
    let inner = if closed {
        proof {
            lemma_joined_len(tv, i as int, j as int);
        }
        sub_chars(&full, 1, full.len() - 1)
    } else {
        proof {
            lemma_joined_len(tv, i as int, j as int);
        }
        let k = full.len();
        sub_chars(&full, 1, k)
    };
    assert(!closed ==> inner@ =~= full@.drop_first());
    let text = unescape(&inner);
    (string_of(&text), j)
}

proof fn lemma_joined_len(toks: Seq<Seq<char>>, i: int, j: int)
    requires
        0 <= i <= j < toks.len(),
        toks[i].len() > 0,
    ensures
        joined(toks, i, j).len() >= toks[i].len(),
        j > i ==> joined(toks, i, j).len() >= toks[i].len() + 1 + toks[j].len(),
    decreases j - i,
{
    if j > i {
        lemma_joined_len(toks, i, j - 1);
    }
}



fn push_invisibles(s: &mut Vec<SourceReference>, n: usize)
    ensures
        src_views(final(s)@) == src_views(old(s)@) + invisibles(n as int),
{
    let ghost start = src_views(s@);
    let mut k: usize = 0;
    while k < n
        invariant
            k <= n,
            src_views(s@) == start + invisibles(k as int),
        decreases n - k,
    {
        let ghost prev = src_views(s@);
        s.push(SourceReference::Invisible);
        assert(src_views(s@) =~= prev.push(SourceReference::Invisible));
        k += 1;
        assert(src_views(s@) =~= start + invisibles(k as int));
    }
}

/// Lexes token `i`: its instructions, their source references, and the next
/// token to read.
fn lex_token_exec(toks: &Vec<Vec<char>>, nums: &Vec<Option<u64>>, i: usize) -> (r: Result<
    (Vec<Command>, Vec<SourceReference>, usize),
    SyntaxError,
>)
    requires
        i < toks@.len(),
    ensures
        match r {
            Ok((c, s, j)) => lex_token(char_views(toks@), nums@, i as int) == Some(
                (cmd_views(c@), src_views(s@), j as int),
            ),
            Err(_) => lex_token(char_views(toks@), nums@, i as int) is None,
        },
{
    let ghost tv = char_views(toks@);
    let total = toks.len();
    let t = &toks[i];
    assert(tv[i as int] == t@);
    let n = t.len();
    let mut cmds: Vec<Command> = Vec::new();
    let mut srcs: Vec<SourceReference> = Vec::new();
    if let Some(c) = keyword_of(t) {
        cmds.push(c);
        srcs.push(SourceReference::Visible(string_of(t)));
        assert(cmd_views(cmds@) =~= seq![keyword(t@)->0]);
        assert(src_views(srcs@) =~= seq![SourceReference::Visible(t@)]);
        return Ok((cmds, srcs, i + 1));
    }
    if is_word(t, "\\space") {
        let space = String::from_str(" ");
        cmds.push(Command::Pushs(space));
        srcs.push(SourceReference::Visible(string_of(t)));
        assert(cmd_views(cmds@) =~= seq![Command::Pushs(" "@)]);
        assert(src_views(srcs@) =~= seq![SourceReference::Visible(t@)]);
        return Ok((cmds, srcs, i + 1));
    }
    if n > 0 && t[0] == '"' {
        let (text, end) = lex_string(toks, i);
        proof {
            lemma_string_end_bounds(tv, i as int, i as int);
        }
        assert(tv[end as int] == toks@[end as int]@);
        cmds.push(Command::Pushs(text));
        srcs.push(SourceReference::Visible(string_of(&toks[end])));
        assert(cmd_views(cmds@) =~= seq![Command::Pushs(string_literal(tv, i as int))]);
        assert(src_views(srcs@) =~= seq![SourceReference::Visible(tv[end as int])]);
        return Ok((cmds, srcs, end + 1));
    }
    if n > 0 && t[0] == '@' {
        let mut base: usize = n;
        assert(t@.take(n as int) =~= t@);
        while base > 0 && (t[base - 1] == '$' || t[base - 1] == '!' || t[base - 1] == '?')
            invariant
                base <= n,
                n == t@.len(),
                modifier_count(t@) == (n - base) + modifier_count(t@.take(base as int)),
            decreases base,
        {
            assert(t@.take(base as int).drop_last() =~= t@.take(base - 1));
            base -= 1;
        }
        assert(modifier_count(t@.take(base as int)) == 0);
        let name = sub_chars(t, 0, base);
        cmds.push(Command::NamedReference(string_of(&name), 0));
        srcs.push(SourceReference::Visible(string_of(t)));
        let ghost head = cmd_views(cmds@);
        let mut k: usize = base;
        while k < n
            invariant
                base <= k <= n,
                n == t@.len(),
                cmd_views(cmds@) == head + t@.subrange(base as int, k as int).map_values(
                    |c: char| modifier_command(c),
                ),
            decreases n - k,
        {
            let c = t[k];
            let ghost prev = cmd_views(cmds@);
            if c == '$' {
                cmds.push(Command::Get);
            } else if c == '!' {
                cmds.push(Command::Jmp);
            } else {
                cmds.push(Command::JmpIf);
            }
            assert(cmd_views(cmds@) =~= prev.push(modifier_command(c)));
            k += 1;
            assert(cmd_views(cmds@) =~= head + t@.subrange(base as int, k as int).map_values(
                |c: char| modifier_command(c),
            ));
        }
        push_invisibles(&mut srcs, n - base);
        assert(t@.subrange(base as int, n as int) =~= t@.skip(base as int));
        assert(name@ =~= t@.take(base as int));
        assert(cmd_views(cmds@) =~= seq![Command::NamedReference(t@.take(base as int), 0)]
            + t@.skip(base as int).map_values(|c: char| modifier_command(c)));
        return Ok((cmds, srcs, i + 1));
    }
    if n > 0 && t[0] == '_' {
        let digits = sub_chars(t, 1, n);
        assert(digits@ =~= t@.drop_first());
        let count: usize = match parse_count(&digits) {
            Some(v) => if v >= 1 {
                v
            } else {
                1
            },
            None => 1,
        };
        let mut k: usize = 0;
        while k < count
            invariant
                k <= count,
                cmd_views(cmds@) == Seq::new(k as nat, |q: int| Command::<Seq<char>>::Return),
            decreases count - k,
        {
            let ghost prev = cmd_views(cmds@);
            cmds.push(Command::Return);
            assert(cmd_views(cmds@) =~= prev.push(Command::Return));
            k += 1;
            assert(cmd_views(cmds@) =~= Seq::new(
                k as nat,
                |q: int| Command::<Seq<char>>::Return,
            ));
        }
        push_invisibles(&mut srcs, count - 1);
        let ghost before = src_views(srcs@);
        srcs.push(SourceReference::Visible(string_of(t)));
        assert(src_views(srcs@) =~= before.push(SourceReference::Visible(t@)));
        assert(src_views(srcs@) =~= invisibles(count - 1).push(SourceReference::Visible(t@)));
        return Ok((cmds, srcs, i + 1));
    }
    if i < nums.len() && nums[i].is_some() {
        let v = nums[i].unwrap();
        cmds.push(Command::Pushn(v));
        srcs.push(SourceReference::Visible(string_of(t)));
        assert(cmd_views(cmds@) =~= seq![Command::Pushn(v)]);
        assert(src_views(srcs@) =~= seq![SourceReference::Visible(t@)]);
        return Ok((cmds, srcs, i + 1));
    }
    if n > 0 && t[0] == '(' {
        let (c, j) = parse(toks, nums, i)?;
        let m = c.len();
        if m > 0 {
            proof {
                lemma_expr_advances(tv, nums@, i as int);
            }
            assert(i < j <= total);
            push_invisibles(&mut srcs, m - 1);
            assert(tv[j - 1] == toks@[j - 1]@);
            let ghost before = src_views(srcs@);
            srcs.push(SourceReference::Visible(string_of(&toks[j - 1])));
            assert(src_views(srcs@) =~= before.push(SourceReference::Visible(tv[j - 1])));
        } else {
            assert(src_views(srcs@) =~= Seq::<SourceReference<Seq<char>>>::empty());
        }
        return Ok((c, srcs, j));
    }
    cmds.push(Command::Pushs(string_of(t)));
    srcs.push(SourceReference::Visible(string_of(t)));
    assert(cmd_views(cmds@) =~= seq![Command::Pushs(t@)]);
    assert(src_views(srcs@) =~= seq![SourceReference::Visible(t@)]);
    Ok((cmds, srcs, i + 1))
}

/// A parsed expression ends after the token it starts at, and not past the
/// end of the tokens.
proof fn lemma_expr_advances(toks: Seq<Seq<char>>, nums: Seq<Option<u64>>, i: int)
    ensures
        expr(toks, nums, i) matches Some((c, j)) ==> i < j <= toks.len(),
    decreases toks.len() - i, 1int,
{
    if 0 <= i < toks.len() && toks[i] == "("@ {
        lemma_binary_advances(toks, nums, i);
    }
}

proof fn lemma_binary_advances(toks: Seq<Seq<char>>, nums: Seq<Option<u64>>, i: int)
    ensures
        crate::arithparser::binary(toks, nums, i) matches Some((c, j)) ==> i < j <= toks.len(),
    decreases toks.len() - i, 0int,
{
    if 0 <= i < toks.len() {
        lemma_expr_advances(toks, nums, i + 1);
        if let Some((c1, j)) = expr(toks, nums, i + 1) {
            if i < j < toks.len() {
                lemma_expr_advances(toks, nums, j + 1);
                if let Some((c2, k)) = expr(toks, nums, j + 1) {
                    if j < k < toks.len() {
                        lemma_continuation_bounds(toks, nums, k);
                    }
                }
            }
        }
    }
}

proof fn lemma_continuation_bounds(toks: Seq<Seq<char>>, nums: Seq<Option<u64>>, k: int)
    ensures
        crate::arithparser::continuation(toks, nums, k) matches Some((c, m)) ==> k < m
            < toks.len(),
    decreases toks.len() - k, 0int,
{
    if 0 <= k < toks.len() {
        lemma_expr_advances(toks, nums, k + 1);
        if let Some((c, m)) = expr(toks, nums, k + 1) {
            if k < m < toks.len() {
                lemma_continuation_bounds(toks, nums, m);
            }
        }
    }
}

/// Lexes a sequence of tokens; `numbers[i]` is the binary64 value of token
/// `i` when it reads as a number. Fails only on a malformed parenthesized
/// expression.
pub fn lex_tokens(tokens: &Vec<String>, numbers: &Vec<Option<u64>>) -> (r: Result<
    Lexed,
    SyntaxError,
>)
    ensures
        match r {
            Ok(l) => lex_from(views(tokens@), numbers@, 0) == Some(
                (cmd_views(l.program@), src_views(l.source@)),
            ),
            Err(_) => lex_from(views(tokens@), numbers@, 0) is None,
        },
{
    let mut toks: Vec<Vec<char>> = Vec::new();
    let mut q: usize = 0;
    while q < tokens.len()
        invariant
            q <= tokens@.len(),
            char_views(toks@) == views(tokens@).take(q as int),
        decreases tokens@.len() - q,
    {
        let ghost prev = char_views(toks@);
        let t = chars_of(tokens[q].as_str());
        toks.push(t);
        assert(char_views(toks@) =~= prev.push(tokens@[q as int]@));
        q += 1;
        assert(char_views(toks@) =~= views(tokens@).take(q as int));
    }
    let ghost tv = views(tokens@);
    assert(char_views(toks@) =~= tv);
    let n = toks.len();
    let mut program: Vec<Command> = Vec::new();
    let mut source: Vec<SourceReference> = Vec::new();
    let mut i: usize = 0;
    assert(cmd_views(program@) + Seq::<Command<Seq<char>>>::empty() =~= Seq::<Command<Seq<char>>>::empty());
    while i < n
        invariant
            n == toks@.len(),
            tv == char_views(toks@),
            tv == views(tokens@),
            i <= n,
            lex_from(tv, numbers@, 0) == match lex_from(tv, numbers@, i as int) {
                None => None,
                Some((c, s)) => Some((cmd_views(program@) + c, src_views(source@) + s)),
            },
        decreases n - i,
    {
        let (mut c, mut s, j) = lex_token_exec(&toks, numbers, i)?;
        if j <= i || j > n {
            return Err(SyntaxError { at: i });
        }
        let ghost (pc, ps) = (cmd_views(program@), src_views(source@));
        let ghost (cc, cs) = (cmd_views(c@), src_views(s@));
        program.append(&mut c);
        source.append(&mut s);
        assert(cmd_views(program@) =~= pc + cc);
        assert(src_views(source@) =~= ps + cs);
        proof {
            match lex_from(tv, numbers@, j as int) {
                None => {},
                Some((c2, s2)) => {
                    assert(pc + (cc + c2) =~= (pc + cc) + c2);
                    assert(ps + (cs + s2) =~= (ps + cs) + s2);
                },
            }
        }
        i = j;
    }
    assert(cmd_views(program@) + Seq::<Command<Seq<char>>>::empty() =~= cmd_views(program@));
    assert(src_views(source@) + Seq::<SourceReference<Seq<char>>>::empty() =~= src_views(source@));
    Ok(Lexed { program, source })
}

/// The text with a space on each side of every parenthesis.
pub open spec fn spaced(text: Seq<char>) -> Seq<char> {
    replaced(replaced(text, "("@, " ( "@), ")"@, " ) "@)
}

/// The words of a program text: parentheses are made words of their own and
/// line comments are removed before the text is split on whitespace.
pub fn tokens_of(text: &str) -> (r: Vec<String>)
    ensures
        views(r@) == words(regex_erased(comment_pattern(), spaced(text@))),
        views(r@) == words(comments_removed(spaced(text@))),
{
    let chars = chars_of(text);
    let open = chars_of("(");
    let open_spaced = chars_of(" ( ");
    let close = chars_of(")");
    let close_spaced = chars_of(" ) ");
    proof {
        reveal_strlit("(");
        reveal_strlit(")");
    }
    let a = replace_all(&chars, &open, &open_spaced);
    let b = replace_all(&a, &close, &close_spaced);
    let spaced_text = string_of(&b);
    let stripped = strip_comments(spaced_text.as_str());
    split_tokens(stripped.as_str())
}

} // verus!
