use horrible::{
    FaultKind,
    ends_with_whitespace, lex_tokens, parse, printable, tokens_of, Action, Command, Environment,
    Lexed, NumOp, NumReply, NumTask, ResolveError, StackSlot, SyntaxError, Visibility,
};

fn number_of(token: &str) -> Option<u64> {
    token.parse::<f64>().ok().map(|n| n.to_bits())
}

fn lex(text: &str) -> Result<Lexed, SyntaxError> {
    let tokens = tokens_of(text);
    let numbers: Vec<Option<u64>> = tokens.iter().map(|t| number_of(t)).collect();
    lex_tokens(&tokens, &numbers)
}

fn truth(b: bool) -> f64 {
    if b {
        1.0
    } else {
        0.0
    }
}

fn answer(task: &NumTask) -> NumReply {
    match task {
        NumTask::Arith(op, l, r) => {
            let (l, r) = (f64::from_bits(*l), f64::from_bits(*r));
            let v = match op {
                NumOp::Add => l + r,
                NumOp::Sub => l - r,
                NumOp::Mul => l * r,
                NumOp::Div => l / r,
                NumOp::Mod => l % r,
                NumOp::Lt => truth(l < r),
                NumOp::Le => truth(l <= r),
                NumOp::Gt => truth(l > r),
                NumOp::Ge => truth(l >= r),
                NumOp::Eq => truth(l == r),
                NumOp::Ne => truth(l != r),
            };
            NumReply::Number(v.to_bits())
        }
        NumTask::Prepend(n, _) | NumTask::Append(_, n) => {
            NumReply::Char(f64::from_bits(*n) as u8 as char)
        }
        NumTask::OffsetNamed(_, _, n) | NumTask::OffsetAbsolute(_, n) => {
            NumReply::Index(f64::from_bits(*n) as usize)
        }
        NumTask::Pull(n) => {
            let n = f64::from_bits(*n);
            if n.floor() == n {
                NumReply::Whole(Some((n.is_sign_negative(), n.abs() as u64)))
            } else {
                NumReply::Whole(None)
            }
        }
        NumTask::Distance(d) => NumReply::Number((*d as f64).to_bits()),
        NumTask::Bytes(s) => {
            NumReply::Numbers(s.as_bytes().iter().map(|b| (*b as f64).to_bits()).collect())
        }
    }
}

fn show(v: &StackSlot) -> String {
    match v {
        StackSlot::Number(n) => format!("{}", f64::from_bits(*n)),
        StackSlot::String(s) => printable(s),
        StackSlot::NamedReference(r, p) => format!("@{}+{}", r, p),
        StackSlot::AbsoluteReference(p) => format!("@{}", p),
    }
}

fn run_files(env: &mut Environment, text: &str, files: &[(&str, &str)]) -> Result<String, String> {
    let lexed = lex(text).map_err(|e| format!("syntax error at token {}", e.at))?;
    env.load(lexed).map_err(|e| format!("{:?}", e))?;
    let mut out = String::new();
    let result = loop {
        match env.step() {
            Err(e) => break Err(e.message()),
            Ok(Action::Done) => break Ok(()),
            Ok(Action::Continue) => {}
            Ok(Action::Print(Some(v))) => out.push_str(&show(&v)),
            Ok(Action::Print(None)) => out.push_str("Stack underflow!\n"),
            Ok(Action::PrintStack) => {}
            Ok(Action::Include(name)) => {
                let found = files.iter().find(|f| f.0 == name.as_str());
                let Some((_, content)) = found else {
                    break Err(format!("unable to read file {}", name));
                };
                let lexed = match lex(content) {
                    Ok(l) => l,
                    Err(e) => break Err(format!("syntax error at token {}", e.at)),
                };
                if let Err(e) = env.splice(lexed) {
                    break Err(format!("{:?}", e));
                }
            }
            Ok(Action::Compute(task)) => {
                let reply = answer(&task);
                if let Err(e) = env.resume(task, reply) {
                    break Err(e.message());
                }
            }
        }
    };
    env.finish();
    result.map(|_| out)
}

fn run(text: &str) -> Result<String, String> {
    let mut env = Environment::new(vec![], vec![]);
    run_files(&mut env, text, &[])
}

fn top(env: &Environment) -> StackSlot {
    env.stack.peek(env.stack.len() - 1)
}

#[test]
fn sum_is_printed() {
    assert_eq!(run("3 4 + print"), Ok("7".to_string()));
}

#[test]
fn square_through_a_definition() {
    assert_eq!(run("{ \"sq\" is dup * } 5 @sq! print"), Ok("25".to_string()));
}

#[test]
fn different_texts_compare_unequal() {
    assert_eq!(run("\"a\" \"b\" == print"), Ok("0".to_string()));
}

#[test]
fn empty_stack_underflow_is_reported() {
    let r = run("+");
    assert!(r.is_err());
    assert!(r.unwrap_err().contains("underflow"));
}

#[test]
fn add_numbers() {
    assert_eq!(run("2 3 + print"), Ok("5".to_string()));
}

#[test]
fn add_texts() {
    assert_eq!(run("\"ab\" \"cd\" + print"), Ok("abcd".to_string()));
}

#[test]
fn add_number_in_front_of_text() {
    assert_eq!(run("65 \"BC\" + print"), Ok("ABC".to_string()));
}

#[test]
fn add_text_and_number() {
    assert_eq!(run("\"AB\" 67 + print"), Ok("ABC".to_string()));
}

#[test]
fn add_moves_a_reference() {
    let mut env = Environment::new(vec![], vec![]);
    assert_eq!(run_files(&mut env, "\"x\" is 1 in @x 3 +", &[]), Ok(String::new()));
    match top(&env) {
        StackSlot::NamedReference(name, off) => {
            assert_eq!(name, "x");
            assert_eq!(off, 3);
        }
        other => panic!("unexpected {:?}", other),
    }
}

#[test]
fn add_rejects_reference_pairs() {
    assert!(run("\"x\" is 1 in @x @x +").is_err());
}

#[test]
fn later_definition_wins() {
    assert_eq!(run("\"f\" is 1 print in \"f\" is 2 print in @f!"), Ok("2".to_string()));
}

#[test]
fn redefinition_at_run_time_wins() {
    let mut env = Environment::new(vec![], vec![]);
    assert_eq!(run_files(&mut env, "\"g\" is 1 print in", &[]), Ok(String::new()));
    assert_eq!(run_files(&mut env, "\"g\" is 2 print in @g!", &[]), Ok("2".to_string()));
}

#[test]
fn reference_is_cached_as_absolute() {
    let mut env = Environment::new(vec![], vec![]);
    assert_eq!(run_files(&mut env, "\"x\" is 7 in @x drop", &[]), Ok(String::new()));
    assert!(matches!(env.program[4], Command::AbsoluteReference(1)));
}

#[test]
fn cached_reference_gives_the_same_target() {
    let mut env = Environment::new(vec![], vec![]);
    let out = run_files(&mut env, "\"x\" is 7 in \"r\" is @x in @r$ @r$ - print", &[]);
    assert_eq!(out, Ok("0".to_string()));
}

#[test]
fn put_then_get_number() {
    assert_eq!(run("\"c\" is 0 in 42 @c put @c get print"), Ok("42".to_string()));
}

#[test]
fn put_then_get_text() {
    assert_eq!(run("\"c\" is 0 in \"hi\" @c put @c get print"), Ok("hi".to_string()));
}

#[test]
fn put_then_get_reference() {
    let mut env = Environment::new(vec![], vec![]);
    assert_eq!(run_files(&mut env, "\"c\" is 0 in @c @c put @c get", &[]), Ok(String::new()));
    match top(&env) {
        StackSlot::NamedReference(name, off) => {
            assert_eq!(name, "c");
            assert_eq!(off, 0);
        }
        other => panic!("unexpected {:?}", other),
    }
}

#[test]
fn arrow_put_writes_the_named_cell() {
    assert_eq!(run("\"c\" is 0 in 9 -> @c @c$ print"), Ok("9".to_string()));
}

#[test]
fn skip_length_is_distance_to_end() {
    let mut env = Environment::new(vec![], vec![]);
    assert_eq!(run_files(&mut env, "\"f\" is 1 2 3 in lambda 4 in", &[]), Ok(String::new()));
    assert!(matches!(env.program[1], Command::Define(Visibility::Public, 4)));
    assert!(matches!(env.program[6], Command::Lambda(2)));
}

#[test]
fn block_body_is_not_run_in_passing() {
    assert_eq!(run("\"f\" is 99 print in 1 print"), Ok("1".to_string()));
}

#[test]
fn nested_blocks_get_their_own_lengths() {
    let mut env = Environment::new(vec![], vec![]);
    let out = run_files(&mut env, "\"a\" is \"b\" is 1 in 2 in", &[]);
    assert_eq!(out, Ok(String::new()));
    assert!(matches!(env.program[1], Command::Define(Visibility::Public, 6)));
    assert!(matches!(env.program[3], Command::Define(Visibility::Public, 2)));
}

#[test]
fn unmatched_end_is_refused() {
    let mut env = Environment::new(vec![], vec![]);
    let lexed = lex("1 in").unwrap();
    assert!(matches!(env.load(lexed), Err(ResolveError::UnmatchedEnd(1))));
    assert_eq!(env.program.len(), 2);
    assert_eq!(env.source.len(), 2);
}

#[test]
fn relative_reference_finds_enclosing_scope() {
    assert_eq!(
        run("\"outer\" is \"inner\" is 5 in @::inner$ print in @outer!"),
        Ok("5".to_string())
    );
}

#[test]
fn unknown_relative_reference_is_refused() {
    let mut env = Environment::new(vec![], vec![]);
    let lexed = lex("\"a\" is @::nothing in").unwrap();
    assert!(matches!(env.load(lexed), Err(ResolveError::UnknownSymbol(_))));
}

#[test]
fn lambda_is_called_through_its_position() {
    assert_eq!(run("lambda 8 print in jump"), Ok("8".to_string()));
}

#[test]
fn conditional_jump_pops_its_condition() {
    assert_eq!(run("\"f\" is 1 print in 0 @f jump? 5 print"), Ok("5".to_string()));
    assert_eq!(run("\"f\" is 1 print in 1 @f jump? 5 print"), Ok("15".to_string()));
}

#[test]
fn loop_repeats_while_nonzero() {
    let program = "\"c\" is 3 in \"l\" is @c$ print @c$ 1 - @c put @c$ loop? in @l!";
    assert_eq!(run(program), Ok("321".to_string()));
}

#[test]
fn loop_on_toplevel_is_an_error() {
    assert!(run("1 loop?").is_err());
}

#[test]
fn comparison_and_not() {
    assert_eq!(run("1 2 < print 2 1 < print 0 not print"), Ok("101".to_string()));
}

#[test]
fn mixed_equality_is_false() {
    assert_eq!(run("1 \"1\" == print 1 \"1\" != print"), Ok("01".to_string()));
}

#[test]
fn division_by_zero_is_infinite() {
    assert_eq!(run("1 0 / print"), Ok("inf".to_string()));
}

#[test]
fn reference_distance() {
    assert_eq!(run("\"a\" is 1 in \"b\" is 2 in @b @a - print"), Ok("4".to_string()));
}

#[test]
fn stack_operations() {
    assert_eq!(run("1 2 swap print print 3 dup + print 4 5 drop print"), Ok("1264".to_string()));
}

#[test]
fn pull_from_both_ends() {
    assert_eq!(run("7 8 9 0 pull print -2 pull print"), Ok("78".to_string()));
}

#[test]
fn pull_needs_a_whole_number() {
    assert!(run("7 0.5 pull").is_err());
}

#[test]
fn bytes_of_a_text() {
    assert_eq!(run("\"AB\" __bytes + print"), Ok("131".to_string()));
}

#[test]
fn address_of_a_label() {
    assert_eq!(run("\"v\" is 6 in \"v\" addr get print"), Ok("6".to_string()));
}

#[test]
fn address_of_unknown_label_fails() {
    assert!(run("\"nope\" addr").is_err());
}

#[test]
fn unknown_jump_target_fails() {
    assert!(run("@nowhere!").is_err());
}

#[test]
fn get_from_a_block_opener_fails() {
    assert!(run("\"a\" is in @a get").is_err());
}

#[test]
fn print_on_empty_stack_reports() {
    assert_eq!(run("print"), Ok("Stack underflow!\n".to_string()));
}

#[test]
fn private_definition_takes_popped_label() {
    assert_eq!(run("\"p\" priv 4 print in @p!"), Ok("4".to_string()));
}

#[test]
fn private_definition_needs_a_text() {
    assert!(run("1 priv 4 in").is_err());
}

#[test]
fn parenthesized_sum() {
    assert_eq!(run("( 1 + 2 ) print"), Ok("3".to_string()));
}

#[test]
fn nested_parentheses() {
    assert_eq!(run("(2 * (3 + 4)) print"), Ok("14".to_string()));
}

#[test]
fn unparenthesized_continuation() {
    assert_eq!(run("( 1 + 2 * 3 ) print"), Ok("9".to_string()));
}

#[test]
fn parenthesized_reference_call() {
    assert_eq!(run("\"two\" is 2 in ( @two$ + 1 ) print"), Ok("3".to_string()));
}

#[test]
fn malformed_expression_is_refused() {
    assert!(lex("( 1 + )").is_err());
    assert!(lex("( 1 ? 2 )").is_err());
}

#[test]
fn parse_gives_postfix_and_next_position() {
    let tokens: Vec<Vec<char>> = ["(", "1", "+", "x", ")", "tail"]
        .iter()
        .map(|t| t.chars().collect())
        .collect();
    let numbers = vec![None, number_of("1"), None, None, None, None];
    let (cmds, next) = parse(&tokens, &numbers, 0).unwrap();
    assert_eq!(next, 5);
    assert_eq!(cmds.len(), 3);
    assert!(matches!(cmds[0], Command::Pushn(_)));
    assert!(matches!(&cmds[1], Command::Pushs(s) if s == "x"));
    assert!(matches!(cmds[2], Command::Add));
}

#[test]
fn quoted_text_spans_tokens() {
    assert_eq!(run("\"hello   big world\" print"), Ok("hello big world".to_string()));
}

#[test]
fn quoted_text_escapes() {
    assert_eq!(run("\"say \\\"hi\\\"\" print"), Ok("say \"hi\"".to_string()));
}

#[test]
fn space_keyword_pushes_a_space() {
    assert_eq!(run("\"a\" \\space + \"b\" + print"), Ok("a b".to_string()));
}

#[test]
fn comments_are_removed() {
    assert_eq!(tokens_of("1 // two three\n4"), vec!["1".to_string(), "4".to_string()]);
    assert_eq!(run("5 print // 6 print"), Ok("5".to_string()));
}

#[test]
fn parentheses_become_tokens() {
    assert_eq!(
        tokens_of("(a)b"),
        vec!["(".to_string(), "a".to_string(), ")".to_string(), "b".to_string()]
    );
}

#[test]
fn modifiers_expand_in_order() {
    let lexed = lex("@x$?").unwrap();
    assert_eq!(lexed.program.len(), 3);
    assert!(matches!(&lexed.program[0], Command::NamedReference(s, 0) if s == "@x"));
    assert!(matches!(lexed.program[1], Command::Get));
    assert!(matches!(lexed.program[2], Command::JmpIf));
    assert_eq!(lexed.source.len(), 3);
}

#[test]
fn numbered_return_expands() {
    let lexed = lex("_3").unwrap();
    assert_eq!(lexed.program.len(), 3);
    assert!(lexed.program.iter().all(|c| matches!(c, Command::Return)));
}

#[test]
fn unknown_words_are_texts() {
    let lexed = lex("hello").unwrap();
    assert!(matches!(&lexed.program[0], Command::Pushs(s) if s == "hello"));
}

#[test]
fn print_text_resolves_newline_escape() {
    assert_eq!(printable(&"a\\nb".to_string()), "a\nb");
}

#[test]
fn trailing_whitespace() {
    assert!(ends_with_whitespace("abc "));
    assert!(ends_with_whitespace("abc\n"));
    assert!(ends_with_whitespace("abc\t"));
    assert!(!ends_with_whitespace("abc"));
    assert!(!ends_with_whitespace(""));
}

#[test]
fn splice_runs_file_next() {
    let mut env = Environment::new(vec![], vec![]);
    let files = [("lib.hr", "\"k\" is 11 in @k$ print")];
    let out = run_files(&mut env, "\"lib.hr\" include 2 print", &files);
    assert_eq!(out, Ok("112".to_string()));
}

#[test]
fn state_persists_between_runs() {
    let mut env = Environment::new(vec![], vec![]);
    assert_eq!(run_files(&mut env, "\"n\" is 10 in", &[]), Ok(String::new()));
    assert_eq!(run_files(&mut env, "@n$ 1 + print", &[]), Ok("11".to_string()));
}

#[test]
fn placeholder_text_is_pushed() {
    assert_eq!(run("word print"), Ok("word".to_string()));
}

#[test]
fn error_carries_the_source_around_it() {
    let mut env = Environment::new(vec![], vec![]);
    env.load(lex("\"f\" is \"t\" not in @f!").unwrap()).unwrap();
    let err = loop {
        match env.step() {
            Ok(Action::Compute(task)) => {
                let reply = answer(&task);
                env.resume(task, reply).unwrap();
            }
            Ok(Action::Done) => panic!("expected a failure"),
            Ok(_) => {}
            Err(e) => break e,
        }
    };
    assert!(err.message().contains("negation"));
    assert_eq!(err.call_stack.len(), 1);
    assert_eq!(err.call_stack[0], (6, 1));
    assert!(matches!(&err.callers[0], horrible::SourceReference::Visible(s) if s == "\"f\""));
    let shown: Vec<String> = err
        .around
        .iter()
        .map(|s| match s {
            horrible::SourceReference::Visible(t) => t.clone(),
            horrible::SourceReference::Invisible => String::new(),
        })
        .collect();
    assert_eq!(shown, vec!["\"f\"", "is", "\"t\"", "not", "in", "@f!", ""]);
}

#[test]
fn line_comment_is_stripped_to_end_of_line() {
    let lexed = lex("1 // 2\n3").unwrap();
    assert_eq!(lexed.program.len(), 2);
    assert!(matches!(lexed.program[0], Command::Pushn(n) if f64::from_bits(n) == 1.0));
    assert!(matches!(lexed.program[1], Command::Pushn(n) if f64::from_bits(n) == 3.0));
}

#[test]
fn unresolved_relative_name_is_named_in_the_error() {
    let program = vec![
        Command::Pushs("a".to_string()),
        Command::Define(Visibility::Public, 0),
        Command::NamedReference("@::zz".to_string(), 0),
        Command::EndDefine,
    ];
    let r = horrible::resolver::resolve(&program, &horrible::Labels::new());
    assert!(matches!(r, Err(ResolveError::UnknownSymbol(name)) if name == "@::zz"));
}

#[test]
fn inequality_across_kinds_is_true() {
    assert_eq!(run("\"x\" is 1 in @x @x != print @x \"a\" != print @x 1 == print"), Ok("110".to_string()));
}

#[test]
fn duplicate_on_empty_stack_fails_without_calls() {
    let mut env = Environment::new(vec![], vec![]);
    env.load(lex("dup").unwrap()).unwrap();
    let err = env.step().unwrap_err();
    assert!(err.call_stack.is_empty());
    assert_eq!(env.program.len(), 1);
}

#[test]
fn put_out_of_range_fails_and_keeps_program() {
    let mut env = Environment::new(vec![], vec![]);
    let r = run_files(&mut env, "\"c\" is in 1 @c 50 + put", &[]);
    assert!(r.unwrap_err().contains("out of range"));
    assert_eq!(env.program.len(), 8);
    assert!(matches!(env.program[7], Command::Put));
}

#[test]
fn spliced_file_brings_its_source() {
    let mut env = Environment::new(vec![], vec![]);
    let files = [("f.hr", "3 print")];
    assert_eq!(run_files(&mut env, "\"f.hr\" include", &files), Ok("3".to_string()));
    let shown: Vec<String> = env
        .source
        .iter()
        .map(|s| match s {
            horrible::SourceReference::Visible(t) => t.clone(),
            horrible::SourceReference::Invisible => String::new(),
        })
        .collect();
    assert_eq!(shown, vec!["\"f.hr\"", "include", "3", "print"]);
}

#[test]
fn unlabelled_public_definition_is_refused() {
    let program = vec![
        Command::Pushn(1.0f64.to_bits()),
        Command::Define(Visibility::Public, 0),
        Command::EndDefine,
    ];
    let r = horrible::resolver::resolve(&program, &horrible::Labels::new());
    assert!(matches!(r, Err(ResolveError::UnlabelledDefinition(1))));
}

#[test]
fn unlabelled_block_at_the_start_is_anonymous() {
    assert_eq!(run("{ 1 print } 2 print"), Ok("2".to_string()));
}

#[test]
fn failed_load_keeps_the_text() {
    let mut env = Environment::new(vec![], vec![]);
    let lexed = lex("@::zz").unwrap();
    assert!(matches!(env.load(lexed), Err(ResolveError::UnknownSymbol(name)) if name == "@::zz"));
    assert_eq!(env.program.len(), 1);
    assert!(matches!(&env.program[0], Command::NamedReference(s, 0) if s == "@::zz"));
    assert_eq!(env.source.len(), 1);
}

#[test]
fn empty_stack_add_is_an_underflow() {
    let mut env = Environment::new(vec![], vec![]);
    env.load(lex("+").unwrap()).unwrap();
    let err = env.step().unwrap_err();
    assert_eq!(err.kind, FaultKind::StackUnderflow);
}

#[test]
fn fault_kinds_name_the_problem() {
    let kind_of = |text: &str| {
        let mut env = Environment::new(vec![], vec![]);
        env.load(lex(text).unwrap()).unwrap();
        loop {
            match env.step() {
                Ok(Action::Compute(task)) => {
                    let reply = answer(&task);
                    if let Err(e) = env.resume(task, reply) {
                        return e.kind;
                    }
                }
                Ok(Action::Done) => panic!("no fault in {}", text),
                Ok(_) => {}
                Err(e) => return e.kind,
            }
        }
    };
    assert_eq!(kind_of("\"a\" not"), FaultKind::TypeMismatch);
    assert_eq!(kind_of("not"), FaultKind::StackUnderflow);
    assert_eq!(kind_of("@nowhere"), FaultKind::UnknownLabel);
    assert_eq!(kind_of("1 loop?"), FaultKind::NotInCall);
    assert_eq!(kind_of("\"c\" is in 1 @c 50 + put"), FaultKind::OutOfRange);
    assert_eq!(kind_of("7 0.5 pull"), FaultKind::TypeMismatch);
}

#[test]
fn comment_ends_at_its_line() {
    assert_eq!(run("1 print // 2 print\n3 print"), Ok("13".to_string()));
}
