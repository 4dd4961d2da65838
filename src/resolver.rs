use vstd::prelude::*;
use crate::arithparser::cmd_views;
use crate::labels::Labels;
use crate::text::{chars_of, string_of, views};
use crate::value::{Command, Visibility};

verus! {

/// Whether an instruction opens a block.
pub open spec fn opens(c: Command<Seq<char>>) -> bool {
    c is Define || c is Lambda
}

/// The scope segment that the block opening at `i` adds: the label of a
/// public definition, `lambda` for a lambda, none for a private or
/// unlabelled definition.
pub open spec fn segment(prog: Seq<Command<Seq<char>>>, i: int) -> Option<Seq<char>> {
    match prog[i] {
        Command::Define(Visibility::Public, _) => if i > 0 && prog[i - 1] is Pushs {
            Some(prog[i - 1]->Pushs_0)
        } else {
            None
        },
        Command::Lambda(_) => Some("lambda"@),
        _ => None,
    }
}

/// The blocks open just before position `i`, innermost last: where each
/// opens and the segment it adds.
pub open spec fn scopes(prog: Seq<Command<Seq<char>>>, i: int) -> Seq<(int, Option<Seq<char>>)>
    decreases i,
{
    if i <= 0 || i > prog.len() {
        seq![]
    } else {
        let prev = scopes(prog, i - 1);
        let c = prog[i - 1];
        if opens(c) {
            prev.push((i - 1, segment(prog, i - 1)))
        } else if c is EndDefine && prev.len() > 0 {
            prev.drop_last()
        } else {
            prev
        }
    }
}

/// A public definition takes its label from the text pushed just before
/// it; only one at the very start of the program may stand without one.
pub open spec fn labelled_at(prog: Seq<Command<Seq<char>>>, i: int) -> bool {
    prog[i] is Define && prog[i]->Define_0 == Visibility::Public && i > 0 ==> prog[i - 1] is Pushs
}

/// Every public definition past the start has its label.
pub open spec fn labelled(prog: Seq<Command<Seq<char>>>) -> bool {
    forall|i: int| 0 <= i < prog.len() ==> #[trigger] labelled_at(prog, i)
}

/// Every block end closes an open block.
pub open spec fn well_nested(prog: Seq<Command<Seq<char>>>) -> bool {
    forall|j: int| 0 <= j < prog.len() && #[trigger] prog[j] is EndDefine ==> scopes(prog, j).len() > 0
}

/// The block end at `j` is the one that matches the opener at `s`.
pub open spec fn matching_end(prog: Seq<Command<Seq<char>>>, s: int, j: int) -> bool {
    0 <= j < prog.len() && prog[j] is EndDefine && scopes(prog, j).len() > 0 && scopes(
        prog,
        j,
    ).last().0 == s
}

/// The segments of the named scopes, outermost first.
pub open spec fn named(sc: Seq<(int, Option<Seq<char>>)>) -> Seq<Seq<char>>
    decreases sc.len(),
{
    if sc.len() == 0 {
        seq![]
    } else {
        let rest = named(sc.drop_last());
        match sc.last().1 {
            Some(s) => rest.push(s),
            None => rest,
        }
    }
}

/// Segments joined by the scope separator `::`.
pub open spec fn joined_name(segs: Seq<Seq<char>>) -> Seq<char>
    decreases segs.len(),
{
    if segs.len() == 0 {
        seq![]
    } else if segs.len() == 1 {
        segs[0]
    } else {
        joined_name(segs.drop_last()) + "::"@ + segs.last()
    }
}

/// The labels after the first pass has registered the public definitions
/// among the first `i` instructions, each under its fully qualified name.
pub open spec fn registered(
    prog: Seq<Command<Seq<char>>>,
    labels: Map<Seq<char>, usize>,
    i: int,
) -> Map<Seq<char>, usize>
    decreases i,
{
    if i <= 0 || i > prog.len() {
        labels
    } else {
        let prev = registered(prog, labels, i - 1);
        if prog[i - 1] is Define && prog[i - 1]->Define_0 == Visibility::Public && segment(
            prog,
            i - 1,
        ) is Some {
            prev.insert(joined_name(named(scopes(prog, i))), (i - 1) as usize)
        } else {
            prev
        }
    }
}

/// The skip length of a block opener.
pub open spec fn skip_of(c: Command<Seq<char>>) -> int {
    match c {
        Command::Define(_, k) => k as int,
        Command::Lambda(k) => k as int,
        _ => 0,
    }
}

/// A block opener with its skip length replaced.
pub open spec fn with_skip(c: Command<Seq<char>>, k: int) -> Command<Seq<char>> {
    match c {
        Command::Define(v, _) => Command::Define(v, k as usize),
        Command::Lambda(_) => Command::Lambda(k as usize),
        _ => c,
    }
}

/// The program after the first pass: each block opener that has a matching
/// end holds the distance to it.
pub open spec fn structured(prog: Seq<Command<Seq<char>>>) -> Seq<Command<Seq<char>>> {
    Seq::new(
        prog.len(),
        |s: int|
            if exists|j: int| matching_end(prog, s, j) {
                with_skip(prog[s], (choose|j: int| matching_end(prog, s, j)) - s)
            } else {
                prog[s]
            },
    )
}

proof fn lemma_scopes_facts(prog: Seq<Command<Seq<char>>>, i: int)
    requires
        0 <= i <= prog.len(),
    ensures
        forall|a: int|
            0 <= a < scopes(prog, i).len() ==> 0 <= #[trigger] scopes(prog, i)[a].0 < i && opens(
                prog[scopes(prog, i)[a].0],
            ) && scopes(prog, i)[a].1 == segment(prog, scopes(prog, i)[a].0),
        forall|a: int, b: int|
            0 <= a < b < scopes(prog, i).len() ==> #[trigger] scopes(prog, i)[a].0 < #[trigger] scopes(
                prog,
                i,
            )[b].0,
    decreases i,
{
    if i > 0 {
        lemma_scopes_facts(prog, i - 1);
    }
}

proof fn lemma_popped_gone(prog: Seq<Command<Seq<char>>>, s: int, j: int, k: int)
    requires
        matching_end(prog, s, j),
        j < k <= prog.len(),
    ensures
        forall|q: int| 0 <= q < scopes(prog, k).len() ==> #[trigger] scopes(prog, k)[q].0 != s,
    decreases k - j,
{
    lemma_scopes_facts(prog, j);
    let sj = scopes(prog, j);
    assert(sj.last().0 == s && s < j);
    if k == j + 1 {
        assert(scopes(prog, k) == sj.drop_last());
        assert forall|q: int| 0 <= q < scopes(prog, k).len() implies #[trigger] scopes(prog, k)[q].0
            != s by {
            assert(sj[q].0 < sj[sj.len() - 1].0);
        }
    } else {
        lemma_popped_gone(prog, s, j, k - 1);
        let prev = scopes(prog, k - 1);
        assert forall|q: int| 0 <= q < scopes(prog, k).len() implies #[trigger] scopes(prog, k)[q].0
            != s by {
            if q < prev.len() {
                assert(scopes(prog, k)[q] == prev[q]);
            }
        }
    }
}

/// A block opener has at most one matching end.
proof fn lemma_matching_unique(prog: Seq<Command<Seq<char>>>, s: int, j1: int, j2: int)
    requires
        matching_end(prog, s, j1),
        matching_end(prog, s, j2),
    ensures
        j1 == j2,
{
    if j1 < j2 {
        lemma_popped_gone(prog, s, j1, j2);
        assert(scopes(prog, j2)[scopes(prog, j2).len() - 1].0 == s);
    } else if j2 < j1 {
        lemma_popped_gone(prog, s, j2, j1);
        assert(scopes(prog, j1)[scopes(prog, j1).len() - 1].0 == s);
    }
}

/// The character view of an optional segment.
pub open spec fn opt_view(o: Option<String>) -> Option<Seq<char>> {
    match o {
        Some(s) => Some(s@),
        None => None,
    }
}

pub open spec fn scope_views(v: Seq<(usize, Option<String>)>) -> Seq<(int, Option<Seq<char>>)> {
    v.map_values(|e: (usize, Option<String>)| (e.0 as int, opt_view(e.1)))
}

fn segment_of(prog: &Vec<Command>, i: usize) -> (r: Option<String>)
    requires
        i < prog@.len(),
    ensures
        opt_view(r) == segment(cmd_views(prog@), i as int),
{
    let ghost pv = cmd_views(prog@);
    assert(pv[i as int] == prog@[i as int]@);
    match &prog[i] {
        Command::Define(Visibility::Public, _) => {
            if i > 0 {
                assert(pv[i - 1] == prog@[i - 1]@);
                match &prog[i - 1] {
                    Command::Pushs(s) => Some(s.clone()),
                    _ => None,
                }
            } else {
                None
            }
        },
        Command::Lambda(_) => {
            let seg = chars_of("lambda");
            Some(string_of(&seg))
        },
        _ => None,
    }
}

/// Tracks the open blocks across instruction `i`; false for a block end
/// with no open block.
fn track_scope(prog: &Vec<Command>, i: usize, stack: &mut Vec<(usize, Option<String>)>) -> (r:
    bool)
    requires
        i < prog@.len(),
        scope_views(old(stack)@) == scopes(cmd_views(prog@), i as int),
    ensures
        r == !(prog@[i as int]@ is EndDefine && scopes(cmd_views(prog@), i as int).len() == 0),
        r ==> scope_views(final(stack)@) == scopes(cmd_views(prog@), i + 1),
{
    let ghost pv = cmd_views(prog@);
    assert(pv[i as int] == prog@[i as int]@);
    let ghost before = scope_views(stack@);
    match &prog[i] {
        Command::Define(_, _) | Command::Lambda(_) => {
            let seg = segment_of(prog, i);
            stack.push((i, seg));
            assert(scope_views(stack@) =~= before.push((i as int, segment(pv, i as int))));
            true
        },
        Command::EndDefine => {
            if stack.len() == 0 {
                return false;
            }
            stack.pop();
            assert(scope_views(stack@) =~= before.drop_last());
            true
        },
        _ => true,
    }
}

/// The segments of the named scopes on the stack.
fn named_segments(stack: &Vec<(usize, Option<String>)>) -> (r: Vec<String>)
    ensures
        views(r@) == named(scope_views(stack@)),
{
    let mut out: Vec<String> = Vec::new();
    let mut q: usize = 0;
    while q < stack.len()
        invariant
            q <= stack@.len(),
            views(out@) == named(scope_views(stack@.take(q as int))),
        decreases stack@.len() - q,
    {
        assert(scope_views(stack@.take(q + 1)).drop_last() =~= scope_views(stack@.take(q as int)));
        let ghost prev = views(out@);
        match &stack[q].1 {
            Some(s) => {
                out.push(s.clone());
                assert(views(out@) =~= prev.push(s@));
            },
            None => {},
        }
        q += 1;
    }
    assert(stack@.take(q as int) =~= stack@);
    out
}

/// The first `count` segments joined by `::`.
fn join_segments(segs: &Vec<String>, count: usize) -> (r: Vec<char>)
    requires
        count <= segs@.len(),
    ensures
        r@ == joined_name(views(segs@).take(count as int)),
{
    let sep = chars_of("::");
    let mut out: Vec<char> = Vec::new();
    let mut q: usize = 0;
    assert(views(segs@).take(0) =~= Seq::<Seq<char>>::empty());
    while q < count
        invariant
            q <= count <= segs@.len(),
            sep@ == "::"@,
            out@ == joined_name(views(segs@).take(q as int)),
        decreases count - q,
    {
        let mut part = chars_of(segs[q].as_str());
        let ghost prev = out@;
        assert(views(segs@).take(q + 1).drop_last() =~= views(segs@).take(q as int));
        if q > 0 {
            let mut s = sep.clone();
            out.append(&mut s);
        } else {
            assert(views(segs@).take(1) =~= seq![segs@[0]@]);
        }
        out.append(&mut part);
        q += 1;
        assert(out@ =~= joined_name(views(segs@).take(q as int)));
    }
    out
}

/// The first pass: fills in skip lengths and registers the public
/// definitions under their qualified names. Fails on a block end that closes
/// no block.
pub fn structure_pass(prog: &Vec<Command>, labels: &Labels) -> (r: Result<
    (Vec<Command>, Labels),
    ResolveError,
>)
    ensures
        match r {
            Ok((p, l)) => {
                &&& well_nested(cmd_views(prog@))
                &&& labelled(cmd_views(prog@))
                &&& cmd_views(p@) == structured(cmd_views(prog@))
                &&& l@ == registered(cmd_views(prog@), labels@, prog@.len() as int)
            },
            Err(ResolveError::UnmatchedEnd(_)) => !well_nested(cmd_views(prog@)),
            Err(ResolveError::UnlabelledDefinition(_)) => !labelled(cmd_views(prog@)),
            Err(ResolveError::UnknownSymbol(_)) => false,
        },
{
    let ghost pv = cmd_views(prog@);
    let n = prog.len();
    let mut out: Vec<Command> = Vec::new();
    let mut q: usize = 0;
    while q < n
        invariant
            n == prog@.len(),
            q <= n,
            cmd_views(out@) == pv.take(q as int),
            pv == cmd_views(prog@),
        decreases n - q,
    {
        let ghost prev = cmd_views(out@);
        out.push(prog[q].duplicate());
        assert(cmd_views(out@) =~= prev.push(pv[q as int]));
        assert(pv.take(q + 1) =~= pv.take(q as int).push(pv[q as int]));
        q += 1;
    }
    assert(pv.take(n as int) =~= pv);
    let mut table = labels.duplicate();
    let mut stack: Vec<(usize, Option<String>)> = Vec::new();
    let mut i: usize = 0;
    assert(scope_views(stack@) =~= scopes(pv, 0));
    while i < n
        invariant
            n == prog@.len(),
            pv == cmd_views(prog@),
            i <= n,
            scope_views(stack@) == scopes(pv, i as int),
            table@ == registered(pv, labels@, i as int),
            cmd_views(out@).len() == n,
            forall|j: int| 0 <= j < i && #[trigger] pv[j] is EndDefine ==> scopes(pv, j).len() > 0,
            forall|j: int| 0 <= j < i ==> labelled_at(pv, j),
            forall|s: int, j: int|
                0 <= j < i && #[trigger] matching_end(pv, s, j) ==> cmd_views(out@)[s]
                    == with_skip(pv[s], j - s),
            forall|s: int|
                0 <= s < n && (forall|j: int| 0 <= j < i ==> !#[trigger] matching_end(pv, s, j))
                    ==> #[trigger] cmd_views(out@)[s] == pv[s],
        decreases n - i,
    {
        proof {
            lemma_scopes_facts(pv, i as int);
        }
        assert(pv[i as int] == prog@[i as int]@);
        let ghost sc = scopes(pv, i as int);
        let ghost before = cmd_views(out@);
        if let Command::Define(Visibility::Public, _) = &prog[i] {
            if i > 0 {
                assert(pv[i - 1] == prog@[i - 1]@);
                if let Command::Pushs(_) = &prog[i - 1] {
                } else {
                    assert(!labelled_at(pv, i as int));
                    return Err(ResolveError::UnlabelledDefinition(i));
                }
            }
        }
        assert(labelled_at(pv, i as int));
        if let Command::EndDefine = &prog[i] {
            if stack.len() == 0 {
                assert(pv[i as int] is EndDefine);
                return Err(ResolveError::UnmatchedEnd(i));
            }
            let s = stack[stack.len() - 1].0;
            assert(s as int == sc.last().0);
            assert(matching_end(pv, s as int, i as int));
            assert(pv[s as int] == prog@[s as int]@);
            let opener = match &prog[s] {
                Command::Define(v, _) => Command::Define(*v, i - s),
                Command::Lambda(_) => Command::Lambda(i - s),
                c => c.duplicate(),
            };
            out.set(s, opener);
            assert(cmd_views(out@) =~= before.update(s as int, with_skip(pv[s as int], i - s)));
            proof {
                assert forall|s2: int, j: int|
                    0 <= j < i + 1 && #[trigger] matching_end(pv, s2, j) implies cmd_views(out@)[s2]
                    == with_skip(pv[s2], j - s2) by {
                    lemma_scopes_facts(pv, j);
                    if j < i && s2 == s {
                        lemma_matching_unique(pv, s2, j, i as int);
                    }
                    if j == i {
                        assert(s2 == s);
                    }
                }
                assert forall|s2: int|
                    0 <= s2 < n && (forall|j: int| 0 <= j < i + 1 ==> !#[trigger] matching_end(pv, s2, j))
                        implies #[trigger] cmd_views(out@)[s2] == pv[s2] by {
                    assert(!matching_end(pv, s2, i as int));
                    assert(s2 != s);
                    assert forall|j: int| 0 <= j < i implies !#[trigger] matching_end(pv, s2, j) by {
                        assert(0 <= j < i + 1);
                    }
                }
            }
        } else {
            proof {
                assert forall|s2: int|
                    0 <= s2 < n && (forall|j: int| 0 <= j < i + 1 ==> !#[trigger] matching_end(pv, s2, j))
                        implies #[trigger] cmd_views(out@)[s2] == pv[s2] by {
                    assert forall|j: int| 0 <= j < i implies !#[trigger] matching_end(pv, s2, j) by {
                        assert(0 <= j < i + 1);
                    }
                }
            }
        }
        let ok = track_scope(prog, i, &mut stack);
        assert(ok);
        assert(opens(pv[i as int]) ==> scopes(pv, i + 1).len() > 0);
        if let Command::Define(Visibility::Public, _) = &prog[i] {
            if stack[stack.len() - 1].1.is_some() {
                let segs = named_segments(&stack);
                let name = join_segments(&segs, segs.len());
                assert(views(segs@).take(segs@.len() as int) =~= views(segs@));
                table.set(string_of(&name), i);
            }
        }
        i += 1;
    }
    proof {
        assert forall|s: int| 0 <= s < n implies #[trigger] cmd_views(out@)[s] == structured(pv)[s] by {
            if exists|j: int| matching_end(pv, s, j) {
                let j = choose|j: int| matching_end(pv, s, j);
                assert(0 <= j < n);
            } else {
                assert forall|j: int| 0 <= j < n implies !#[trigger] matching_end(pv, s, j) by {}
            }
        }
    }
    assert(cmd_views(out@) =~= structured(pv));
    Ok((out, table))
}


/// A reference written relative to the enclosing scopes: `@::name`.
pub open spec fn is_relative(name: Seq<char>) -> bool {
    name.len() >= 3 && name.take(3) == "@::"@
}

/// The first qualified name that is a label, trying the scope segments
/// `segs` without their last `t`, `t + 1`, ... segments (most specific
/// first, never the empty prefix), each followed by `rel`.
pub open spec fn relative_key(
    segs: Seq<Seq<char>>,
    rel: Seq<char>,
    labels: Map<Seq<char>, usize>,
    t: int,
) -> Option<Seq<char>>
    decreases segs.len() - t,
{
    if t < 0 || t >= segs.len() {
        None
    } else {
        let key = joined_name(segs.take(segs.len() - t)) + rel;
        if labels.contains_key(key) {
            Some(key)
        } else {
            relative_key(segs, rel, labels, t + 1)
        }
    }
}

/// Instruction `i` after the second pass: a relative reference becomes the
/// absolute name it resolves to; `None` when it resolves to nothing.
pub open spec fn expanded(
    prog: Seq<Command<Seq<char>>>,
    labels: Map<Seq<char>, usize>,
    i: int,
) -> Option<Command<Seq<char>>> {
    match prog[i] {
        Command::NamedReference(name, off) => if is_relative(name) {
            match relative_key(named(scopes(prog, i)), name.drop_first(), labels, 0) {
                Some(key) => Some(Command::NamedReference(seq!['@'] + key, off)),
                None => None,
            }
        } else {
            Some(prog[i])
        },
        _ => Some(prog[i]),
    }
}

/// Every relative reference of the program resolves.
pub open spec fn fully_expanded(prog: Seq<Command<Seq<char>>>, labels: Map<Seq<char>, usize>) -> bool {
    forall|i: int| 0 <= i < prog.len() ==> (#[trigger] expanded(prog, labels, i)) is Some
}

/// `name` is the first relative reference of the program that resolves to
/// nothing.
pub open spec fn first_unresolved(
    prog: Seq<Command<Seq<char>>>,
    labels: Map<Seq<char>, usize>,
    name: Seq<char>,
) -> bool {
    exists|i: int|
        0 <= i < prog.len() && (#[trigger] expanded(prog, labels, i)) is None && (forall|j: int|
            0 <= j < i ==> (#[trigger] expanded(prog, labels, j)) is Some) && prog[i] is NamedReference
            && prog[i]->NamedReference_0 == name
}

/// The program after the second pass.
pub open spec fn expansion(prog: Seq<Command<Seq<char>>>, labels: Map<Seq<char>, usize>) -> Seq<
    Command<Seq<char>>,
> {
    Seq::new(prog.len(), |i: int| expanded(prog, labels, i)->0)
}

fn is_relative_name(name: &String) -> (r: bool)
    ensures
        r == is_relative(name@),
{
    let c = chars_of(name.as_str());
    let r = c.len() >= 3 && c[0] == '@' && c[1] == ':' && c[2] == ':';
    proof {
        reveal_strlit("@::");
        assert("@::"@ =~= seq!['@', ':', ':']);
        if c@.len() >= 3 {
            assert(c@.take(3) =~= seq![c@[0], c@[1], c@[2]]);
        }
    }
    r
}

/// Searches the enclosing scopes for a relative name.
fn find_relative(segs: &Vec<String>, rel: &Vec<char>, labels: &Labels) -> (r: Option<Vec<char>>)
    ensures
        match r {
            Some(k) => relative_key(views(segs@), rel@, labels@, 0) == Some(k@),
            None => relative_key(views(segs@), rel@, labels@, 0) is None,
        },
{
    let n = segs.len();
    let mut t: usize = 0;
    while t < n
        invariant
            n == segs@.len(),
            t <= n,
            relative_key(views(segs@), rel@, labels@, 0) == relative_key(
                views(segs@),
                rel@,
                labels@,
                t as int,
            ),
        decreases n - t,
    {
        let mut key = join_segments(segs, n - t);
        let mut r = rel.clone();
        key.append(&mut r);
        let name = string_of(&key);
        if labels.get(&name).is_some() {
            return Some(key);
        }
        t += 1;
    }
    None
}

/// The second pass: rewrites each relative reference to the fully qualified
/// name it resolves to, searching the enclosing scopes from the innermost
/// out. Fails with the first reference that resolves to nothing.
pub fn expand_pass(prog: &Vec<Command>, labels: &Labels) -> (r: Result<Vec<Command>, String>)
    ensures
        match r {
            Ok(p) => fully_expanded(cmd_views(prog@), labels@) && cmd_views(p@) == expansion(
                cmd_views(prog@),
                labels@,
            ),
            Err(name) => !fully_expanded(cmd_views(prog@), labels@) && first_unresolved(
                cmd_views(prog@),
                labels@,
                name@,
            ),
        },
{
    let ghost pv = cmd_views(prog@);
    let n = prog.len();
    let mut out: Vec<Command> = Vec::new();
    let mut stack: Vec<(usize, Option<String>)> = Vec::new();
    let mut i: usize = 0;
    assert(scope_views(stack@) =~= scopes(pv, 0));
    while i < n
        invariant
            n == prog@.len(),
            pv == cmd_views(prog@),
            i <= n,
            scope_views(stack@) == scopes(pv, i as int),
            cmd_views(out@) == expansion(pv, labels@).take(i as int),
            forall|j: int| 0 <= j < i ==> (#[trigger] expanded(pv, labels@, j)) is Some,
        decreases n - i,
    {
        assert(pv[i as int] == prog@[i as int]@);
        let ghost before = cmd_views(out@);
        let next = match &prog[i] {
            Command::NamedReference(name, off) => {
                if is_relative_name(name) {
                    let segs = named_segments(&stack);
                    let full = chars_of(name.as_str());
                    let rel = crate::resolver::drop_first(&full);
                    match find_relative(&segs, &rel, labels) {
                        Some(key) => {
                            let mut absolute: Vec<char> = Vec::new();
                            absolute.push('@');
                            let mut k = key;
                            absolute.append(&mut k);
                            assert(absolute@ =~= seq!['@'] + key@);
                            Command::NamedReference(string_of(&absolute), *off)
                        },
                        None => {
                            assert(expanded(pv, labels@, i as int) is None);
                            let missing = name.clone();
                            assert(pv[i as int]->NamedReference_0 == missing@);
                            assert(first_unresolved(pv, labels@, missing@));
                            return Err(missing);
                        },
                    }
                } else {
                    prog[i].duplicate()
                }
            },
            c => c.duplicate(),
        };
        assert(next@ == expanded(pv, labels@, i as int)->0);
        out.push(next);
        assert(cmd_views(out@) =~= before.push(next@));
        assert(expansion(pv, labels@).take(i + 1) =~= expansion(pv, labels@).take(i as int).push(
            expanded(pv, labels@, i as int)->0,
        ));
        if !track_scope(prog, i, &mut stack) {
            let ghost sc = scopes(pv, i as int);
            stack = Vec::new();
            assert(scope_views(stack@) =~= scopes(pv, i + 1));
        }
        i += 1;
    }
    assert(expansion(pv, labels@).take(n as int) =~= expansion(pv, labels@));
    Ok(out)
}

fn drop_first(v: &Vec<char>) -> (r: Vec<char>)
    requires
        v@.len() > 0,
    ensures
        r@ == v@.drop_first(),
{
    let mut out: Vec<char> = Vec::new();
    let mut k: usize = 1;
    while k < v.len()
        invariant
            1 <= k <= v@.len(),
            out@ == v@.subrange(1, k as int),
        decreases v@.len() - k,
    {
        out.push(v[k]);
        k += 1;
        assert(out@ =~= v@.subrange(1, k as int));
    }
    assert(out@ =~= v@.drop_first());
    out
}

/// Why the resolver refused a program.
#[derive(Clone, Debug)]
pub enum ResolveError {
    /// A block end at this position closes no block.
    UnmatchedEnd(usize),
    /// The public definition at this position has no label text before it.
    UnlabelledDefinition(usize),
    /// The first relative reference that resolves to no label.
    UnknownSymbol(String),
}

/// Both passes over the whole program: skip lengths, label registration,
/// then relative-name expansion against the labels just registered.
pub fn resolve(prog: &Vec<Command>, labels: &Labels) -> (r: Result<(Vec<Command>, Labels), ResolveError>)
    ensures
        match r {
            Ok((p, l)) => {
                &&& well_nested(cmd_views(prog@))
                &&& labelled(cmd_views(prog@))
                &&& l@ == registered(cmd_views(prog@), labels@, prog@.len() as int)
                &&& fully_expanded(structured(cmd_views(prog@)), l@)
                &&& cmd_views(p@) == expansion(structured(cmd_views(prog@)), l@)
            },
            Err(ResolveError::UnmatchedEnd(_)) => !well_nested(cmd_views(prog@)),
            Err(ResolveError::UnlabelledDefinition(_)) => !labelled(cmd_views(prog@)),
            Err(ResolveError::UnknownSymbol(name)) => well_nested(cmd_views(prog@)) && labelled(
                cmd_views(prog@),
            ) && !fully_expanded(
                structured(cmd_views(prog@)),
                registered(cmd_views(prog@), labels@, prog@.len() as int),
            ) && first_unresolved(
                structured(cmd_views(prog@)),
                registered(cmd_views(prog@), labels@, prog@.len() as int),
                name@,
            ),
        },
{
    match structure_pass(prog, labels) {
        Err(e) => Err(e),
        Ok((shaped, labels)) => match expand_pass(&shaped, &labels) {
            Ok(program) => Ok((program, labels)),
            Err(name) => Err(ResolveError::UnknownSymbol(name)),
        },
    }
}

/// After resolution, every block opener that has a matching end holds the
/// exact distance to it as its skip length.
pub proof fn lemma_skip_reaches_matching_end(prog: Seq<Command<Seq<char>>>, s: int, j: int)
    requires
        matching_end(prog, s, j),
        prog.len() <= usize::MAX,
    ensures
        0 <= s < j,
        opens(structured(prog)[s]),
        skip_of(structured(prog)[s]) == j - s,
{
    lemma_scopes_facts(prog, j);
    let k = choose|k: int| matching_end(prog, s, k);
    lemma_matching_unique(prog, s, j, k);
}

} // verus!
