use vstd::prelude::*;

verus! {

/// The characters that `str::split_whitespace` separates on: those with the
/// Unicode `White_Space` property.
pub open spec fn is_space(c: char) -> bool {
    c == '\t' || c == '\n' || c == '\u{0B}' || c == '\u{0C}' || c == '\r' || c == ' '
        || c == '\u{85}' || c == '\u{A0}' || c == '\u{1680}' || ('\u{2000}' <= c
        && c <= '\u{200A}') || c == '\u{2028}' || c == '\u{2029}' || c == '\u{202F}'
        || c == '\u{205F}' || c == '\u{3000}'
}

pub fn char_is_space(c: char) -> (r: bool)
    ensures
        r == is_space(c),
{
    c == '\t' || c == '\n' || c == '\u{0B}' || c == '\u{0C}' || c == '\r' || c == ' '
        || c == '\u{85}' || c == '\u{A0}' || c == '\u{1680}' || ('\u{2000}' <= c
        && c <= '\u{200A}') || c == '\u{2028}' || c == '\u{2029}' || c == '\u{202F}'
        || c == '\u{205F}' || c == '\u{3000}'
}

/// Whether the text ends in a newline, a tab or a space.
pub fn ends_with_whitespace(string: &str) -> (r: bool)
    ensures
        r == (string@.len() > 0 && (string@.last() == '\n' || string@.last() == '\t'
            || string@.last() == ' ')),
{
    let n = string.unicode_len();
    if n == 0 {
        return false;
    }
    let last = string.get_char(n - 1);
    last == '\n' || last == '\t' || last == ' '
}

/// The characters of a text, in order.
pub fn chars_of(s: &str) -> (r: Vec<char>)
    ensures
        r@ == s@,
{
    let n = s.unicode_len();
    let mut out: Vec<char> = Vec::new();
    let mut i: usize = 0;
    while i < n
        invariant
            n == s@.len(),
            i <= n,
            out@ == s@.take(i as int),
        decreases n - i,
    {
        out.push(s.get_char(i));
        i += 1;
        assert(out@ =~= s@.take(i as int));
    }
    assert(out@ =~= s@);
    out
}

/// Relies on std's `impl FromIterator<char> for String`: the string made of
/// exactly these characters, in order.
#[verifier::external_body]
pub(crate) fn string_of(v: &Vec<char>) -> (r: String)
    ensures
        r@ == v@,
{
    v.iter().collect()
}

/// `s` with every non-overlapping occurrence of `pat`, scanned from the left,
/// replaced by `rep` (the behaviour of `str::replace`).
pub open spec fn replaced(s: Seq<char>, pat: Seq<char>, rep: Seq<char>) -> Seq<char>
    decreases s.len(),
{
    if pat.len() == 0 || s.len() < pat.len() {
        s
    } else if s.take(pat.len() as int) == pat {
        rep + replaced(s.skip(pat.len() as int), pat, rep)
    } else {
        seq![s[0]] + replaced(s.skip(1), pat, rep)
    }
}

fn matches_at(s: &Vec<char>, i: usize, pat: &Vec<char>) -> (r: bool)
    requires
        i + pat@.len() <= s@.len(),
    ensures
        r == (s@.subrange(i as int, i + pat@.len()) == pat@),
{
    let mut k: usize = 0;
    let sl = s.len();
    while k < pat.len()
        invariant
            sl == s@.len(),
            i + pat@.len() <= s@.len(),
            k <= pat@.len(),
            s@.subrange(i as int, i + k) == pat@.take(k as int),
        decreases pat@.len() - k,
    {
        assert(i + k < s@.len());
        if s[i + k] != pat[k] {
            assert(s@.subrange(i as int, i + pat@.len())[k as int] != pat@[k as int]);
            return false;
        }
        k += 1;
        assert(s@.subrange(i as int, i + k) =~= pat@.take(k as int));
    }
    assert(pat@.take(k as int) =~= pat@);
    true
}

/// Replaces every occurrence of `pat` in `s` by `rep`, left to right.
pub fn replace_all(s: &Vec<char>, pat: &Vec<char>, rep: &Vec<char>) -> (r: Vec<char>)
    requires
        pat@.len() > 0,
    ensures
        r@ == replaced(s@, pat@, rep@),
{
    let mut out: Vec<char> = Vec::new();
    let mut i: usize = 0;
    let n = s.len();
    let m = pat.len();
    assert(s@.skip(0) =~= s@);
    while i < n
        invariant
            n == s@.len(),
            m == pat@.len(),
            m > 0,
            i <= n,
            out@ + replaced(s@.skip(i as int), pat@, rep@) == replaced(s@, pat@, rep@),
        decreases n - i,
    {
        let rest = Ghost(s@.skip(i as int));
        if n - i < m {
            assert(replaced(rest@, pat@, rep@) == rest@);
            let mut k: usize = i;
            while k < n
                invariant
                    i <= k <= n,
                    n == s@.len(),
                    rest@ == s@.skip(i as int),
                    out@ + s@.subrange(k as int, n as int) == replaced(s@, pat@, rep@),
                decreases n - k,
            {
                assert(s@.subrange(k as int, n as int) =~= seq![s@[k as int]] + s@.subrange(
                    k + 1,
                    n as int,
                ));
                out.push(s[k]);
                k += 1;
            }
            assert(s@.subrange(k as int, n as int) =~= Seq::<char>::empty());
            assert(out@ =~= replaced(s@, pat@, rep@));
            return out;
        }
        assert(rest@.take(m as int) =~= s@.subrange(i as int, i + m));
        if matches_at(s, i, pat) {
            assert(rest@.skip(m as int) =~= s@.skip(i + m));
            let mut k: usize = 0;
            let ghost before = out@;
            while k < rep.len()
                invariant
                    k <= rep@.len(),
                    out@ == before + rep@.take(k as int),
                decreases rep@.len() - k,
            {
                out.push(rep[k]);
                k += 1;
                assert(out@ =~= before + rep@.take(k as int));
            }
            assert(rep@.take(k as int) =~= rep@);
            assert(out@ + replaced(s@.skip(i + m), pat@, rep@) =~= before + (rep@ + replaced(
                rest@.skip(m as int),
                pat@,
                rep@,
            )));
            i += m;
        } else {
            assert(rest@.skip(1) =~= s@.skip(i + 1));
            let ghost before = out@;
            out.push(s[i]);
            assert(out@ + replaced(s@.skip(i + 1), pat@, rep@) =~= before + (seq![rest@[0]]
                + replaced(rest@.skip(1), pat@, rep@)));
            i += 1;
        }
    }
    assert(s@.skip(i as int) =~= Seq::<char>::empty());
    assert(out@ =~= out@ + replaced(s@.skip(i as int), pat@, rep@));
    out
}


/// The character views of a sequence of strings.
pub open spec fn views(v: Seq<String>) -> Seq<Seq<char>> {
    v.map_values(|t: String| t@)
}

/// The current word `cur`, if it is not empty, as a one-element sequence.
pub open spec fn flushed(cur: Seq<char>) -> Seq<Seq<char>> {
    if cur.len() > 0 {
        seq![cur]
    } else {
        seq![]
    }
}

/// The words of `s` after the partial word `cur`: maximal runs of
/// non-space characters, in order.
pub open spec fn words_after(s: Seq<char>, cur: Seq<char>) -> Seq<Seq<char>>
    decreases s.len(),
{
    if s.len() == 0 {
        flushed(cur)
    } else if is_space(s[0]) {
        flushed(cur) + words_after(s.skip(1), seq![])
    } else {
        words_after(s.skip(1), cur.push(s[0]))
    }
}

/// The whitespace-separated words of `s` (the behaviour of
/// `str::split_whitespace`).
pub open spec fn words(s: Seq<char>) -> Seq<Seq<char>> {
    words_after(s, seq![])
}

/// Splits a text into its whitespace-separated words.
pub fn split_tokens(text: &str) -> (r: Vec<String>)
    ensures
        views(r@) == words(text@),
{
    let s = chars_of(text);
    let n = s.len();
    let mut out: Vec<String> = Vec::new();
    let mut cur: Vec<char> = Vec::new();
    let mut i: usize = 0;
    assert(s@.skip(0) =~= s@);
    while i < n
        invariant
            n == s@.len(),
            s@ == text@,
            i <= n,
            views(out@) + words_after(s@.skip(i as int), cur@) == words(text@),
        decreases n - i,
    {
        let c = s[i];
        let ghost rest = s@.skip(i as int);
        assert(rest.skip(1) =~= s@.skip(i + 1));
        if char_is_space(c) {
            if cur.len() > 0 {
                let ghost before = views(out@);
                let w = string_of(&cur);
                out.push(w);
                assert(views(out@) =~= before + seq![cur@]);
            }
            assert(cur@.len() > 0 ==> flushed(cur@) == seq![cur@]);
            cur = Vec::new();
            assert(cur@ =~= Seq::<char>::empty());
        } else {
            cur.push(c);
        }
        i += 1;
    }
    assert(s@.skip(i as int) =~= Seq::<char>::empty());
    if cur.len() > 0 {
        let ghost before = views(out@);
        let w = string_of(&cur);
        out.push(w);
        assert(views(out@) =~= before + seq![cur@]);
    }
    assert(views(out@) =~= views(out@) + Seq::<Seq<char>>::empty());
    out
}

/// What `regex::Regex::replace_all` with an empty replacement makes of
/// `text`, for a regular expression written `pattern`.
pub uninterp spec fn regex_erased(pattern: Seq<char>, text: Seq<char>) -> Seq<char>;

/// The text after `s` once a line comment is open (`in_comment`) or not:
/// a comment runs from `//` up to, not including, the next newline.
pub open spec fn without_comments(s: Seq<char>, in_comment: bool) -> Seq<char>
    decreases s.len(),
{
    if s.len() == 0 {
        s
    } else if in_comment {
        if s[0] == '\n' {
            seq![s[0]] + without_comments(s.drop_first(), false)
        } else {
            without_comments(s.drop_first(), true)
        }
    } else if s.len() >= 2 && s[0] == '/' && s[1] == '/' {
        without_comments(s.skip(2), true)
    } else {
        seq![s[0]] + without_comments(s.drop_first(), false)
    }
}

/// The text with every line comment removed: each line loses everything
/// from its first `//` to its end; the newline stays.
pub open spec fn comments_removed(s: Seq<char>) -> Seq<char> {
    without_comments(s, false)
}

/// Relies on `regex::Regex::new` and `regex::Regex::replace_all`: when the
/// pattern compiles, the text with every non-overlapping match removed.
/// `Regex::new` fails only on an invalid pattern or one over the size
/// limit, so the small, valid comment pattern always compiles. For that
/// pattern, `(?m)//.*$`, a match is the leftmost `//` with everything after
/// it up to the end of its line (`.` matches anything but a newline, and
/// `$` in multi-line mode matches just before a newline or at the end).
#[verifier::external_body]
fn erase_regex_matches(pattern: &str, text: &str) -> (r: Option<String>)
    ensures
        r matches Some(s) ==> s@ == regex_erased(pattern@, text@),
        pattern@ == comment_pattern() ==> r is Some,
        pattern@ == comment_pattern() ==> r is Some,
        r matches Some(s) ==> (pattern@ == comment_pattern() ==> s@ == comments_removed(text@)),
{
    match regex::Regex::new(pattern) {
        Ok(re) => Some(re.replace_all(text, "").into_owned()),
        Err(_) => None,
    }
}

/// The pattern of a line comment: `//` up to the end of its line.
pub open spec fn comment_pattern() -> Seq<char> {
    "(?m)//.*$"@
}

/// Removes line comments.
pub fn strip_comments(text: &str) -> (r: String)
    ensures
        r@ == regex_erased(comment_pattern(), text@),
        r@ == comments_removed(text@),
{
    let pattern = "(?m)//.*$";
    match erase_regex_matches(pattern, text) {
        Some(s) => s,
        None => text.to_string(),
    }
}

/// The value of a non-empty string of decimal digits.
pub open spec fn digits_value(s: Seq<char>) -> nat
    decreases s.len(),
{
    if s.len() == 0 {
        0
    } else {
        digits_value(s.drop_last()) * 10 + (s.last() as nat - '0' as nat) as nat
    }
}

pub open spec fn all_digits(s: Seq<char>) -> bool {
    forall|i: int| 0 <= i < s.len() ==> '0' <= #[trigger] s[i] <= '9'
}

/// The digits of a count, after its optional `+`.
pub open spec fn count_digits(s: Seq<char>) -> Seq<char> {
    if s.len() > 0 && s[0] == '+' {
        s.skip(1)
    } else {
        s
    }
}

/// What `str::parse::<usize>` accepts: an optional `+`, then one or more
/// decimal digits whose value fits in a `usize`.
pub open spec fn parsed_count(s: Seq<char>) -> Option<usize> {
    let d = count_digits(s);
    if d.len() > 0 && all_digits(d) && digits_value(d) <= usize::MAX {
        Some(digits_value(d) as usize)
    } else {
        None
    }
}

proof fn lemma_digits_value_grows(s: Seq<char>, k: int)
    requires
        0 <= k <= s.len(),
    ensures
        digits_value(s.take(k)) <= digits_value(s),
    decreases s.len(),
{
    if k < s.len() {
        assert(s.drop_last().take(k) =~= s.take(k));
        lemma_digits_value_grows(s.drop_last(), k);
    } else {
        assert(s.take(k) =~= s);
    }
}

/// Parses a count the way `str::parse::<usize>` does.
pub fn parse_count(s: &Vec<char>) -> (r: Option<usize>)
    ensures
        r == parsed_count(s@),
{
    let n = s.len();
    let start: usize = if n > 0 && s[0] == '+' {
        1
    } else {
        0
    };
    let ghost d = count_digits(s@);
    assert(d =~= s@.skip(start as int));
    if start >= n {
        return None;
    }
    let mut acc: usize = 0;
    let mut i: usize = start;
    while i < n
        invariant
            n == s@.len(),
            start <= i <= n,
            d == s@.skip(start as int),
            d == count_digits(s@),
            all_digits(d.take(i - start)),
            acc as nat == digits_value(d.take(i - start)),
        decreases n - i,
    {
        let c = s[i];
        assert(d.take(i + 1 - start).drop_last() =~= d.take(i - start));
        if c < '0' || c > '9' {
            assert(d[i - start] == c);
            assert(!all_digits(d));
            return None;
        }
        let digit = (c as u32 - '0' as u32) as usize;
        assert(digits_value(d.take(i + 1 - start)) == acc * 10 + digit);
        if acc > (usize::MAX - digit) / 10 {
            assert(acc * 10 + digit > usize::MAX) by (nonlinear_arith)
                requires
                    acc > (usize::MAX - digit) / 10,
                    digit <= 9,
            ;
            proof {
                lemma_digits_value_grows(d, i + 1 - start);
            }
            assert(digits_value(d) > usize::MAX);
            return None;
        }
        assert(acc * 10 + digit <= usize::MAX) by (nonlinear_arith)
            requires
                acc <= (usize::MAX - digit) / 10,
                digit <= 9,
        ;
        acc = acc * 10 + digit;
        i += 1;
        assert(all_digits(d.take(i - start))) by {
            assert forall|j: int| 0 <= j < d.take(i - start).len() implies '0' <= #[trigger] d.take(
                i - start,
            )[j] <= '9' by {
                if j < i - 1 - start {
                    assert(d.take(i - start)[j] == d.take(i - 1 - start)[j]);
                }
            }
        }
    }
    assert(d.take(n - start) =~= d);
    Some(acc)
}


/// A text as `print` writes it: each `\n` escape becomes a newline.
pub fn printable(s: &String) -> (r: String)
    ensures
        r@ == replaced(s@, "\\n"@, "\n"@),
{
    let c = chars_of(s.as_str());
    let pat = chars_of("\\n");
    let rep = chars_of("\n");
    proof {
        reveal_strlit("\\n");
    }
    string_of(&replace_all(&c, &pat, &rep))
}

} // verus!
