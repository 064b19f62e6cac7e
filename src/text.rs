use vstd::prelude::*;

verus! {

broadcast use vstd::string::group_string_axioms;

/// The characters of `s`, in order.
pub fn chars_of(s: &str) -> (r: Vec<char>)
    ensures
        r@ == s@,
{
    let mut r: Vec<char> = Vec::new();
    for c in it: s.chars()
        invariant
            it.seq() == s@,
            r@ == it.seq().subrange(0, it.index() as int),
    {
        r.push(c);
    }
    r
}

/// `l` without one trailing carriage return.
pub open spec fn strip_cr(l: Seq<char>) -> Seq<char> {
    if l.len() > 0 && l.last() == '\r' {
        l.drop_last()
    } else {
        l
    }
}

/// The list holding `cur` with a trailing carriage return removed, or the
/// empty list when nothing else is left of it.
pub open spec fn emit(cur: Seq<char>) -> Seq<Seq<char>> {
    if strip_cr(cur).len() > 0 {
        seq![strip_cr(cur)]
    } else {
        seq![]
    }
}

/// The non-blank lines of `s`, where `cur` is the part of the current line
/// that came before `s`.
pub open spec fn lines_after(s: Seq<char>, cur: Seq<char>) -> Seq<Seq<char>>
    decreases s.len(),
{
    if s.len() == 0 {
        emit(cur)
    } else if s[0] == '\n' {
        emit(cur) + lines_after(s.drop_first(), seq![])
    } else {
        lines_after(s.drop_first(), cur.push(s[0]))
    }
}

/// The non-blank lines of a text: split at each `'\n'`, a trailing `'\r'`
/// dropped from each line, empty lines left out.
pub open spec fn text_lines(s: Seq<char>) -> Seq<Seq<char>> {
    lines_after(s, seq![])
}

/// The views of a list of lines.
pub open spec fn views(v: Seq<Vec<char>>) -> Seq<Seq<char>> {
    v.map_values(|l: Vec<char>| l@)
}

/// Adds `cur` to `out` as `emit` says.
fn push_line(out: &mut Vec<Vec<char>>, cur: Vec<char>)
    ensures
        views(final(out)@) == views(old(out)@) + emit(cur@),
{
    let ghost whole = cur@;
    let mut line = cur;
    if line.len() > 0 && line[line.len() - 1] == '\r' {
        line.pop();
    }
    assert(line@ =~= strip_cr(whole));
    if line.len() > 0 {
        out.push(line);
    }
    assert(views(out@) =~= views(old(out)@) + emit(whole));
}

/// The non-blank lines of `text`.
pub fn split_lines(text: &Vec<char>) -> (r: Vec<Vec<char>>)
    ensures
        views(r@) == text_lines(text@),
{
    let n = text.len();
    let mut out: Vec<Vec<char>> = Vec::new();
    let mut cur: Vec<char> = Vec::new();
    let mut i: usize = 0;
    assert(views(out@) =~= seq![]);
    assert(text@.subrange(0, n as int) =~= text@);
    assert(views(out@) + lines_after(text@, cur@) =~= text_lines(text@));
    while i < n
        invariant
            i <= n,
            n == text@.len(),
            views(out@) + lines_after(text@.subrange(i as int, n as int), cur@) == text_lines(text@),
        decreases n - i,
    {
        let c = text[i];
        let ghost rest = text@.subrange(i as int, n as int);
        assert(rest.drop_first() =~= text@.subrange(i + 1, n as int));
        if c == '\n' {
            push_line(&mut out, cur);
            cur = Vec::new();
        } else {
            cur.push(c);
        }
        i = i + 1;
    }
    push_line(&mut out, cur);
    out
}

/// `w` is the first word of `s`: the part before its first space, or all of
/// `s` when it holds none.
pub open spec fn is_first_word(s: Seq<char>, w: Seq<char>) -> bool {
    &&& w.len() <= s.len()
    &&& w == s.subrange(0, w.len() as int)
    &&& forall|i: int| 0 <= i < w.len() ==> w[i] != ' '
    &&& (w.len() == s.len() || s[w.len() as int] == ' ')
}

/// The first word of `s`.
pub fn first_word(s: &str) -> (r: &str)
    ensures
        is_first_word(s@, r@),
{
    let cs = chars_of(s);
    let mut i: usize = 0;
    while i < cs.len() && cs[i] != ' '
        invariant
            i <= cs@.len(),
            cs@ == s@,
            forall|k: int| 0 <= k < i ==> cs@[k] != ' ',
        decreases cs@.len() - i,
    {
        i = i + 1;
    }
    s.substring_char(0, i)
}

} // verus!
