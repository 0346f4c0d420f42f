//! Line-oriented text model: splitting a character sequence into lines,
//! joining lines back, repeating glyphs, and the executable helpers that
//! the renderer builds its strings from.

use vstd::prelude::*;
use vstd::string::StrSliceExecFns;

verus! {

/// The character that separates lines.
pub open spec fn nl() -> char {
    '\n'
}

/// Splitting `rest` into lines while a partial line `cur` is already open.
/// A line ends at each `'\n'`; a final fragment opens a last line only if
/// it is nonempty, so a trailing `'\n'` does not add an empty line.
pub open spec fn split_lines_from(cur: Seq<char>, rest: Seq<char>) -> Seq<Seq<char>>
    decreases rest.len(),
{
    if rest.len() == 0 {
        if cur.len() == 0 {
            Seq::empty()
        } else {
            seq![cur]
        }
    } else if rest[0] == nl() {
        seq![cur] + split_lines_from(Seq::empty(), rest.skip(1))
    } else {
        split_lines_from(cur.push(rest[0]), rest.skip(1))
    }
}

/// The lines of a text: split on `'\n'`. Empty text has no lines, and a
/// trailing `'\n'` does not open a new line.
pub open spec fn split_lines(s: Seq<char>) -> Seq<Seq<char>> {
    split_lines_from(Seq::empty(), s)
}

/// Lines joined with a `'\n'` between each pair, none at the end.
pub open spec fn join_lines(ls: Seq<Seq<char>>) -> Seq<char>
    decreases ls.len(),
{
    if ls.len() == 0 {
        Seq::empty()
    } else if ls.len() == 1 {
        ls[0]
    } else {
        ls[0] + seq![nl()] + join_lines(ls.skip(1))
    }
}

/// `n` copies of one character.
pub open spec fn repeat_char(c: char, n: nat) -> Seq<char> {
    Seq::new(n, |i: int| c)
}

/// `n` copies of a glyph, laid end to end.
pub open spec fn repeat_seq(s: Seq<char>, n: nat) -> Seq<char>
    decreases n,
{
    if n == 0 {
        Seq::empty()
    } else {
        repeat_seq(s, (n - 1) as nat) + s
    }
}

/// Width of the widest line.
pub open spec fn max_width(ls: Seq<Seq<char>>) -> nat
    decreases ls.len(),
{
    if ls.len() == 0 {
        0
    } else {
        let rest = max_width(ls.drop_last());
        if ls.last().len() > rest {
            ls.last().len()
        } else {
            rest
        }
    }
}

/// A line that holds no line break of its own.
pub open spec fn nl_free(l: Seq<char>) -> bool {
    forall|k: int| 0 <= k < l.len() ==> l[k] != nl()
}

/// Every line of the block is free of line breaks.
pub open spec fn nl_free_all(ls: Seq<Seq<char>>) -> bool {
    forall|k: int| 0 <= k < ls.len() ==> nl_free(#[trigger] ls[k])
}

/// The views of a vector of lines.
pub open spec fn lines_model(ls: Seq<Vec<char>>) -> Seq<Seq<char>> {
    Seq::new(ls.len(), |k: int| ls[k]@)
}

/// Collects the characters of a string slice.
pub fn chars_of(s: &str) -> (r: Vec<char>)
    ensures
        r@ == s@,
{
    let n: usize = s.unicode_len();
    let mut r: Vec<char> = Vec::new();
    let mut i: usize = 0;
    while i < n
        invariant
            i <= n,
            n == s@.len(),
            r@ == s@.subrange(0, i as int),
        decreases n - i,
    {
        let c = s.get_char(i);
        r.push(c);
        proof {
            assert(r@ =~= s@.subrange(0, i + 1));
        }
        i += 1;
    }
    proof {
        assert(s@.subrange(0, n as int) =~= s@);
    }
    r
}

/// Relies on `String::push`: appends one character at the end of the string.
#[verifier::external_body]
pub(crate) fn push_char(s: &mut String, c: char)
    ensures
        final(s)@ == old(s)@.push(c),
{
    s.push(c);
}

/// Builds the string whose characters are exactly `v`.
pub fn string_of(v: &Vec<char>) -> (r: String)
    ensures
        r@ == v@,
{
    let mut r = String::new();
    let mut i: usize = 0;
    while i < v.len()
        invariant
            i <= v.len(),
            r@ == v@.subrange(0, i as int),
        decreases v.len() - i,
    {
        push_char(&mut r, v[i]);
        proof {
            assert(r@ =~= v@.subrange(0, i + 1));
        }
        i += 1;
    }
    proof {
        assert(v@.subrange(0, v.len() as int) =~= v@);
    }
    r
}

/// Appends every character of `w` to `v`.
pub fn push_all(v: &mut Vec<char>, w: &Vec<char>)
    ensures
        final(v)@ == old(v)@ + w@,
{
    let mut i: usize = 0;
    while i < w.len()
        invariant
            i <= w.len(),
            v@ == old(v)@ + w@.subrange(0, i as int),
        decreases w.len() - i,
    {
        v.push(w[i]);
        proof {
            assert(old(v)@ + w@.subrange(0, i as int) + seq![w@[i as int]] =~= old(v)@ + w@.subrange(
                0,
                i + 1,
            ));
        }
        i += 1;
    }
    proof {
        assert(old(v)@ + w@.subrange(0, w.len() as int) =~= old(v)@ + w@);
    }
}

/// A fresh copy of a character vector.
pub fn copy_chars(v: &Vec<char>) -> (r: Vec<char>)
    ensures
        r@ == v@,
{
    let mut r: Vec<char> = Vec::new();
    push_all(&mut r, v);
    proof {
        assert(Seq::<char>::empty() + v@ =~= v@);
    }
    r
}

/// Appends `n` copies of one character to `v`.
pub fn push_repeat_char(v: &mut Vec<char>, c: char, n: usize)
    ensures
        final(v)@ == old(v)@ + repeat_char(c, n as nat),
{
    let mut k: usize = 0;
    while k < n
        invariant
            k <= n,
            v@ == old(v)@ + repeat_char(c, k as nat),
        decreases n - k,
    {
        v.push(c);
        proof {
            assert(old(v)@ + repeat_char(c, k as nat) + seq![c] =~= old(v)@ + repeat_char(
                c,
                (k + 1) as nat,
            ));
        }
        k += 1;
    }
}

/// Appends `n` copies of the glyph `s` to `v`.
pub fn push_repeat_seq(v: &mut Vec<char>, s: &Vec<char>, n: usize)
    ensures
        final(v)@ == old(v)@ + repeat_seq(s@, n as nat),
{
    let mut k: usize = 0;
    while k < n
        invariant
            k <= n,
            v@ == old(v)@ + repeat_seq(s@, k as nat),
        decreases n - k,
    {
        push_all(v, s);
        proof {
            assert(old(v)@ + repeat_seq(s@, k as nat) + s@ =~= old(v)@ + repeat_seq(
                s@,
                (k + 1) as nat,
            ));
        }
        k += 1;
    }
}

/// Splits a character vector into its lines.
pub fn split_lines_exec(s: &Vec<char>) -> (r: Vec<Vec<char>>)
    ensures
        lines_model(r@) == split_lines(s@),
{
    let mut r: Vec<Vec<char>> = Vec::new();
    let mut cur: Vec<char> = Vec::new();
    let mut i: usize = 0;
    proof {
        assert(s@.skip(0) =~= s@);
        assert(lines_model(r@) + split_lines_from(cur@, s@.skip(0)) =~= split_lines(s@));
    }
    while i < s.len()
        invariant
            i <= s.len(),
            split_lines(s@) == lines_model(r@) + split_lines_from(cur@, s@.skip(i as int)),
        decreases s.len() - i,
    {
        let ghost done = lines_model(r@);
        let ghost open_line = cur@;
        proof {
            assert(s@.skip(i as int)[0] == s@[i as int]);
            assert(s@.skip(i as int).skip(1) =~= s@.skip(i + 1));
        }
        let c = s[i];
        if c == '\n' {
            r.push(cur);
            cur = Vec::new();
            proof {
                assert(lines_model(r@) =~= done.push(open_line));
                assert(done + (seq![open_line] + split_lines_from(Seq::empty(), s@.skip(i + 1)))
                    =~= done.push(open_line) + split_lines_from(Seq::empty(), s@.skip(i + 1)));
            }
        } else {
            cur.push(c);
        }
        i += 1;
    }
    proof {
        assert(s@.skip(s.len() as int) =~= Seq::<char>::empty());
    }
    if cur.len() > 0 {
        let ghost done = lines_model(r@);
        let ghost open_line = cur@;
        r.push(cur);
        proof {
            assert(lines_model(r@) =~= done.push(open_line));
            assert(done + seq![open_line] =~= done.push(open_line));
        }
    } else {
        proof {
            assert(lines_model(r@) + Seq::<Seq<char>>::empty() =~= lines_model(r@));
        }
    }
    r
}

/// `k` empty lines.
pub open spec fn empty_lines(k: nat) -> Seq<Seq<char>> {
    Seq::new(k, |i: int| Seq::<char>::empty())
}

/// Splitting a text free of line breaks gives that text as its one line, or
/// no line at all when it is empty.
pub proof fn lemma_split_from_nl_free(cur: Seq<char>, s: Seq<char>)
    requires
        nl_free(s),
    ensures
        split_lines_from(cur, s) == if cur.len() + s.len() == 0 {
            Seq::<Seq<char>>::empty()
        } else {
            seq![cur + s]
        },
    decreases s.len(),
{
    if s.len() == 0 {
        assert(cur + s =~= cur);
        if cur.len() > 0 {
            assert(seq![cur + s] =~= seq![cur]);
        }
    } else {
        assert(s[0] != nl());
        assert(nl_free(s.skip(1)));
        lemma_split_from_nl_free(cur.push(s[0]), s.skip(1));
        assert(cur.push(s[0]) + s.skip(1) =~= cur + s);
    }
}

/// Every line split out of a text is free of line breaks.
pub proof fn lemma_split_from_lines_nl_free(cur: Seq<char>, rest: Seq<char>)
    requires
        nl_free(cur),
    ensures
        nl_free_all(split_lines_from(cur, rest)),
    decreases rest.len(),
{
    if rest.len() == 0 {
    } else if rest[0] == nl() {
        lemma_split_from_lines_nl_free(Seq::empty(), rest.skip(1));
        let whole = split_lines_from(cur, rest);
        assert forall|k: int| 0 <= k < whole.len() implies nl_free(#[trigger] whole[k]) by {
            if k == 0 {
                assert(whole[k] == cur);
            } else {
                assert(whole[k] == split_lines_from(Seq::empty(), rest.skip(1))[k - 1]);
            }
        }
    } else {
        assert(nl_free(cur.push(rest[0]))) by {
            assert(forall|k: int|
                0 <= k < cur.len() ==> cur.push(rest[0])[k] == #[trigger] cur[k]);
            assert(cur.push(rest[0])[cur.len() as int] == rest[0]);
        }
        lemma_split_from_lines_nl_free(cur.push(rest[0]), rest.skip(1));
    }
}

/// Every line of a text is free of line breaks.
pub proof fn lemma_split_lines_nl_free(s: Seq<char>)
    ensures
        nl_free_all(split_lines(s)),
{
    lemma_split_from_lines_nl_free(Seq::empty(), s);
}

/// Splitting distributes over concatenation after a text that ends in a
/// line break.
pub proof fn lemma_split_from_append(cur: Seq<char>, u: Seq<char>, t: Seq<char>)
    requires
        u.len() >= 1,
        u.last() == nl(),
    ensures
        split_lines_from(cur, u + t) == split_lines_from(cur, u) + split_lines(t),
    decreases u.len(),
{
    assert((u + t).len() == u.len() + t.len());
    assert((u + t)[0] == u[0]);
    if u.len() == 1 {
        assert(u[0] == nl());
        assert((u + t).skip(1) =~= t);
        assert(u.skip(1) =~= Seq::<char>::empty());
        assert(split_lines_from(cur, u) == seq![cur] + split_lines_from(
            Seq::empty(),
            Seq::empty(),
        ));
        assert(split_lines_from(cur, u) =~= seq![cur]);
        assert(split_lines_from(cur, u + t) == seq![cur] + split_lines(t));
        assert(seq![cur] + split_lines(t) =~= split_lines_from(cur, u) + split_lines(t));
    } else {
        assert(u.skip(1).len() >= 1);
        assert(u.skip(1).last() == u.last());
        assert((u + t).skip(1) =~= u.skip(1) + t);
        if u[0] == nl() {
            lemma_split_from_append(Seq::empty(), u.skip(1), t);
            assert(seq![cur] + (split_lines_from(Seq::empty(), u.skip(1)) + split_lines(t))
                =~= (seq![cur] + split_lines_from(Seq::empty(), u.skip(1))) + split_lines(t));
        } else {
            lemma_split_from_append(cur.push(u[0]), u.skip(1), t);
        }
    }
}

/// A text free of line breaks, closed by one line break, splits as exactly
/// that one line.
pub proof fn lemma_split_from_terminated(cur: Seq<char>, x: Seq<char>)
    requires
        nl_free(x),
    ensures
        split_lines_from(cur, x + seq![nl()]) == seq![cur + x],
    decreases x.len(),
{
    let whole = x + seq![nl()];
    if x.len() == 0 {
        assert(whole[0] == nl());
        assert(whole.skip(1) =~= Seq::<char>::empty());
        assert(split_lines_from(Seq::empty(), Seq::<char>::empty())
            =~= Seq::<Seq<char>>::empty());
        assert(split_lines_from(cur, whole) =~= seq![cur]);
        assert(cur + x =~= cur);
    } else {
        assert(whole[0] == x[0]);
        assert(x[0] != nl());
        assert(nl_free(x.skip(1)));
        assert(whole.skip(1) =~= x.skip(1) + seq![nl()]);
        lemma_split_from_terminated(cur.push(x[0]), x.skip(1));
        assert(cur.push(x[0]) + x.skip(1) =~= cur + x);
    }
}

/// Joined lines, closed by one line break, split back to exactly those
/// lines.
pub proof fn lemma_split_join_terminated(m: Seq<Seq<char>>)
    requires
        m.len() >= 1,
        nl_free_all(m),
    ensures
        split_lines(join_lines(m) + seq![nl()]) == m,
    decreases m.len(),
{
    if m.len() == 1 {
        lemma_split_from_terminated(Seq::empty(), m[0]);
        assert(Seq::<char>::empty() + m[0] =~= m[0]);
        assert(seq![m[0]] =~= m);
    } else {
        let u = m[0] + seq![nl()];
        let rest = join_lines(m.skip(1)) + seq![nl()];
        assert(u.last() == nl());
        lemma_split_from_append(Seq::empty(), u, rest);
        assert(u + rest =~= join_lines(m) + seq![nl()]);
        lemma_split_from_terminated(Seq::empty(), m[0]);
        assert(Seq::<char>::empty() + m[0] =~= m[0]);
        assert(nl_free_all(m.skip(1))) by {
            assert(forall|k: int|
                0 <= k < m.skip(1).len() ==> m.skip(1)[k] == #[trigger] m[k + 1]);
        }
        lemma_split_join_terminated(m.skip(1));
        assert(seq![m[0]] + m.skip(1) =~= m);
    }
}

/// Joined lines split back to exactly those lines, provided the last line
/// is not empty.
pub proof fn lemma_split_join(m: Seq<Seq<char>>)
    requires
        m.len() >= 1,
        nl_free_all(m),
        m.last().len() > 0,
    ensures
        split_lines(join_lines(m)) == m,
    decreases m.len(),
{
    if m.len() == 1 {
        lemma_split_from_nl_free(Seq::empty(), m[0]);
        assert(Seq::<char>::empty() + m[0] =~= m[0]);
        assert(seq![m[0]] =~= m);
    } else {
        let u = m[0] + seq![nl()];
        assert(u.last() == nl());
        lemma_split_from_append(Seq::empty(), u, join_lines(m.skip(1)));
        assert(u + join_lines(m.skip(1)) =~= join_lines(m));
        lemma_split_from_terminated(Seq::empty(), m[0]);
        assert(Seq::<char>::empty() + m[0] =~= m[0]);
        assert(nl_free_all(m.skip(1))) by {
            assert(forall|k: int|
                0 <= k < m.skip(1).len() ==> m.skip(1)[k] == #[trigger] m[k + 1]);
        }
        assert(m.skip(1).last() == m.last());
        lemma_split_join(m.skip(1));
        assert(seq![m[0]] + m.skip(1) =~= m);
    }
}

/// A run of `k` line breaks splits as `k` empty lines.
pub proof fn lemma_split_nl_run(k: nat)
    ensures
        split_lines(repeat_char(nl(), k)) == empty_lines(k),
    decreases k,
{
    if k == 0 {
        assert(repeat_char(nl(), 0).len() == 0);
        assert(split_lines(repeat_char(nl(), 0)) =~= empty_lines(0));
    } else {
        let run = repeat_char(nl(), k);
        assert(run[0] == nl());
        assert(run.skip(1) =~= repeat_char(nl(), (k - 1) as nat));
        lemma_split_nl_run((k - 1) as nat);
        assert(seq![Seq::<char>::empty()] + empty_lines((k - 1) as nat) =~= empty_lines(k));
    }
}

/// Closing a text that does not end in a line break with one line break
/// leaves its lines unchanged.
pub proof fn lemma_split_from_closing_nl(cur: Seq<char>, s: Seq<char>)
    requires
        s.len() >= 1,
        s.last() != nl(),
    ensures
        split_lines_from(cur, s + seq![nl()]) == split_lines_from(cur, s),
    decreases s.len(),
{
    let whole = s + seq![nl()];
    assert(whole[0] == s[0]);
    if s.len() == 1 {
        assert(s[0] != nl());
        assert(whole.skip(1) =~= seq![nl()]);
        assert(s.skip(1) =~= Seq::<char>::empty());
        assert(split_lines_from(Seq::empty(), Seq::<char>::empty())
            =~= Seq::<Seq<char>>::empty());
        assert(seq![nl()][0] == nl());
        assert(seq![nl()].skip(1) =~= Seq::<char>::empty());
        assert(split_lines_from(cur.push(s[0]), seq![nl()]) =~= seq![cur.push(s[0])]);
        assert(split_lines_from(cur, whole) == split_lines_from(cur.push(s[0]), whole.skip(1)));
        assert(cur.push(s[0]).len() > 0);
        assert(split_lines_from(cur.push(s[0]), Seq::<char>::empty()) =~= seq![cur.push(s[0])]);
        assert(split_lines_from(cur, s) == split_lines_from(cur.push(s[0]), s.skip(1)));
    } else {
        assert(whole.skip(1) =~= s.skip(1) + seq![nl()]);
        assert(s.skip(1).last() == s.last());
        if s[0] == nl() {
            lemma_split_from_closing_nl(Seq::empty(), s.skip(1));
        } else {
            lemma_split_from_closing_nl(cur.push(s[0]), s.skip(1));
        }
    }
}

/// Appending `m >= 1` line breaks to a text that does not end in one adds
/// `m - 1` empty lines: the first closes the open last line.
pub proof fn lemma_split_append_nls(s: Seq<char>, m: nat)
    requires
        s.len() >= 1,
        s.last() != nl(),
        m >= 1,
    ensures
        split_lines(s + repeat_char(nl(), m)) == split_lines(s) + empty_lines((m - 1) as nat),
{
    let closed = s + seq![nl()];
    lemma_split_from_closing_nl(Seq::empty(), s);
    if m == 1 {
        assert(s + repeat_char(nl(), 1) =~= closed);
        assert(split_lines(s) + empty_lines(0) =~= split_lines(s));
    } else {
        assert(closed.last() == nl());
        lemma_split_from_append(Seq::empty(), closed, repeat_char(nl(), (m - 1) as nat));
        assert(closed + repeat_char(nl(), (m - 1) as nat) =~= s + repeat_char(nl(), m));
        lemma_split_nl_run((m - 1) as nat);
    }
}

/// No line is wider than the widest.
pub proof fn lemma_max_width_bound(ls: Seq<Seq<char>>, k: int)
    requires
        0 <= k < ls.len(),
    ensures
        ls[k].len() <= max_width(ls),
    decreases ls.len(),
{
    if k == ls.len() - 1 {
    } else {
        assert(ls.drop_last()[k] == ls[k]);
        lemma_max_width_bound(ls.drop_last(), k);
    }
}

/// Laying a glyph end to end `n` times spans `n` times its length.
pub proof fn lemma_repeat_seq_len(s: Seq<char>, n: nat)
    ensures
        repeat_seq(s, n).len() == n * s.len(),
    decreases n,
{
    if n == 0 {
    } else {
        lemma_repeat_seq_len(s, (n - 1) as nat);
        let m = (n - 1) as int;
        let l = s.len() as int;
        assert(m * l + l == (m + 1) * l) by (nonlinear_arith);
        assert(repeat_seq(s, n).len() == m * l + l);
    }
}

/// A repeated glyph holds no line break if the glyph holds none.
pub proof fn lemma_repeat_seq_nl_free(s: Seq<char>, n: nat)
    requires
        nl_free(s),
    ensures
        nl_free(repeat_seq(s, n)),
    decreases n,
{
    if n == 0 {
    } else {
        lemma_repeat_seq_nl_free(s, (n - 1) as nat);
        let prev = repeat_seq(s, (n - 1) as nat);
        assert forall|k: int| 0 <= k < repeat_seq(s, n).len() implies repeat_seq(s, n)[k]
            != nl() by {
            if k < prev.len() {
                assert(repeat_seq(s, n)[k] == prev[k]);
            } else {
                assert(repeat_seq(s, n)[k] == s[k - prev.len()]);
            }
        }
    }
}

/// Concatenation keeps freedom from line breaks.
pub proof fn lemma_nl_free_concat(a: Seq<char>, b: Seq<char>)
    requires
        nl_free(a),
        nl_free(b),
    ensures
        nl_free(a + b),
{
    assert forall|k: int| 0 <= k < (a + b).len() implies (a + b)[k] != nl() by {
        if k < a.len() {
            assert((a + b)[k] == a[k]);
        } else {
            assert((a + b)[k] == b[k - a.len()]);
        }
    }
}

proof fn lemma_join_step(ls: Seq<Seq<char>>, i: int)
    requires
        0 <= i < ls.len() - 1,
    ensures
        join_lines(ls.skip(i)) == ls[i] + seq![nl()] + join_lines(ls.skip(i + 1)),
{
    assert(ls.skip(i).len() >= 2);
    assert(ls.skip(i)[0] == ls[i]);
    assert(ls.skip(i).skip(1) =~= ls.skip(i + 1));
}

/// Joins lines with a `'\n'` between each pair, none at the end.
pub fn join_lines_exec(ls: &Vec<Vec<char>>) -> (r: Vec<char>)
    ensures
        r@ == join_lines(lines_model(ls@)),
{
    let ghost model = lines_model(ls@);
    let mut out: Vec<char> = Vec::new();
    if ls.len() == 0 {
        return out;
    }
    push_all(&mut out, &ls[0]);
    proof {
        assert(Seq::<char>::empty() + ls@[0]@ =~= model[0]);
        assert(model.skip(0) =~= model);
        if ls.len() > 1 {
            lemma_join_step(model, 0);
        }
    }
    let mut k: usize = 1;
    while k < ls.len()
        invariant
            1 <= k <= ls.len(),
            model == lines_model(ls@),
            model.len() == ls.len(),
            k < ls.len() ==> join_lines(model) == out@ + seq![nl()] + join_lines(
                model.skip(k as int),
            ),
            k == ls.len() ==> join_lines(model) == out@,
        decreases ls.len() - k,
    {
        let ghost before = out@;
        out.push('\n');
        push_all(&mut out, &ls[k]);
        proof {
            assert(out@ =~= before + seq![nl()] + model[k as int]);
            if k + 1 < ls.len() {
                lemma_join_step(model, k as int);
                assert(before + seq![nl()] + (model[k as int] + seq![nl()] + join_lines(
                    model.skip(k + 1),
                )) =~= out@ + seq![nl()] + join_lines(model.skip(k + 1)));
            } else {
                assert(model.skip(k as int).len() == 1);
                assert(model.skip(k as int)[0] == model[k as int]);
                assert(join_lines(model.skip(k as int)) == model[k as int]);
                assert(before + seq![nl()] + model[k as int] =~= out@);
            }
        }
        k += 1;
    }
    out
}

} // verus!
