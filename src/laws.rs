//! Properties that relate several reads, or a read and the shape of a line.

use vstd::prelude::*;
use crate::reader::{Input, ReadError, line_end, list_outcome, next_pos, values_of};
use crate::token::FromToken;
use crate::text::{
    is_space_char, lemma_nonblank_push, nonblank, split_spaces, split_state, tokens, trim,
    trim_each, trim_end, trim_start,
};

verus! {

proof fn lemma_line_end(text: Seq<char>, pos: int)
    requires
        0 <= pos <= text.len(),
    ensures
        pos <= line_end(text, pos) <= text.len(),
        forall|i: int| pos <= i < line_end(text, pos) ==> text[i] != '\n',
        line_end(text, pos) < text.len() ==> text[line_end(text, pos)] == '\n',
    decreases text.len() - pos,
{
    if pos < text.len() && text[pos] != '\n' {
        lemma_line_end(text, pos + 1);
    }
}

/// Each read takes exactly the next unread line. Once every line has been
/// read, a read stays at the end. Before that, it moves strictly forward, so
/// no line is read twice, and it steps over exactly the line it reads, which
/// holds no `'\n'`, and that line's terminator, if it has one.
pub proof fn lemma_read_takes_next_line(a: Input, b: Input)
    requires
        a.wf(),
        a.advanced_to(b),
    ensures
        a.at_end() ==> b.pos() == a.pos() && b.at_end(),
        !a.at_end() ==> a.pos() < b.pos(),
        !a.at_end() ==> (a.text().subrange(a.pos(), b.pos()) == a.current_line() || a.text().subrange(
            a.pos(),
            b.pos(),
        ) == a.current_line().push('\n')),
        forall|i: int| 0 <= i < a.current_line().len() ==> a.current_line()[i] != '\n',
{
    let t = a.text();
    let p = a.pos();
    lemma_line_end(t, p);
    let e = line_end(t, p);
    if e < t.len() {
        assert(t.subrange(p, e + 1) =~= t.subrange(p, e).push('\n'));
    }
}

/// The tokens `ts` written one after another with one space between each
/// two.
pub open spec fn joined(ts: Seq<Seq<char>>) -> Seq<char>
    decreases ts.len(),
{
    if ts.len() == 0 {
        Seq::empty()
    } else if ts.len() == 1 {
        ts[0]
    } else {
        joined(ts.drop_last()).push(' ') + ts.last()
    }
}

/// `s` holds no whitespace.
pub open spec fn no_space(s: Seq<char>) -> bool {
    forall|i: int| 0 <= i < s.len() ==> !is_space_char(#[trigger] s[i])
}

proof fn lemma_trim_no_space(s: Seq<char>)
    requires
        no_space(s),
    ensures
        trim(s) == s,
{
    if s.len() > 0 {
        assert(!is_space_char(s[0]));
        assert(!is_space_char(s[s.len() - 1]));
    }
}

proof fn lemma_split_state_append(x: Seq<char>, t: Seq<char>)
    requires
        forall|i: int| 0 <= i < t.len() ==> t[i] != ' ',
    ensures
        split_state(x + t) == (split_state(x).0, split_state(x).1 + t),
    decreases t.len(),
{
    if t.len() == 0 {
        assert(x + t =~= x);
        assert(split_state(x).1 + t =~= split_state(x).1);
    } else {
        let t0 = t.drop_last();
        lemma_split_state_append(x, t0);
        assert((x + t).drop_last() =~= x + t0);
        assert((split_state(x).1 + t0).push(t.last()) =~= split_state(x).1 + t);
    }
}

proof fn lemma_split_state_after_space(a: Seq<char>, b: Seq<char>)
    ensures
        split_state(a.push(' ') + b) == (
        split_state(a).0.push(split_state(a).1) + split_state(b).0,
        split_state(b).1,
        ),
    decreases b.len(),
{
    let d = split_state(a).0.push(split_state(a).1);
    if b.len() == 0 {
        assert(a.push(' ') + b =~= a.push(' '));
        assert(a.push(' ').drop_last() =~= a);
        assert(d + split_state(b).0 =~= d);
    } else {
        let b0 = b.drop_last();
        lemma_split_state_after_space(a, b0);
        assert((a.push(' ') + b).drop_last() =~= a.push(' ') + b0);
        let (e, o) = split_state(b0);
        if b.last() == ' ' {
            assert((d + e).push(o) =~= d + e.push(o));
        }
    }
}

proof fn lemma_split_joined(ts: Seq<Seq<char>>)
    requires
        ts.len() > 0,
        forall|i: int| 0 <= i < ts.len() ==> no_space(#[trigger] ts[i]),
    ensures
        split_state(joined(ts)) == (ts.drop_last(), ts.last()),
        ts[0].len() > 0 ==> joined(ts).len() > 0 && joined(ts)[0] == ts[0][0],
    decreases ts.len(),
{
    let t = ts.last();
    assert(no_space(t));
    assert forall|i: int| 0 <= i < t.len() implies t[i] != ' ' by {
        assert(!is_space_char(t[i]));
    }
    if ts.len() == 1 {
        lemma_split_state_append(Seq::empty(), t);
        assert(Seq::<char>::empty() + t =~= t);
        assert(ts.drop_last() =~= Seq::<Seq<char>>::empty());
    } else {
        let r = ts.drop_last();
        assert forall|i: int| 0 <= i < r.len() implies no_space(#[trigger] r[i]) by {
            assert(r[i] == ts[i]);
        }
        lemma_split_joined(r);
        let j = joined(r);
        lemma_split_state_after_space(j, Seq::empty());
        assert(j.push(' ') + Seq::<char>::empty() =~= j.push(' '));
        lemma_split_state_append(j.push(' '), t);
        assert(r.drop_last().push(r.last()) =~= r);
        assert(split_state(Seq::<char>::empty()) == (
        Seq::<Seq<char>>::empty(),
        Seq::<char>::empty(),
        ));
        assert(r.drop_last().push(r.last()) + Seq::<Seq<char>>::empty() =~= r);
        assert(Seq::<char>::empty() + t =~= t);
        if j.len() > 0 {
            assert((j.push(' ') + t)[0] == j[0]);
        }
    }
}

proof fn lemma_nonblank_all(ps: Seq<Seq<char>>)
    requires
        forall|i: int| 0 <= i < ps.len() ==> (#[trigger] ps[i]).len() > 0,
    ensures
        nonblank(ps) == ps,
    decreases ps.len(),
{
    if ps.len() == 0 {
        reveal(Seq::filter);
    } else {
        let r = ps.drop_last();
        assert forall|i: int| 0 <= i < r.len() implies (#[trigger] r[i]).len() > 0 by {
            assert(r[i] == ps[i]);
        }
        lemma_nonblank_all(r);
        assert(r.push(ps.last()) =~= ps);
        lemma_nonblank_push(r, ps.last());
    }
}

/// A line made of tokens without whitespace, one space between each two,
/// splits back into exactly those tokens, in order.
pub proof fn lemma_tokens_of_joined(ts: Seq<Seq<char>>)
    requires
        forall|i: int| 0 <= i < ts.len() ==> (#[trigger] ts[i]).len() > 0 && no_space(ts[i]),
    ensures
        tokens(joined(ts)) == ts,
{
    if ts.len() == 0 {
        assert(trim(Seq::<char>::empty()) =~= Seq::<char>::empty());
        let ps = seq![Seq::<char>::empty()];
        assert(trim_each(ps) =~= ps);
        reveal_with_fuel(Seq::filter, 2);
        assert(nonblank(ps) =~= Seq::<Seq<char>>::empty());
    } else {
        lemma_split_joined(ts);
        let s = joined(ts);
        let t = ts.last();
        assert(no_space(t));
        assert(no_space(ts[0]));
        assert(ts[0].len() > 0);
        if ts.len() > 1 {
            assert(s == joined(ts.drop_last()).push(' ') + t);
            assert(s[s.len() - 1] == t[t.len() - 1]);
        }
        assert(!is_space_char(s[0]));
        assert(!is_space_char(s.last()));
        assert(trim_start(s) == s);
        assert(trim(s) == s);
        assert(split_spaces(s) =~= ts);
        assert forall|i: int| 0 <= i < ts.len() implies trim_each(ts)[i] == ts[i] by {
            lemma_trim_no_space(ts[i]);
        }
        assert(trim_each(ts) =~= ts);
        lemma_nonblank_all(ts);
    }
}

/// Reading a line of values of `T` written with one space between each two
/// gives all of them, in order: the list is never cut short or reordered.
pub proof fn lemma_list_of_joined<T: FromToken>(ts: Seq<Seq<char>>, r: Result<Vec<T>, ReadError>)
    requires
        forall|i: int|
            0 <= i < ts.len() ==> (#[trigger] ts[i]).len() > 0 && no_space(ts[i])
                && T::is_token_of(ts[i]),
        list_outcome::<T>(tokens(joined(ts)), r),
    ensures
        r matches Ok(v) && values_of(ts, v@),
{
    lemma_tokens_of_joined(ts);
}

proof fn lemma_trim_start_append(x: Seq<char>, r: Seq<char>)
    requires
        x.len() > 0,
        !is_space_char(x.last()),
    ensures
        trim_start(x + r) == trim_start(x) + r,
    decreases x.len(),
{
    if is_space_char(x[0]) {
        let x0 = x.drop_first();
        assert((x + r).drop_first() =~= x0 + r);
        assert(x0.last() == x.last());
        lemma_trim_start_append(x0, r);
    } else {
        assert((x + r)[0] == x[0]);
    }
}

proof fn lemma_trim_end_prepend(l: Seq<char>, y: Seq<char>)
    requires
        y.len() > 0,
        !is_space_char(y[0]),
    ensures
        trim_end(l + y) == l + trim_end(y),
    decreases y.len(),
{
    if is_space_char(y.last()) {
        let y0 = y.drop_last();
        assert((l + y).drop_last() =~= l + y0);
        assert(y0[0] == y[0]);
        lemma_trim_end_prepend(l, y0);
    } else {
        assert((l + y).last() == y.last());
    }
}

proof fn lemma_split_after_space(a: Seq<char>, b: Seq<char>)
    ensures
        split_spaces(a.push(' ') + b) == split_spaces(a) + split_spaces(b),
{
    lemma_split_state_after_space(a, b);
    let d = split_state(a).0.push(split_state(a).1);
    assert((d + split_state(b).0).push(split_state(b).1) =~= d + split_spaces(b));
}

proof fn lemma_nonblank_add(a: Seq<Seq<char>>, b: Seq<Seq<char>>)
    ensures
        nonblank(a + b) == nonblank(a) + nonblank(b),
    decreases b.len(),
{
    if b.len() == 0 {
        reveal(Seq::filter);
        assert(a + b =~= a);
        assert(nonblank(a) + nonblank(b) =~= nonblank(a));
    } else {
        let b0 = b.drop_last();
        lemma_nonblank_add(a, b0);
        assert(a + b =~= (a + b0).push(b.last()));
        assert(b0.push(b.last()) =~= b);
        lemma_nonblank_push(a + b0, b.last());
        lemma_nonblank_push(b0, b.last());
        assert((nonblank(a) + nonblank(b0)).push(b.last()) =~= nonblank(a) + nonblank(b0).push(
            b.last(),
        ));
    }
}

/// Between two tokens, a run of two spaces splits the line as one space
/// does: the extra space adds no token.
pub proof fn lemma_space_runs_collapse(x: Seq<char>, y: Seq<char>)
    requires
        x.len() > 0,
        !is_space_char(x.last()),
        y.len() > 0,
        !is_space_char(y[0]),
    ensures
        tokens(x.push(' ').push(' ') + y) == tokens(x.push(' ') + y),
{
    let sp = seq![' '];
    let xs = trim_start(x);
    let ye = trim_end(y);
    let s1 = x.push(' ') + y;
    let s2 = x.push(' ').push(' ') + y;
    lemma_trim_start_append(x, sp + y);
    lemma_trim_start_append(x, sp + sp + y);
    assert(s1 =~= x + (sp + y));
    assert(s2 =~= x + (sp + sp + y));
    assert(xs + (sp + y) =~= xs.push(' ') + y);
    assert(xs + (sp + sp + y) =~= xs.push(' ').push(' ') + y);
    lemma_trim_end_prepend(xs.push(' '), y);
    lemma_trim_end_prepend(xs.push(' ').push(' '), y);
    assert(trim(s1) == xs.push(' ') + ye);
    assert(trim(s2) == xs.push(' ').push(' ') + ye);
    lemma_split_after_space(xs, ye);
    assert(xs.push(' ').push(' ') + ye =~= xs.push(' ') + (Seq::<char>::empty().push(' ') + ye));
    lemma_split_after_space(xs, Seq::<char>::empty().push(' ') + ye);
    lemma_split_after_space(Seq::<char>::empty(), ye);
    let e = split_spaces(Seq::<char>::empty());
    assert(e =~= seq![Seq::<char>::empty()]);
    let px = split_spaces(xs);
    let py = split_spaces(ye);
    assert(trim_each(px + py) =~= trim_each(px) + trim_each(py));
    assert(trim_each(px + (e + py)) =~= trim_each(px) + trim_each(e) + trim_each(py));
    assert(trim(Seq::<char>::empty()) =~= Seq::<char>::empty());
    assert(trim_each(e) =~= e);
    lemma_nonblank_add(trim_each(px), trim_each(py));
    lemma_nonblank_add(trim_each(px) + trim_each(e), trim_each(py));
    lemma_nonblank_add(trim_each(px), trim_each(e));
    reveal_with_fuel(Seq::filter, 2);
    assert(nonblank(e) =~= Seq::<Seq<char>>::empty());
    assert(nonblank(trim_each(px)) + Seq::<Seq<char>>::empty() =~= nonblank(trim_each(px)));
}

} // verus!
