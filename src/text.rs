//! Trimming and splitting of one line of text into fields and tokens.

use vstd::prelude::*;

verus! {

/// The characters with the Unicode `White_Space` property.
pub open spec fn is_space_char(c: char) -> bool {
    let u = c as u32;
    (0x9 <= u && u <= 0xd) || u == 0x20 || u == 0x85 || u == 0xa0 || u == 0x1680 || (0x2000 <= u
        && u <= 0x200a) || u == 0x2028 || u == 0x2029 || u == 0x202f || u == 0x205f || u == 0x3000
}

/// `s` without its leading whitespace.
pub open spec fn trim_start(s: Seq<char>) -> Seq<char>
    decreases s.len(),
{
    if s.len() > 0 && is_space_char(s[0]) {
        trim_start(s.drop_first())
    } else {
        s
    }
}

/// `s` without its trailing whitespace.
pub open spec fn trim_end(s: Seq<char>) -> Seq<char>
    decreases s.len(),
{
    if s.len() > 0 && is_space_char(s.last()) {
        trim_end(s.drop_last())
    } else {
        s
    }
}

/// `s` without leading and trailing whitespace.
pub open spec fn trim(s: Seq<char>) -> Seq<char> {
    trim_end(trim_start(s))
}

/// Splitting `s` on the space character, read left to right: the pieces
/// already closed by a space, and the piece still open.
pub open spec fn split_state(s: Seq<char>) -> (Seq<Seq<char>>, Seq<char>)
    decreases s.len(),
{
    if s.len() == 0 {
        (Seq::empty(), Seq::empty())
    } else {
        let (done, open) = split_state(s.drop_last());
        if s.last() == ' ' {
            (done.push(open), Seq::empty())
        } else {
            (done, open.push(s.last()))
        }
    }
}

/// The pieces of `s` between space characters: one more than the number of
/// spaces, some of them possibly empty.
pub open spec fn split_spaces(s: Seq<char>) -> Seq<Seq<char>> {
    split_state(s).0.push(split_state(s).1)
}

/// The fields of a line, by position: the trimmed line split on spaces, each
/// piece trimmed.
pub open spec fn fields(line: Seq<char>) -> Seq<Seq<char>> {
    trim_each(split_spaces(trim(line)))
}

/// Each piece of `ps` trimmed.
pub open spec fn trim_each(ps: Seq<Seq<char>>) -> Seq<Seq<char>> {
    ps.map_values(|p: Seq<char>| trim(p))
}

/// The pieces of `ps` that are not empty, in order.
pub open spec fn nonblank(ps: Seq<Seq<char>>) -> Seq<Seq<char>> {
    ps.filter(|p: Seq<char>| p.len() > 0)
}

/// The tokens of a line: its fields that are not empty.
pub open spec fn tokens(line: Seq<char>) -> Seq<Seq<char>> {
    nonblank(fields(line))
}

/// The views of a vector of character vectors.
pub open spec fn views(v: Seq<Vec<char>>) -> Seq<Seq<char>> {
    v.map_values(|x: Vec<char>| x@)
}

proof fn lemma_views_push(v: Seq<Vec<char>>, x: Vec<char>)
    ensures
        views(v.push(x)) == views(v).push(x@),
{
    assert(views(v.push(x)) =~= views(v).push(x@));
}

proof fn lemma_trim_each_push(ps: Seq<Seq<char>>, p: Seq<char>)
    ensures
        trim_each(ps.push(p)) == trim_each(ps).push(trim(p)),
{
    assert(trim_each(ps.push(p)) =~= trim_each(ps).push(trim(p)));
}

/// Keeping the non-empty pieces of `ps` and one more piece.
pub proof fn lemma_nonblank_push(ps: Seq<Seq<char>>, p: Seq<char>)
    ensures
        nonblank(ps.push(p)) == if p.len() > 0 {
            nonblank(ps).push(p)
        } else {
            nonblank(ps)
        },
{
    reveal(Seq::filter);
    assert(ps.push(p).drop_last() =~= ps);
}

/// Whether `c` is whitespace, as `char::is_whitespace` decides it.
pub fn is_whitespace(c: char) -> (r: bool)
    ensures
        r == is_space_char(c),
{
    let u = c as u32;
    (0x9 <= u && u <= 0xd) || u == 0x20 || u == 0x85 || u == 0xa0 || u == 0x1680 || (0x2000 <= u
        && u <= 0x200a) || u == 0x2028 || u == 0x2029 || u == 0x202f || u == 0x205f || u == 0x3000
}

/// The bounds of `s[lo..hi]` with its surrounding whitespace cut off.
pub fn trim_bounds(s: &Vec<char>, lo: usize, hi: usize) -> (r: (usize, usize))
    requires
        lo <= hi <= s.len(),
    ensures
        lo <= r.0 <= r.1 <= hi,
        s@.subrange(r.0 as int, r.1 as int) == trim(s@.subrange(lo as int, hi as int)),
{
    let mut i = lo;
    while i < hi && is_whitespace(s[i])
        invariant
            lo <= i <= hi <= s.len(),
            trim_start(s@.subrange(lo as int, hi as int)) == trim_start(
                s@.subrange(i as int, hi as int),
            ),
        decreases hi - i,
    {
        assert(s@.subrange(i as int, hi as int).drop_first() =~= s@.subrange(
            i as int + 1,
            hi as int,
        ));
        i = i + 1;
    }
    assert(trim_start(s@.subrange(i as int, hi as int)) == s@.subrange(i as int, hi as int));
    let mut j = hi;
    while j > i && is_whitespace(s[j - 1])
        invariant
            i <= j <= hi <= s.len(),
            trim_end(s@.subrange(i as int, hi as int)) == trim_end(s@.subrange(i as int, j as int)),
        decreases j,
    {
        assert(s@.subrange(i as int, j as int).drop_last() =~= s@.subrange(
            i as int,
            j as int - 1,
        ));
        j = j - 1;
    }
    (i, j)
}

/// A copy of `s[lo..hi]`.
pub fn copy_range(s: &Vec<char>, lo: usize, hi: usize) -> (r: Vec<char>)
    requires
        lo <= hi <= s.len(),
    ensures
        r@ == s@.subrange(lo as int, hi as int),
{
    let mut r: Vec<char> = Vec::new();
    let mut k = lo;
    while k < hi
        invariant
            lo <= k <= hi <= s.len(),
            r@ == s@.subrange(lo as int, k as int),
        decreases hi - k,
    {
        r.push(s[k]);
        k = k + 1;
        assert(r@ =~= s@.subrange(lo as int, k as int));
    }
    r
}

/// The fields of `line`, by position.
pub fn fields_of(line: &Vec<char>) -> (r: Vec<Vec<char>>)
    ensures
        views(r@) == fields(line@),
{
    let (a, b) = trim_bounds(line, 0, line.len());
    let ghost mut done: Seq<Seq<char>> = Seq::empty();
    let mut out: Vec<Vec<char>> = Vec::new();
    let mut st = a;
    let mut j = a;
    assert(line@.subrange(a as int, a as int) =~= Seq::<char>::empty());
    while j < b
        invariant
            a <= st <= j <= b <= line.len(),
            split_state(line@.subrange(a as int, j as int)) == (
            done,
            line@.subrange(st as int, j as int),
            ),
            views(out@) == trim_each(done),
        decreases b - j,
    {
        let ghost prev = line@.subrange(a as int, j as int);
        assert(line@.subrange(a as int, j as int + 1).drop_last() =~= prev);
        if line[j] == ' ' {
            let (x, y) = trim_bounds(line, st, j);
            let piece = copy_range(line, x, y);
            proof {
                lemma_views_push(out@, piece);
                lemma_trim_each_push(done, line@.subrange(st as int, j as int));
                done = done.push(line@.subrange(st as int, j as int));
            }
            out.push(piece);
            st = j + 1;
        } else {
            assert(line@.subrange(st as int, j as int).push(line@[j as int]) =~= line@.subrange(
                st as int,
                j as int + 1,
            ));
        }
        j = j + 1;
        assert(line@.subrange(st as int, j as int) =~= line@.subrange(st as int, j as int));
        assert(st == j ==> line@.subrange(st as int, j as int) =~= Seq::<char>::empty());
    }
    let (x, y) = trim_bounds(line, st, b);
    let piece = copy_range(line, x, y);
    proof {
        lemma_views_push(out@, piece);
        lemma_trim_each_push(done, line@.subrange(st as int, b as int));
        assert(line@.subrange(0, line@.len() as int) =~= line@);
    }
    out.push(piece);
    out
}

/// The tokens of `line`, in order.
pub fn tokens_of(line: &Vec<char>) -> (r: Vec<Vec<char>>)
    ensures
        views(r@) == tokens(line@),
{
    let fs = fields_of(line);
    let mut out: Vec<Vec<char>> = Vec::new();
    let mut i: usize = 0;
    proof {
        reveal(Seq::filter);
        assert(views(fs@).take(0) =~= Seq::<Seq<char>>::empty());
    }
    while i < fs.len()
        invariant
            i <= fs.len(),
            views(fs@) == fields(line@),
            views(out@) == nonblank(views(fs@).take(i as int)),
        decreases fs.len() - i,
    {
        let ghost vs = views(fs@);
        assert(vs.take(i as int + 1) =~= vs.take(i as int).push(vs[i as int]));
        proof {
            lemma_nonblank_push(vs.take(i as int), vs[i as int]);
        }
        if fs[i].len() > 0 {
            let t = copy_range(&fs[i], 0, fs[i].len());
            proof {
                assert(t@ =~= fs@[i as int]@);
                lemma_views_push(out@, t);
            }
            out.push(t);
        }
        i = i + 1;
    }
    assert(views(fs@).take(fs.len() as int) =~= views(fs@));
    out
}

} // verus!
