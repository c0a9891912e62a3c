//! One testcase of the example program: a line `n p`, a line of `n`
//! integers, and a line of text. Its answer is how many of the integers are
//! at least `p`, and the text.

use vstd::prelude::*;
use crate::reader::{
    Input, ReadError, all_read, next_pos, pair_error, raw_line, read_line, read_list, read_pair,
};
use crate::text::{fields, tokens, trim};
use crate::token::integer_value;

verus! {

/// The integer that `t` writes in a type with bounds `min..=max`, or zero.
pub open spec fn int_value(t: Seq<char>, signed: bool, min: int, max: int) -> int {
    match integer_value(t, signed, min, max) {
        Some(v) => v,
        None => 0,
    }
}

/// The `i32` values that the tokens `ts` write.
pub open spec fn i32_values(ts: Seq<Seq<char>>) -> Seq<int> {
    ts.map_values(|t: Seq<char>| int_value(t, true, i32::MIN as int, i32::MAX as int))
}

/// How many elements of `s` are at least `p`.
pub open spec fn count_at_least(s: Seq<int>, p: int) -> nat
    decreases s.len(),
{
    if s.len() == 0 {
        0
    } else {
        count_at_least(s.drop_last(), p) + if s.last() >= p {
            1nat
        } else {
            0nat
        }
    }
}

/// The elements of `v` as integers.
pub open spec fn ints(v: Seq<i32>) -> Seq<int> {
    v.map_values(|x: i32| x as int)
}

/// How many elements of `a` are at least `p`.
pub fn count_at_least_in(a: &Vec<i32>, p: i32) -> (r: usize)
    ensures
        r == count_at_least(ints(a@), p as int),
{
    let mut c: usize = 0;
    let mut i: usize = 0;
    while i < a.len()
        invariant
            i <= a.len(),
            c <= i,
            c == count_at_least(ints(a@).take(i as int), p as int),
        decreases a.len() - i,
    {
        assert(ints(a@).take(i as int + 1).drop_last() =~= ints(a@).take(i as int));
        if a[i] >= p {
            c = c + 1;
        }
        i = i + 1;
    }
    assert(ints(a@).take(i as int) =~= ints(a@));
    c
}

/// The outcome of one testcase read from `text` at `pos`, and where the
/// reading stops.
pub open spec fn testcase_outcome(
    text: Seq<char>,
    pos: int,
    r: Result<Option<(usize, String)>, ReadError>,
    end: int,
) -> bool {
    let p1 = next_pos(text, pos);
    let p2 = next_pos(text, p1);
    let fs = fields(raw_line(text, pos));
    let ts = if p1 >= text.len() {
        Seq::empty()
    } else {
        tokens(raw_line(text, p1))
    };
    let n = int_value(fs[0], false, 0, usize::MAX as int);
    let p = int_value(fs[1], true, i32::MIN as int, i32::MAX as int);
    if pos >= text.len() {
        r matches Ok(None) && end == pos
    } else if pair_error::<usize, i32>(fs) is Some {
        r == Err::<Option<(usize, String)>, ReadError>(pair_error::<usize, i32>(fs)->0) && end
            == p1
    } else if !all_read::<i32>(ts, ts.len() as int) {
        end == p2 && (r matches Err(ReadError::ParseFailure { index }) && index < ts.len()
            && all_read::<i32>(ts, index as int) && integer_value(
            ts[index as int],
            true,
            i32::MIN as int,
            i32::MAX as int,
        ) is None)
    } else if ts.len() != n {
        end == p2 && r == Err::<Option<(usize, String)>, ReadError>(
            ReadError::TokenCountMismatch { expected: n as usize, found: ts.len() as usize },
        )
    } else {
        end == next_pos(text, p2) && (r matches Ok(Some((c, line))) && c == count_at_least(
            i32_values(ts),
            p,
        ) && line@ == trim(raw_line(text, p2)))
    }
}

/// Reads one testcase: `None` once every line has been read; else how many
/// of the integers are at least `p`, and the line of text.
pub fn testcase(input: &mut Input) -> (r: Result<Option<(usize, String)>, ReadError>)
    requires
        old(input).wf(),
    ensures
        final(input).wf(),
        final(input).text() == old(input).text(),
        testcase_outcome(old(input).text(), old(input).pos(), r, final(input).pos()),
{
    let (n, p) = match read_pair::<usize, i32>(input) {
        Ok(Some(np)) => np,
        Ok(None) => {
            return Ok(None);
        },
        Err(e) => {
            return Err(e);
        },
    };
    let ghost ts = if input.at_end() {
        Seq::empty()
    } else {
        tokens(input.current_line())
    };
    let a = match read_list::<i32>(input) {
        Ok(a) => a,
        Err(e) => {
            return Err(e);
        },
    };
    assert(ints(a@) =~= i32_values(ts));
    if a.len() != n {
        return Err(ReadError::TokenCountMismatch { expected: n, found: a.len() });
    }
    let line = read_line(input);
    let c = count_at_least_in(&a, p);
    Ok(Some((c, line)))
}

} // verus!
