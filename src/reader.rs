//! An input text read one line per call, and typed reads of a line.

use vstd::prelude::*;
use crate::text::{fields, fields_of, tokens, tokens_of, trim, trim_bounds, copy_range, views};
use crate::token::{FromToken, string_of};

verus! {

/// Why a line could not be read as the wanted values.
#[derive(Clone, Copy, Debug, PartialEq, Eq, Structural)]
pub enum ReadError {
    /// The token or field at `index` is not the text of a value of its type.
    ParseFailure { index: usize },
    /// The line holds `found` values where `expected` were wanted.
    TokenCountMismatch { expected: usize, found: usize },
}

/// The index where the line that starts at `pos` ends: its first `'\n'`, or
/// the end of the text.
pub open spec fn line_end(text: Seq<char>, pos: int) -> int
    decreases text.len() - pos,
{
    if pos < 0 || pos >= text.len() {
        text.len() as int
    } else if text[pos] == '\n' {
        pos
    } else {
        line_end(text, pos + 1)
    }
}

/// The line that starts at `pos`, without its terminator.
pub open spec fn raw_line(text: Seq<char>, pos: int) -> Seq<char> {
    text.subrange(pos, line_end(text, pos))
}

/// Where the line after the one at `pos` starts.
pub open spec fn next_pos(text: Seq<char>, pos: int) -> int {
    if line_end(text, pos) < text.len() {
        line_end(text, pos) + 1
    } else {
        text.len() as int
    }
}

/// Whether the value at `k` of each token of `ts` can be read.
pub open spec fn all_read<T: FromToken>(ts: Seq<Seq<char>>, k: int) -> bool {
    forall|j: int| 0 <= j < k ==> T::is_token_of(#[trigger] ts[j])
}

/// `v` holds the values that the tokens `ts` write, in order.
pub open spec fn values_of<T: FromToken>(ts: Seq<Seq<char>>, v: Seq<T>) -> bool {
    &&& v.len() == ts.len()
    &&& forall|i: int|
        0 <= i < ts.len() ==> T::is_token_of(#[trigger] ts[i]) && T::token_value(ts[i], v[i])
}

/// The outcome of reading every token of `ts`: all the values, or the first
/// token that is no value.
pub open spec fn list_outcome<T: FromToken>(ts: Seq<Seq<char>>, r: Result<Vec<T>, ReadError>) -> bool {
    &&& (r is Ok <==> all_read::<T>(ts, ts.len() as int))
    &&& match r {
        Ok(v) => values_of(ts, v@),
        Err(e) => e matches ReadError::ParseFailure { index } && index < ts.len() && all_read::<T>(
            ts,
            index as int,
        ) && !T::is_token_of(ts[index as int]),
    }
}

/// The error of a field by position `i` of `n`: missing, or no value.
pub open spec fn field_error(fs: Seq<Seq<char>>, i: int, n: int) -> ReadError {
    if i < fs.len() {
        ReadError::ParseFailure { index: i as usize }
    } else {
        ReadError::TokenCountMismatch { expected: n as usize, found: fs.len() as usize }
    }
}

/// Whether field `i` of `fs` is there and is a value of `T`.
pub open spec fn field_ok<T: FromToken>(fs: Seq<Seq<char>>, i: int) -> bool {
    0 <= i < fs.len() && T::is_token_of(fs[i])
}

/// What goes wrong, if anything, reading the fields `fs` as a pair.
pub open spec fn pair_error<A: FromToken, B: FromToken>(fs: Seq<Seq<char>>) -> Option<ReadError> {
    if !field_ok::<A>(fs, 0) {
        Some(field_error(fs, 0, 2))
    } else if !field_ok::<B>(fs, 1) {
        Some(field_error(fs, 1, 2))
    } else if fs.len() > 2 {
        Some(ReadError::TokenCountMismatch { expected: 2, found: fs.len() as usize })
    } else {
        None
    }
}

/// What goes wrong, if anything, reading the fields `fs` as a triple.
pub open spec fn triple_error<A: FromToken, B: FromToken, C: FromToken>(
    fs: Seq<Seq<char>>,
) -> Option<ReadError> {
    if !field_ok::<A>(fs, 0) {
        Some(field_error(fs, 0, 3))
    } else if !field_ok::<B>(fs, 1) {
        Some(field_error(fs, 1, 3))
    } else if !field_ok::<C>(fs, 2) {
        Some(field_error(fs, 2, 3))
    } else if fs.len() > 3 {
        Some(ReadError::TokenCountMismatch { expected: 3, found: fs.len() as usize })
    } else {
        None
    }
}

/// The outcome of reading the tokens `ts` as at most one value.
pub open spec fn one_outcome<T: FromToken>(ts: Seq<Seq<char>>, r: Result<Option<T>, ReadError>) -> bool {
    if !all_read::<T>(ts, ts.len() as int) {
        r matches Err(ReadError::ParseFailure { index }) && index < ts.len() && all_read::<T>(
            ts,
            index as int,
        ) && !T::is_token_of(ts[index as int])
    } else if ts.len() == 0 {
        r matches Ok(None)
    } else if ts.len() == 1 {
        r matches Ok(Some(v)) && T::token_value(ts[0], v)
    } else {
        r == Err::<Option<T>, ReadError>(
            ReadError::TokenCountMismatch { expected: 1, found: ts.len() as usize },
        )
    }
}

/// The outcome of reading the fields `fs` as a pair.
pub open spec fn pair_outcome<A: FromToken, B: FromToken>(
    fs: Seq<Seq<char>>,
    r: Result<Option<(A, B)>, ReadError>,
) -> bool {
    match pair_error::<A, B>(fs) {
        Some(e) => r == Err::<Option<(A, B)>, ReadError>(e),
        None => r matches Ok(Some((a, b))) && A::token_value(fs[0], a) && B::token_value(fs[1], b),
    }
}

/// The outcome of reading the fields `fs` as a triple.
pub open spec fn triple_outcome<A: FromToken, B: FromToken, C: FromToken>(
    fs: Seq<Seq<char>>,
    r: Result<Option<(A, B, C)>, ReadError>,
) -> bool {
    match triple_error::<A, B, C>(fs) {
        Some(e) => r == Err::<Option<(A, B, C)>, ReadError>(e),
        None => r matches Ok(Some((a, b, c))) && A::token_value(fs[0], a) && B::token_value(
            fs[1],
            b,
        ) && C::token_value(fs[2], c),
    }
}

/// A text read one line per call, from the start to the end.
pub struct Input {
    text: Vec<char>,
    pos: usize,
}

impl Input {
    /// The whole text.
    pub closed spec fn text(&self) -> Seq<char> {
        self.text@
    }

    /// Where the next line starts.
    pub closed spec fn pos(&self) -> int {
        self.pos as int
    }

    /// The position lies within the text.
    pub open spec fn wf(&self) -> bool {
        0 <= self.pos() <= self.text().len()
    }

    /// Every line has been read: the next read reads zero characters.
    pub open spec fn at_end(&self) -> bool {
        self.pos() >= self.text().len()
    }

    /// The line that the next read reads, without its terminator.
    pub open spec fn current_line(&self) -> Seq<char> {
        raw_line(self.text(), self.pos())
    }

    /// `next` is this input after one line has been read.
    pub open spec fn advanced_to(&self, next: Input) -> bool {
        &&& next.text() == self.text()
        &&& next.pos() == next_pos(self.text(), self.pos())
        &&& next.wf()
    }

    /// An input that reads `text` from its start.
    pub fn new(text: Vec<char>) -> (r: Input)
        ensures
            r.text() == text@,
            r.pos() == 0,
            r.wf(),
    {
        Input { text, pos: 0 }
    }

    /// An input that reads the characters of `s` from their start.
    pub fn from_text(s: &str) -> (r: Input)
        ensures
            r.text() == s@,
            r.pos() == 0,
            r.wf(),
    {
        Input::new(chars_of(s))
    }

    /// Whether every line has been read.
    pub fn is_at_end(&self) -> (r: bool)
        requires
            self.wf(),
        ensures
            r == self.at_end(),
    {
        self.pos >= self.text.len()
    }
}

/// Relies on `str::chars` collected into a `Vec`: the characters, in order.
#[verifier::external_body]
fn chars_of(s: &str) -> (r: Vec<char>)
    ensures
        r@ == s@,
{
    s.chars().collect()
}

/// Reads the next line, without its terminator; `None` once every line has
/// been read.
fn next_line(input: &mut Input) -> (r: Option<Vec<char>>)
    requires
        old(input).wf(),
    ensures
        old(input).advanced_to(*final(input)),
        old(input).at_end() <==> r is None,
        r matches Some(l) ==> l@ == old(input).current_line(),
{
    let n = input.text.len();
    let start = input.pos;
    if start >= n {
        return None;
    }
    let mut k = start;
    while k < n && input.text[k] != '\n'
        invariant
            start <= k <= n == input.text@.len(),
            line_end(input.text@, start as int) == line_end(input.text@, k as int),
        decreases n - k,
    {
        k = k + 1;
    }
    let line = copy_range(&input.text, start, k);
    input.pos = if k < n {
        k + 1
    } else {
        n
    };
    Some(line)
}

/// The next line with surrounding whitespace cut off.
fn next_trimmed_line(input: &mut Input) -> (r: Vec<char>)
    requires
        old(input).wf(),
    ensures
        old(input).advanced_to(*final(input)),
        r@ == trim(old(input).current_line()),
{
    match next_line(input) {
        Some(line) => {
            let (a, b) = trim_bounds(&line, 0, line.len());
            assert(line@.subrange(0, line@.len() as int) =~= line@);
            copy_range(&line, a, b)
        },
        None => {
            let ghost t = old(input).text();
            assert(raw_line(t, old(input).pos()) =~= Seq::<char>::empty());
            assert(trim(Seq::<char>::empty()) =~= Seq::<char>::empty());
            Vec::new()
        },
    }
}

/// Reads the next line with surrounding whitespace cut off; an empty text
/// once every line has been read.
pub fn read_line(input: &mut Input) -> (r: String)
    requires
        old(input).wf(),
    ensures
        old(input).advanced_to(*final(input)),
        r@ == trim(old(input).current_line()),
        old(input).at_end() ==> r@.len() == 0,
{
    let line = next_trimmed_line(input);
    string_of(&line)
}

/// Reads every token of `ts` as a `T`.
pub fn parse_all<T: FromToken>(ts: &Vec<Vec<char>>) -> (r: Result<Vec<T>, ReadError>)
    ensures
        list_outcome::<T>(views(ts@), r),
{
    let ghost vs = views(ts@);
    let mut out: Vec<T> = Vec::new();
    let mut i: usize = 0;
    while i < ts.len()
        invariant
            i <= ts.len(),
            vs == views(ts@),
            all_read::<T>(vs, i as int),
            values_of(vs.take(i as int), out@),
        decreases ts.len() - i,
    {
        match T::from_token(&ts[i]) {
            Some(v) => {
                out.push(v);
                i = i + 1;
                assert(values_of(vs.take(i as int), out@));
            },
            None => {
                assert(vs[i as int] == ts@[i as int]@);
                assert(!T::is_token_of(vs[i as int]));
                return Err(ReadError::ParseFailure { index: i });
            },
        }
    }
    assert(vs.take(i as int) =~= vs);
    Ok(out)
}

/// Reads the next line as a list of values of `T`, one per token; an empty
/// list once every line has been read.
pub fn read_list<T: FromToken>(input: &mut Input) -> (r: Result<Vec<T>, ReadError>)
    requires
        old(input).wf(),
    ensures
        old(input).advanced_to(*final(input)),
        old(input).at_end() ==> (r matches Ok(v) && v@.len() == 0),
        !old(input).at_end() ==> list_outcome::<T>(tokens(old(input).current_line()), r),
{
    match next_line(input) {
        Some(line) => {
            let ts = tokens_of(&line);
            parse_all(&ts)
        },
        None => Ok(Vec::new()),
    }
}

/// Reads the next line as one value of `T`, or as none where the line holds
/// no token or every line has been read.
pub fn read_one<T: FromToken>(input: &mut Input) -> (r: Result<Option<T>, ReadError>)
    requires
        old(input).wf(),
    ensures
        old(input).advanced_to(*final(input)),
        old(input).at_end() ==> (r matches Ok(None)),
        !old(input).at_end() ==> one_outcome::<T>(tokens(old(input).current_line()), r),
{
    match read_list::<T>(input) {
        Err(e) => Err(e),
        Ok(mut v) => {
            let n = v.len();
            if n == 0 {
                Ok(None)
            } else if n == 1 {
                let ghost first = v@[0];
                let last = v.pop();
                assert(last == Some(first));
                Ok(last)
            } else {
                Err(ReadError::TokenCountMismatch { expected: 1, found: n })
            }
        },
    }
}

/// Reads the next line as a pair of values, one per field; none once every
/// line has been read.
pub fn read_pair<A: FromToken, B: FromToken>(input: &mut Input) -> (r: Result<
    Option<(A, B)>,
    ReadError,
>)
    requires
        old(input).wf(),
    ensures
        old(input).advanced_to(*final(input)),
        old(input).at_end() ==> (r matches Ok(None)),
        !old(input).at_end() ==> pair_outcome::<A, B>(fields(old(input).current_line()), r),
{
    let line = match next_line(input) {
        Some(line) => line,
        None => {
            return Ok(None);
        },
    };
    let fs = fields_of(&line);
    let n = fs.len();
    let ghost vs = views(fs@);
    if n < 1 {
        return Err(ReadError::TokenCountMismatch { expected: 2, found: n });
    }
    assert(vs[0] == fs@[0]@);
    let a = match A::from_token(&fs[0]) {
        Some(a) => a,
        None => {
            return Err(ReadError::ParseFailure { index: 0 });
        },
    };
    if n < 2 {
        return Err(ReadError::TokenCountMismatch { expected: 2, found: n });
    }
    assert(vs[1] == fs@[1]@);
    let b = match B::from_token(&fs[1]) {
        Some(b) => b,
        None => {
            return Err(ReadError::ParseFailure { index: 1 });
        },
    };
    if n > 2 {
        return Err(ReadError::TokenCountMismatch { expected: 2, found: n });
    }
    Ok(Some((a, b)))
}

/// Reads the next line as a triple of values, one per field; none once every
/// line has been read.
pub fn read_triple<A: FromToken, B: FromToken, C: FromToken>(input: &mut Input) -> (r: Result<
    Option<(A, B, C)>,
    ReadError,
>)
    requires
        old(input).wf(),
    ensures
        old(input).advanced_to(*final(input)),
        old(input).at_end() ==> (r matches Ok(None)),
        !old(input).at_end() ==> triple_outcome::<A, B, C>(fields(old(input).current_line()), r),
{
    let line = match next_line(input) {
        Some(line) => line,
        None => {
            return Ok(None);
        },
    };
    let fs = fields_of(&line);
    let n = fs.len();
    let ghost vs = views(fs@);
    if n < 1 {
        return Err(ReadError::TokenCountMismatch { expected: 3, found: n });
    }
    assert(vs[0] == fs@[0]@);
    let a = match A::from_token(&fs[0]) {
        Some(a) => a,
        None => {
            return Err(ReadError::ParseFailure { index: 0 });
        },
    };
    if n < 2 {
        return Err(ReadError::TokenCountMismatch { expected: 3, found: n });
    }
    assert(vs[1] == fs@[1]@);
    let b = match B::from_token(&fs[1]) {
        Some(b) => b,
        None => {
            return Err(ReadError::ParseFailure { index: 1 });
        },
    };
    if n < 3 {
        return Err(ReadError::TokenCountMismatch { expected: 3, found: n });
    }
    assert(vs[2] == fs@[2]@);
    let c = match C::from_token(&fs[2]) {
        Some(c) => c,
        None => {
            return Err(ReadError::ParseFailure { index: 2 });
        },
    };
    if n > 3 {
        return Err(ReadError::TokenCountMismatch { expected: 3, found: n });
    }
    Ok(Some((a, b, c)))
}

} // verus!
