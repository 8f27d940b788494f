//! Source spans: a line number, a start column and a length, all zero-based.
//! Every diagnostic carries one, and the host renders the offending text with it.

use vstd::prelude::*;

verus! {

// ---------------------------------------------------------------------------
// Splitting a source text into lines, as diagnostics see it: lines end at a
// newline (a carriage return before it is dropped); the final line needs no
// newline.
// ---------------------------------------------------------------------------

/// The index of the first newline, or the length when there is none.
pub open spec fn spec_first_nl(s: Seq<char>) -> int
    decreases s.len(),
{
    if s.len() == 0 {
        0
    } else if s[0] == '\n' {
        0
    } else {
        1 + spec_first_nl(s.drop_first())
    }
}

/// A line with its carriage return, if any, dropped.
pub open spec fn spec_strip_cr(t: Seq<char>) -> Seq<char> {
    if t.len() > 0 && t.last() == '\r' {
        t.drop_last()
    } else {
        t
    }
}

/// The lines of a text.
pub open spec fn spec_lines(s: Seq<char>) -> Seq<Seq<char>>
    decreases s.len(),
{
    if s.len() == 0 {
        Seq::empty()
    } else {
        let k = spec_first_nl(s);
        if !(0 <= k < s.len()) {
            seq![s]
        } else {
            seq![spec_strip_cr(s.subrange(0, k))] + spec_lines(s.subrange(k + 1, s.len() as int))
        }
    }
}

proof fn lemma_first_nl_bounds(s: Seq<char>)
    ensures
        0 <= spec_first_nl(s) <= s.len(),
        spec_first_nl(s) < s.len() ==> s[spec_first_nl(s)] == '\n',
        forall|i: int| 0 <= i < spec_first_nl(s) ==> s[i] != '\n',
    decreases s.len(),
{
    if s.len() > 0 && s[0] != '\n' {
        lemma_first_nl_bounds(s.drop_first());
        assert forall|i: int| 0 <= i < spec_first_nl(s) implies s[i] != '\n' by {
            if i > 0 {
                assert(s.drop_first()[i - 1] == s[i]);
            }
        }
    }
}

/// Where the first newline is known to stand, the spec agrees.
proof fn lemma_first_nl_at(s: Seq<char>, m: int)
    requires
        0 <= m <= s.len(),
        forall|i: int| 0 <= i < m ==> s[i] != '\n',
        m == s.len() || s[m] == '\n',
    ensures
        spec_first_nl(s) == m,
    decreases m,
{
    if m > 0 {
        assert(forall|i: int|
            0 <= i < s.drop_first().len() ==> #[trigger] s.drop_first()[i] == s[i + 1]);
        lemma_first_nl_at(s.drop_first(), m - 1);
    }
}

/// The character range of line `n` inside `source`: the subrange it denotes
/// equals that line of the split.
fn line_bounds(source: &str, n: usize) -> (r: Option<(usize, usize)>)
    ensures
        match r {
            Some((a, b)) => a <= b <= source@.len() && n < spec_lines(source@).len()
                && spec_lines(source@)[n as int] == source@.subrange(a as int, b as int),
            None => n >= spec_lines(source@).len(),
        },
{
    let ghost s = source@;
    let total = source.unicode_len();
    let mut start: usize = 0;
    let mut line: usize = 0;
    proof {
        assert(s.skip(0) =~= s);
        assert(spec_lines(s).skip(0) =~~= spec_lines(s));
    }
    loop
        invariant
            s == source@,
            total == s.len(),
            start <= total,
            line <= n,
            line <= spec_lines(s).len(),
            spec_lines(s.skip(start as int)) =~~= spec_lines(s).skip(line as int),
        decreases total - start,
    {
        if start >= total {
            // No characters left: no further lines.
            proof {
                assert(s.skip(start as int) =~= Seq::<char>::empty());
                assert(spec_lines(s).skip(line as int) =~~= Seq::<Seq<char>>::empty());
                assert(spec_lines(s).len() == line);
            }
            return None;
        }
        // Find the end of the current line.
        let mut j: usize = start;
        loop
            invariant
                s == source@,
                total == s.len(),
                start <= j <= total,
                forall|i: int| start <= i < j ==> s[i] != '\n',
            ensures
                start <= j <= total,
                forall|i: int| start <= i < j ==> s[i] != '\n',
                j == total || s[j as int] == '\n',
            decreases total - j,
        {
            if j >= total {
                break;
            }
            if source.get_char(j) == '\n' {
                break;
            }
            j += 1;
        }
        proof {
            let t = s.skip(start as int);
            assert(forall|i: int| 0 <= i < t.len() ==> #[trigger] t[i] == s[start + i]);
            lemma_first_nl_at(t, j - start);
            // one unfolding of spec_lines on the suffix
            assert(t.len() > 0);
            if j < total {
                assert(t.subrange(0, j - start) =~= s.subrange(start as int, j as int));
                assert(t.subrange(j - start + 1, t.len() as int) =~= s.skip(j + 1));
            } else {
                assert(t =~= s.subrange(start as int, total as int));
            }
        }
        proof {
            assert(spec_lines(s.skip(start as int)).len() > 0);
            assert(line < spec_lines(s).len());
            assert(spec_lines(s).skip(line as int)[0] == spec_lines(s)[line as int]);
        }
        if line == n {
            if j >= total {
                // The final line, no newline: kept whole.
                proof {
                    assert(spec_lines(s.skip(start as int))[0] =~= s.subrange(
                        start as int,
                        total as int,
                    ));
                }
                return Some((start, total));
            }
            // A line closed by a newline: drop a carriage return before it.
            let b: usize = if j > start && source.get_char(j - 1) == '\r' {
                j - 1
            } else {
                j
            };
            proof {
                let raw = s.subrange(start as int, j as int);
                assert(spec_lines(s.skip(start as int))[0] == spec_strip_cr(raw));
                if j > start && s[j - 1] == '\r' {
                    assert(raw.drop_last() =~= s.subrange(start as int, j - 1));
                }
                assert(spec_strip_cr(raw) =~= s.subrange(start as int, b as int));
            }
            return Some((start, b));
        }
        // Not there yet.
        if j >= total {
            // The text ends inside line `line`; line `n` does not exist.
            proof {
                assert(spec_lines(s.skip(start as int)).len() == 1);
                assert(spec_lines(s).len() == line + 1);
            }
            return None;
        }
        proof {
            assert(spec_lines(s.skip(start as int)).skip(1) =~~= spec_lines(s.skip(j + 1)));
            assert(spec_lines(s).skip(line as int).skip(1) =~~= spec_lines(s).skip(line + 1));
        }
        start = j + 1;
        line += 1;
    }
}

#[derive(Copy, Clone, Eq, PartialEq, Structural, Debug)]
pub struct Position {
    /// The line this span is on.
    pub line: usize,
    /// The column the span starts at.
    pub chr_start: usize,
    /// How many characters the span covers.
    pub length: usize,
}

impl Position {
    pub fn new(line: usize, start: usize, length: usize) -> (p: Position)
        ensures
            p == (Position { line, chr_start: start, length }),
    {
        Position { line, chr_start: start, length }
    }

    /// The text this span denotes inside `source`, if its line and range
    /// exist.
    pub open spec fn spec_find(&self, s: Seq<char>) -> Option<Seq<char>> {
        let ls = spec_lines(s);
        if self.line >= ls.len() {
            None
        } else {
            let l = ls[self.line as int];
            if l.len() < self.chr_start + self.length {
                None
            } else {
                Some(l.subrange(self.chr_start as int, self.chr_start + self.length))
            }
        }
    }

    /// The text of the same line strictly before this span.
    pub open spec fn spec_find_before(&self, s: Seq<char>) -> Option<Seq<char>> {
        let ls = spec_lines(s);
        if self.line >= ls.len() {
            None
        } else {
            let l = ls[self.line as int];
            if l.len() < self.chr_start {
                None
            } else {
                Some(l.subrange(0, self.chr_start as int))
            }
        }
    }

    /// The text of the same line strictly after this span.
    pub open spec fn spec_find_after(&self, s: Seq<char>) -> Option<Seq<char>> {
        let ls = spec_lines(s);
        if self.line >= ls.len() {
            None
        } else {
            let l = ls[self.line as int];
            if l.len() < self.chr_start + self.length {
                None
            } else {
                Some(l.subrange(self.chr_start + self.length, l.len() as int))
            }
        }
    }

    /// Finds the span's text in `source`.
    pub fn find<'a>(&self, source: &'a str) -> (r: Option<&'a str>)
        ensures
            match r {
                Some(t) => self.spec_find(source@) == Some(t@),
                None => self.spec_find(source@) is None,
            },
    {
        let (a, b) = match line_bounds(source, self.line) {
            Some(p) => p,
            None => {
                return None;
            },
        };
        let llen = b - a;
        if self.chr_start > llen || self.length > llen - self.chr_start {
            return None;
        }
        let out = source.substring_char(a + self.chr_start, a + self.chr_start + self.length);
        proof {
            let l = spec_lines(source@)[self.line as int];
            assert(out@ =~= l.subrange(self.chr_start as int, self.chr_start + self.length));
        }
        Some(out)
    }

    /// Finds the text standing before the span on its line.
    pub fn find_before<'a>(&self, source: &'a str) -> (r: Option<&'a str>)
        ensures
            match r {
                Some(t) => self.spec_find_before(source@) == Some(t@),
                None => self.spec_find_before(source@) is None,
            },
    {
        let (a, b) = match line_bounds(source, self.line) {
            Some(p) => p,
            None => {
                return None;
            },
        };
        let llen = b - a;
        if self.chr_start > llen {
            return None;
        }
        let out = source.substring_char(a, a + self.chr_start);
        proof {
            let l = spec_lines(source@)[self.line as int];
            assert(out@ =~= l.subrange(0, self.chr_start as int));
        }
        Some(out)
    }

    /// Finds the text standing after the span on its line.
    pub fn find_after<'a>(&self, source: &'a str) -> (r: Option<&'a str>)
        ensures
            match r {
                Some(t) => self.spec_find_after(source@) == Some(t@),
                None => self.spec_find_after(source@) is None,
            },
    {
        let (a, b) = match line_bounds(source, self.line) {
            Some(p) => p,
            None => {
                return None;
            },
        };
        let llen = b - a;
        if self.chr_start > llen || self.length > llen - self.chr_start {
            return None;
        }
        let out = source.substring_char(a + self.chr_start + self.length, b);
        proof {
            let l = spec_lines(source@)[self.line as int];
            assert(out@ =~= l.subrange(self.chr_start + self.length, l.len() as int));
        }
        Some(out)
    }
}

} // verus!
