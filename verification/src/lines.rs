//! Splitting a byte stream into `\n`-terminated lines, numbered from one.
use vstd::prelude::*;
use vstd::slice::slice_subrange;

verus! {

/// Index of the first line feed at or after `start`, or the length of `s`
/// when there is none.
pub open spec fn next_newline(s: Seq<u8>, start: int) -> int
    decreases s.len() - start,
{
    if start >= s.len() {
        s.len() as int
    } else if s[start] == 0x0Au8 {
        start
    } else {
        next_newline(s, start + 1)
    }
}

pub proof fn lemma_next_newline_bounds(s: Seq<u8>, start: int)
    requires
        0 <= start <= s.len(),
    ensures
        start <= next_newline(s, start) <= s.len(),
        next_newline(s, start) < s.len() ==> s[next_newline(s, start)] == 0x0Au8,
        forall|j: int| start <= j < next_newline(s, start) ==> s[j] != 0x0Au8,
    decreases s.len() - start,
{
    if start < s.len() && s[start] != 0x0Au8 {
        lemma_next_newline_bounds(s, start + 1);
    }
}

/// The lines of `s` from byte `start` on, without their line feeds. A final
/// line feed does not open an empty last line.
pub open spec fn lines_from(s: Seq<u8>, start: int) -> Seq<Seq<u8>>
    decreases s.len() - start,
{
    if start < 0 || start >= s.len() {
        Seq::empty()
    } else {
        let e = next_newline(s, start);
        if e >= s.len() {
            seq![s.subrange(start, e)]
        } else {
            proof {
                lemma_next_newline_bounds(s, start);
            }
            seq![s.subrange(start, e)] + lines_from(s, e + 1)
        }
    }
}

/// The lines of `s`: line `k` (zero-based) is source line number `k + 1`.
pub open spec fn split_lines(s: Seq<u8>) -> Seq<Seq<u8>> {
    lines_from(s, 0)
}

/// There are never more lines than bytes.
pub proof fn lemma_lines_from_len(s: Seq<u8>, start: int)
    requires
        0 <= start,
    ensures
        lines_from(s, start).len() <= if start <= s.len() { s.len() - start } else { 0 },
    decreases s.len() - start,
{
    if start < s.len() {
        lemma_next_newline_bounds(s, start);
        if next_newline(s, start) < s.len() {
            lemma_lines_from_len(s, next_newline(s, start) + 1);
        }
    }
}

/// Searching for a line feed past a prepended byte is searching the rest.
pub proof fn lemma_next_newline_cons(c: u8, t: Seq<u8>, k: int)
    requires
        0 <= k <= t.len(),
    ensures
        next_newline(seq![c] + t, k + 1) == next_newline(t, k) + 1,
    decreases t.len() - k,
{
    let s = seq![c] + t;
    if k < t.len() {
        assert(s[k + 1] == t[k]);
        if t[k] != 0x0Au8 {
            lemma_next_newline_cons(c, t, k + 1);
        }
    }
}

/// The lines after a prepended byte are the lines of the rest.
pub proof fn lemma_lines_from_cons(c: u8, t: Seq<u8>, k: int)
    requires
        0 <= k <= t.len(),
    ensures
        lines_from(seq![c] + t, k + 1) == lines_from(t, k),
    decreases t.len() - k,
{
    let s = seq![c] + t;
    if k < t.len() {
        lemma_next_newline_cons(c, t, k);
        lemma_next_newline_bounds(t, k);
        let e = next_newline(t, k);
        assert(s.subrange(k + 1, e + 1) =~= t.subrange(k, e));
        if e < t.len() {
            lemma_lines_from_cons(c, t, e + 1);
        }
    }
}

/// The lines of one byte `c` followed by `t`: a line feed opens an empty
/// first line; another byte joins the first line of `t`.
pub proof fn lemma_split_lines_cons(c: u8, t: Seq<u8>)
    ensures
        split_lines(seq![c] + t) == if c == 0x0Au8 {
            seq![Seq::<u8>::empty()] + split_lines(t)
        } else if t.len() == 0 {
            seq![seq![c]]
        } else {
            seq![seq![c] + split_lines(t)[0]] + split_lines(t).drop_first()
        },
{
    let s = seq![c] + t;
    lemma_lines_from_cons(c, t, 0);
    if c == 0x0Au8 {
        assert(s[0] == 0x0Au8);
        assert(s.subrange(0, 0) =~= Seq::<u8>::empty());
    } else {
        assert(s[0] == c);
        lemma_next_newline_cons(c, t, 0);
        lemma_next_newline_bounds(t, 0);
        let e = next_newline(t, 0);
        assert(next_newline(s, 0) == e + 1);
        assert(s.subrange(0, e + 1) =~= seq![c] + t.subrange(0, e));
        if t.len() == 0 {
            assert(s.subrange(0, 1) =~= seq![c]);
        } else if e < t.len() {
            lemma_lines_from_cons(c, t, e + 1);
            assert(split_lines(t) == seq![t.subrange(0, e)] + lines_from(t, e + 1));
            assert(split_lines(t).drop_first() =~= lines_from(t, e + 1));
        } else {
            assert(split_lines(t) == seq![t.subrange(0, e)]);
            assert(split_lines(t).drop_first() =~= Seq::<Seq<u8>>::empty());
            assert(split_lines(s) == seq![s.subrange(0, e + 1)]);
        }
    }
}

/// Lines joined by line feeds.
pub open spec fn join_lines(lines: Seq<Seq<u8>>) -> Seq<u8>
    decreases lines.len(),
{
    if lines.len() == 0 {
        Seq::empty()
    } else if lines.len() == 1 {
        lines[0]
    } else {
        lines[0] + seq![0x0Au8] + join_lines(lines.drop_first())
    }
}

/// The line feed that ends `s`, if it ends with one.
pub open spec fn final_newline(s: Seq<u8>) -> Seq<u8> {
    if s.len() > 0 && s.last() == 0x0Au8 {
        seq![0x0Au8]
    } else {
        Seq::empty()
    }
}

proof fn lemma_lines_from_rejoin(s: Seq<u8>, k: int)
    requires
        0 <= k < s.len(),
    ensures
        join_lines(lines_from(s, k)) + final_newline(s) == s.subrange(k, s.len() as int),
        lines_from(s, k).len() > 0,
        forall|i: int, j: int|
            0 <= i < lines_from(s, k).len() && 0 <= j < lines_from(s, k)[i].len()
                ==> #[trigger] lines_from(s, k)[i][j] != 0x0Au8,
    decreases s.len() - k,
{
    lemma_next_newline_bounds(s, k);
    let e = next_newline(s, k);
    let first = s.subrange(k, e);
    let ls = lines_from(s, k);
    if e == s.len() {
        assert(ls == seq![first]);
        assert(s.last() == s[s.len() - 1]);
        assert(join_lines(ls) + final_newline(s) =~= s.subrange(k, s.len() as int));
    } else if e + 1 == s.len() {
        assert(lines_from(s, e + 1) =~= Seq::<Seq<u8>>::empty());
        assert(ls =~= seq![first]);
        assert(join_lines(ls) + final_newline(s) =~= s.subrange(k, s.len() as int));
    } else {
        lemma_lines_from_rejoin(s, e + 1);
        let rest = lines_from(s, e + 1);
        assert(ls == seq![first] + rest);
        assert(ls.drop_first() =~= rest);
        assert(join_lines(ls) == first + seq![0x0Au8] + join_lines(rest));
        let tail = s.subrange(e + 1, s.len() as int);
        assert(join_lines(rest) + final_newline(s) == tail);
        assert(s.subrange(k, s.len() as int) =~= first + seq![0x0Au8] + tail);
        assert((first + seq![0x0Au8] + join_lines(rest)) + final_newline(s) =~= first + seq![0x0Au8]
            + (join_lines(rest) + final_newline(s)));
        assert forall|i: int, j: int|
            0 <= i < ls.len() && 0 <= j < ls[i].len() implies #[trigger] ls[i][j] != 0x0Au8 by {
            if i > 0 {
                assert(ls[i] == rest[i - 1]);
            }
        }
    }
}

/// Splitting loses nothing: the lines, which hold no line feed, joined by
/// line feeds and followed by the final line feed if there is one, give the
/// bytes back; there are no lines exactly when there are no bytes.
pub proof fn law_lines_rejoin(s: Seq<u8>)
    ensures
        join_lines(split_lines(s)) + final_newline(s) == s,
        forall|i: int, j: int|
            0 <= i < split_lines(s).len() && 0 <= j < split_lines(s)[i].len()
                ==> #[trigger] split_lines(s)[i][j] != 0x0Au8,
        split_lines(s).len() == 0 <==> s.len() == 0,
{
    if s.len() > 0 {
        lemma_lines_from_rejoin(s, 0);
        assert(s.subrange(0, s.len() as int) =~= s);
    } else {
        assert(join_lines(split_lines(s)) + final_newline(s) =~= s);
    }
}

/// Iterator state over the lines of a byte slice.
pub(crate) struct Lines<'a> {
    pub(crate) bytes: &'a [u8],
    pub(crate) offset: usize,
    pub(crate) line: usize,
}

impl<'a> Lines<'a> {
    /// How many lines have been handed out so far.
    pub(crate) open spec fn yielded(&self) -> int {
        let s = self.bytes@;
        if self.offset == s.len() && self.offset > 0 && s[self.offset - 1] != 0x0Au8 {
            self.line as int
        } else {
            self.line - 1
        }
    }

    pub(crate) open spec fn wf(&self) -> bool {
        let s = self.bytes@;
        &&& s.len() < usize::MAX
        &&& self.offset <= s.len()
        &&& self.offset == 0 || self.offset == s.len() || s[self.offset - 1] == 0x0Au8
        &&& 1 <= self.line
        &&& 0 <= self.yielded() <= split_lines(s).len()
        &&& lines_from(s, self.offset as int) == split_lines(s).skip(self.yielded())
    }

    pub(crate) fn new(bytes: &'a [u8]) -> (r: Self)
        requires
            bytes@.len() < usize::MAX,
        ensures
            r.wf(),
            r.bytes == bytes,
            r.yielded() == 0,
    {
        let r = Lines { bytes, offset: 0, line: 1 };
        assert(split_lines(bytes@).skip(0) =~= split_lines(bytes@));
        r
    }

    /// Hands out the next line and its number, or `None` after the last one.
    pub(crate) fn next(&mut self) -> (r: Option<(usize, &'a [u8])>)
        requires
            old(self).wf(),
        ensures
            final(self).wf(),
            final(self).bytes == old(self).bytes,
            match r {
                None => {
                    &&& old(self).yielded() == split_lines(old(self).bytes@).len()
                    &&& final(self).yielded() == old(self).yielded()
                },
                Some((n, l)) => {
                    &&& old(self).yielded() < split_lines(old(self).bytes@).len()
                    &&& n == old(self).yielded() + 1
                    &&& l@ == split_lines(old(self).bytes@)[old(self).yielded()]
                    &&& final(self).yielded() == old(self).yielded() + 1
                },
            },
    {
        let ghost s = self.bytes@;
        let ghost y = self.yielded();
        let len = self.bytes.len();
        if self.offset >= len {
            proof {
                assert(split_lines(s).skip(y).len() == 0);
            }
            return None;
        }
        let start = self.offset;
        let current_line = self.line;
        proof {
            lemma_next_newline_bounds(s, start as int);
            lemma_lines_from_len(s, 0);
        }
        while self.offset < len && self.bytes[self.offset] != 0x0Au8
            invariant
                self.bytes@ == s,
                len == s.len(),
                start <= self.offset <= len,
                start < len,
                self.line == current_line,
                next_newline(s, self.offset as int) == next_newline(s, start as int),
            decreases len - self.offset,
        {
            self.offset += 1;
        }
        let end = self.offset;
        proof {
            if end < len {
                assert(lines_from(s, start as int) == seq![s.subrange(start as int, end as int)]
                    + lines_from(s, end + 1));
                assert((seq![s.subrange(start as int, end as int)] + lines_from(s, end + 1)).drop_first()
                    =~= lines_from(s, end + 1));
            } else {
                assert(lines_from(s, start as int) == seq![s.subrange(start as int, end as int)]);
                assert(lines_from(s, start as int).drop_first() =~= lines_from(s, end as int));
            }
            assert(split_lines(s).skip(y).len() > 0);
            assert(split_lines(s).skip(y)[0] == split_lines(s)[y]);
            assert(split_lines(s).skip(y + 1) =~= split_lines(s).skip(y).drop_first());
        }
        if self.offset < len {
            self.offset += 1;
            self.line += 1;
        }
        Some((current_line, slice_subrange(self.bytes, start, end)))
    }
}

} // verus!
