//! External-command strategy: the output of `ps`, asked for the process id and
//! the short command name, is a header line followed by one line per process.

use crate::text::{
    chars_of, decimal_i32, decode_lossy, parse_i32, skip_spaces, spaces_end, string_of, token_end,
    utf8_lossy, word_end,
};
use vstd::prelude::*;
use vstd::slice::slice_subrange;

verus! {

/// Enumerates processes by reading the output of the `ps` command.
pub struct PsBackend;

/// The first index at or after `from` that holds a line feed, or the length of `text`.
pub open spec fn line_end(text: Seq<char>, from: int) -> int
    decreases text.len() - from,
{
    if 0 <= from < text.len() && text[from] != '\n' {
        line_end(text, from + 1)
    } else {
        from
    }
}

/// A line ends at or after the place where it starts, and inside the text.
pub proof fn lemma_line_end(text: Seq<char>, from: int)
    requires
        0 <= from <= text.len(),
    ensures
        from <= line_end(text, from) <= text.len(),
    decreases text.len() - from,
{
    if from < text.len() && text[from] != '\n' {
        lemma_line_end(text, from + 1);
    }
}

/// The lines of `text` from index `from` on: the stretches between line
/// feeds. A line feed at the very end starts no further line.
pub open spec fn lines_from(text: Seq<char>, from: int) -> Seq<Seq<char>>
    decreases text.len() + 1 - from,
    via lines_from_terminates
{
    if 0 <= from < text.len() {
        seq![text.subrange(from, line_end(text, from))] + lines_from(
            text,
            line_end(text, from) + 1,
        )
    } else {
        Seq::empty()
    }
}

#[via_fn]
proof fn lines_from_terminates(text: Seq<char>, from: int) {
    if 0 <= from < text.len() {
        lemma_line_end(text, from);
    }
}

/// The lines of `text` after the first, which is the header.
pub open spec fn body_lines(text: Seq<char>) -> Seq<Seq<char>> {
    let lines = lines_from(text, 0);
    if lines.len() > 0 {
        lines.subrange(1, lines.len() as int)
    } else {
        lines
    }
}

/// The record that one line of the listing holds: its first two words, the
/// first a process id and the second the command name. A line with fewer than
/// two words, or whose first word is no `i32`, holds none.
pub open spec fn line_record(line: Seq<char>) -> Option<(i32, Seq<char>)> {
    let a = skip_spaces(line, 0);
    let b = token_end(line, a);
    let c = skip_spaces(line, b);
    let d = token_end(line, c);
    if a < b && c < d {
        match decimal_i32(line.subrange(a, b)) {
            Some(pid) => Some((pid, line.subrange(c, d))),
            None => None,
        }
    } else {
        None
    }
}

/// The process table that the text of a listing holds: the records of the
/// lines after the header, in order; lines that hold none are passed over.
pub open spec fn listing(text: Seq<char>) -> Seq<(i32, Seq<char>)> {
    body_lines(text).filter_map(|line: Seq<char>| line_record(line))
}

impl PsBackend {
    /// Reads one line of the listing.
    pub fn parse_line(line: &[char]) -> (r: Option<(i32, String)>)
        ensures
            r.deep_view() == line_record(line@),
    {
        let a = spaces_end(line, 0);
        let b = word_end(line, a);
        let c = spaces_end(line, b);
        let d = word_end(line, c);
        if a < b && c < d {
            match parse_i32(slice_subrange(line, a, b)) {
                Some(pid) => Some((pid, string_of(slice_subrange(line, c, d)))),
                None => None,
            }
        } else {
            None
        }
    }

    /// Reads the text of a listing.
    pub fn parse_text(text: &str) -> (out: Vec<(i32, String)>)
        ensures
            out.deep_view() == listing(text@),
    {
        let chars = chars_of(text);
        let s = chars.as_slice();
        let n: usize = s.len();
        let ghost f = |line: Seq<char>| line_record(line);
        let ghost mut done: Seq<Seq<char>> = Seq::empty();
        let mut out: Vec<(i32, String)> = Vec::new();
        let mut header: bool = true;
        let mut from: usize = 0;
        assert(done.filter_map(f) =~= Seq::<(i32, Seq<char>)>::empty());
        while from < n
            invariant
                from <= n == s@.len(),
                s@ == text@,
                f == (|line: Seq<char>| line_record(line)),
                lines_from(s@, 0) == done + lines_from(s@, from as int),
                header == (done.len() == 0),
                !header ==> out.deep_view() == done.subrange(1, done.len() as int).filter_map(f),
                header ==> out@.len() == 0,
            decreases n - from,
        {
            let mut end: usize = from;
            while end < n && s[end] != '\n'
                invariant
                    from <= end <= n == s@.len(),
                    line_end(s@, end as int) == line_end(s@, from as int),
                decreases n - end,
            {
                end = end + 1;
            }
            let line = slice_subrange(s, from, end);
            let ghost before = out.deep_view();
            let ghost body = if header {
                Seq::<Seq<char>>::empty()
            } else {
                done.subrange(1, done.len() as int)
            };
            if !header {
                match PsBackend::parse_line(line) {
                    Some(r) => {
                        out.push(r);
                        assert(out.deep_view() =~= before.push(r.deep_view()));
                    },
                    None => {},
                }
            }
            proof {
                let grown = done.push(line@);
                assert(lines_from(s@, 0) =~= grown + lines_from(s@, end + 1));
                if !header {
                    assert(grown.subrange(1, grown.len() as int) =~= body.push(line@));
                    assert(body.push(line@).drop_last() =~= body);
                    assert(before + seq![line_record(line@)->0] =~= before.push(
                        line_record(line@)->0,
                    ));
                } else {
                    assert(grown.subrange(1, grown.len() as int) =~= Seq::<Seq<char>>::empty());
                    assert(Seq::<Seq<char>>::empty().filter_map(f) =~= Seq::<
                        (i32, Seq<char>),
                    >::empty());
                    assert(out.deep_view() =~= Seq::<(i32, Seq<char>)>::empty());
                }
                done = grown;
            }
            header = false;
            from = if end < n {
                end + 1
            } else {
                n
            };
        }
        proof {
            assert(lines_from(s@, 0) =~= done);
            if header {
                assert(out.deep_view() =~= Seq::<(i32, Seq<char>)>::empty());
                assert(body_lines(text@).filter_map(f) =~= Seq::<(i32, Seq<char>)>::empty());
            }
        }
        out
    }

    /// Reads the bytes that the command wrote: they are taken for UTF-8,
    /// leniently, and read as text.
    pub fn parse(stdout: &[u8]) -> (out: Vec<(i32, String)>)
        ensures
            out.deep_view() == listing(utf8_lossy(stdout@)),
    {
        let text = decode_lossy(stdout);
        PsBackend::parse_text(text.as_str())
    }
}

} // verus!
