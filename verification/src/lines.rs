//! Splitting text into lines (`str::lines`) and joining lines back.

use vstd::prelude::*;
use crate::chars::{chars_of, string_from_chars};

verus! {

/// The pieces of `s` between line feeds (always at least one).
pub open spec fn line_pieces(s: Seq<char>) -> Seq<Seq<char>>
    decreases s.len(),
{
    if s.len() == 0 {
        seq![Seq::<char>::empty()]
    } else {
        let prev = line_pieces(s.drop_last());
        let c = s.last();
        if c == '\n' {
            prev.push(Seq::empty())
        } else {
            prev.update(prev.len() - 1, prev.last().push(c))
        }
    }
}

/// A line ended by `\r\n` loses its carriage return.
pub open spec fn strip_cr(l: Seq<char>) -> Seq<char> {
    if l.len() > 0 && l.last() == '\r' {
        l.drop_last()
    } else {
        l
    }
}

/// `str::lines`: lines end at `\n` or `\r\n`; the final line ending is optional.
pub open spec fn text_lines(s: Seq<char>) -> Seq<Seq<char>> {
    let ps = line_pieces(s);
    let ended = ps.drop_last().map_values(|l: Seq<char>| strip_cr(l));
    if ps.last().len() == 0 {
        ended
    } else {
        ended.push(ps.last())
    }
}

pub open spec fn string_views(v: Seq<String>) -> Seq<Seq<char>> {
    v.map_values(|s: String| s@)
}

proof fn lemma_line_pieces_len(s: Seq<char>)
    ensures
        line_pieces(s).len() >= 1,
    decreases s.len(),
{
    if s.len() > 0 {
        lemma_line_pieces_len(s.drop_last());
    }
}

fn strip_cr_exec(v: Vec<char>) -> (r: Vec<char>)
    ensures
        r@ == strip_cr(v@),
{
    let mut v = v;
    if v.len() > 0 && v[v.len() - 1] == '\r' {
        v.pop();
    }
    v
}

/// The lines of `s` (`str::lines`).
pub fn split_lines(s: &str) -> (r: Vec<String>)
    ensures
        string_views(r@) == text_lines(s@),
{
    let v = chars_of(s);
    let mut out: Vec<String> = Vec::new();
    let mut piece: Vec<char> = Vec::new();
    let mut i: usize = 0;
    while i < v.len()
        invariant
            i <= v.len(),
            line_pieces(v@.take(i as int)).len() >= 1,
            line_pieces(v@.take(i as int)).last() == piece@,
            string_views(out@) == line_pieces(v@.take(i as int)).drop_last().map_values(
                |l: Seq<char>| strip_cr(l),
            ),
        decreases v.len() - i,
    {
        let c = v[i];
        proof {
            assert(v@.take(i + 1).drop_last() =~= v@.take(i as int));
            assert(v@.take(i + 1).last() == c);
            lemma_line_pieces_len(v@.take(i as int));
        }
        let ghost prev = line_pieces(v@.take(i as int));
        if c == '\n' {
            let done = strip_cr_exec(piece);
            let line = string_from_chars(&done);
            let ghost before = string_views(out@);
            out.push(line);
            piece = Vec::new();
            proof {
                let next = line_pieces(v@.take(i + 1));
                assert(next == prev.push(Seq::<char>::empty()));
                assert(next.drop_last() =~= prev);
                assert(string_views(out@) =~= before.push(strip_cr(prev.last())));
                assert(prev.drop_last().push(prev.last()) =~= prev);
                assert(next.drop_last().map_values(|l: Seq<char>| strip_cr(l)) =~= prev.drop_last().map_values(
                    |l: Seq<char>| strip_cr(l),
                ).push(strip_cr(prev.last())));
                assert(piece@ =~= Seq::<char>::empty());
            }
        } else {
            piece.push(c);
            proof {
                let next = line_pieces(v@.take(i + 1));
                assert(next.drop_last() =~= prev.drop_last());
            }
        }
        i += 1;
    }
    assert(v@.take(v.len() as int) =~= v@);
    if piece.len() > 0 {
        let ghost before = string_views(out@);
        let last = string_from_chars(&piece);
        out.push(last);
        assert(string_views(out@) =~= before.push(piece@));
    }
    out
}

/// `lines.join(sep)`.
pub open spec fn join_lines(lines: Seq<Seq<char>>, sep: Seq<char>) -> Seq<char>
    decreases lines.len(),
{
    if lines.len() == 0 {
        Seq::empty()
    } else if lines.len() == 1 {
        lines[0]
    } else {
        join_lines(lines.drop_last(), sep) + sep + lines.last()
    }
}

/// Joins strings with a separator.
pub fn join_strings(lines: &Vec<String>, sep: &str) -> (r: String)
    ensures
        r@ == join_lines(string_views(lines@), sep@),
{
    let ghost ls = string_views(lines@);
    let mut s = String::new();
    let mut i: usize = 0;
    while i < lines.len()
        invariant
            ls == string_views(lines@),
            i <= lines.len(),
            s@ == join_lines(ls.take(i as int), sep@),
        decreases lines.len() - i,
    {
        proof {
            assert(ls.take(i + 1).drop_last() =~= ls.take(i as int));
            assert(ls.take(i + 1).last() == ls[i as int]);
        }
        if i > 0 {
            s.append(sep);
        } else {
            assert(s@ =~= Seq::<char>::empty());
        }
        s.append(lines[i].as_str());
        proof {
            if i == 0 {
                assert(s@ =~= ls[0]);
            }
        }
        i += 1;
    }
    assert(ls.take(lines.len() as int) =~= ls);
    s
}

} // verus!
