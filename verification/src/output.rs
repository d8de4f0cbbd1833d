//! Shaping command output for the client: abbreviation of long output.

use vstd::prelude::*;
use crate::text::{
    append_chars, dec, dec_chars, digit_char, from_chars, lemma_split_char_len, lines, lines_chars,
    split_char, strip_cr, to_chars, vv,
};

verus! {

/// Each line followed by a newline.
pub open spec fn join_lines(ls: Seq<Seq<char>>) -> Seq<char>
    decreases ls.len(),
{
    if ls.len() == 0 {
        Seq::empty()
    } else {
        join_lines(ls.drop_last()) + ls.last() + seq!['\n']
    }
}

/// The line that stands for `n` removed lines.
pub open spec fn truncation_marker(n: nat) -> Seq<char> {
    "... ["@ + dec(n) + " lines truncated] ...\n"@
}

/// Output of at most `max_lines` lines is kept as it is. Longer output keeps
/// its first and last `max_lines / 2` lines, each ended by a newline, with a
/// marker line between them that counts the lines left out; when
/// `max_lines / 2` is zero, the marker alone, counting every line.
pub open spec fn spec_abbreviate(output: Seq<char>, max_lines: nat) -> Seq<char> {
    let ls = lines(output);
    if ls.len() <= max_lines {
        output
    } else {
        let keep = max_lines / 2;
        if keep == 0 {
            truncation_marker(ls.len())
        } else {
            join_lines(ls.take(keep as int)) + truncation_marker((ls.len() - 2 * keep) as nat)
                + join_lines(ls.skip(ls.len() - keep))
        }
    }
}

fn push_marker(out: &mut Vec<char>, n: usize)
    ensures
        final(out)@ == old(out)@ + truncation_marker(n as nat),
{
    let a = to_chars("... [");
    let b = dec_chars(n as u64);
    let c = to_chars(" lines truncated] ...\n");
    let ghost start = out@;
    append_chars(out, a.as_slice());
    append_chars(out, b.as_slice());
    append_chars(out, c.as_slice());
    assert(out@ =~= start + truncation_marker(n as nat));
}

/// Appends the lines `ls[from..to]`, each followed by a newline.
fn push_lines(out: &mut Vec<char>, ls: &Vec<Vec<char>>, from: usize, to: usize)
    requires
        from <= to <= ls@.len(),
    ensures
        final(out)@ == old(out)@ + join_lines(vv(ls@).subrange(from as int, to as int)),
{
    let ghost start = out@;
    let ghost l = vv(ls@);
    let mut i: usize = from;
    assert(l.subrange(from as int, from as int) =~= Seq::<Seq<char>>::empty());
    assert(out@ =~= start + join_lines(l.subrange(from as int, from as int)));
    while i < to
        invariant
            from <= i <= to <= ls@.len(),
            l == vv(ls@),
            out@ == start + join_lines(l.subrange(from as int, i as int)),
        decreases to - i,
    {
        let ghost before = out@;
        assert(l.subrange(from as int, i + 1).drop_last() =~= l.subrange(from as int, i as int));
        assert(l.subrange(from as int, i + 1).last() == ls@[i as int]@);
        append_chars(out, ls[i].as_slice());
        out.push('\n');
        assert(out@ =~= start + join_lines(l.subrange(from as int, i + 1)));
        i = i + 1;
    }
}

/// Abbreviates long output by leaving out its middle lines.
pub fn abbreviate_output(output: &str, max_lines: usize) -> (r: String)
    ensures
        r@ == spec_abbreviate(output@, max_lines as nat),
{
    let chars = to_chars(output);
    let ls = lines_chars(chars.as_slice());
    let ghost l = lines(output@);
    let n = ls.len();
    if n <= max_lines {
        return output.to_owned();
    }
    let keep = max_lines / 2;
    let mut out: Vec<char> = Vec::new();
    if keep == 0 {
        push_marker(&mut out, n);
        assert(out@ =~= truncation_marker(n as nat));
        return from_chars(out.as_slice());
    }
    push_lines(&mut out, &ls, 0, keep);
    push_marker(&mut out, n - keep * 2);
    push_lines(&mut out, &ls, n - keep, n);
    assert(l.subrange(0, keep as int) =~= l.take(keep as int));
    assert(l.subrange((n - keep) as int, n as int) =~= l.skip(l.len() - keep));
    assert(out@ =~= spec_abbreviate(output@, max_lines as nat));
    from_chars(out.as_slice())
}

// ---------------------------------------------------------------------------
// How long an abbreviated output is
// ---------------------------------------------------------------------------

/// The number of newlines in a text.
pub open spec fn count_newlines(s: Seq<char>) -> nat
    decreases s.len(),
{
    if s.len() == 0 {
        0
    } else {
        count_newlines(s.drop_last()) + if s.last() == '\n' {
            1nat
        } else {
            0nat
        }
    }
}

pub proof fn lemma_count_concat(a: Seq<char>, b: Seq<char>)
    ensures
        count_newlines(a + b) == count_newlines(a) + count_newlines(b),
    decreases b.len(),
{
    if b.len() == 0 {
        assert(a + b =~= a);
    } else {
        assert((a + b).drop_last() =~= a + b.drop_last());
        lemma_count_concat(a, b.drop_last());
    }
}

pub proof fn lemma_count_none(s: Seq<char>)
    requires
        forall|i: int| 0 <= i < s.len() ==> s[i] != '\n',
    ensures
        count_newlines(s) == 0,
    decreases s.len(),
{
    if s.len() > 0 {
        lemma_count_none(s.drop_last());
    }
}

pub proof fn lemma_split_pieces_have_no_newline(s: Seq<char>)
    ensures
        forall|k: int, i: int|
            0 <= k < split_char(s, '\n').len() && 0 <= i < split_char(s, '\n')[k].len()
                ==> split_char(s, '\n')[k][i] != '\n',
    decreases s.len(),
{
    if s.len() > 0 {
        lemma_split_pieces_have_no_newline(s.drop_last());
        lemma_split_char_len(s.drop_last(), '\n');
    }
}

pub proof fn lemma_lines_have_no_newline(s: Seq<char>)
    ensures
        forall|k: int| 0 <= k < lines(s).len() ==> count_newlines(#[trigger] lines(s)[k]) == 0,
{
    let p = split_char(s, '\n');
    lemma_split_pieces_have_no_newline(s);
    lemma_split_char_len(s, '\n');
    assert forall|k: int| 0 <= k < lines(s).len() implies count_newlines(#[trigger] lines(s)[k])
        == 0 by {
        let l = lines(s)[k];
        if k < p.len() - 1 {
            assert(l == strip_cr(p[k]));
            assert forall|i: int| 0 <= i < l.len() implies l[i] != '\n' by {
                assert(l[i] == p[k][i]);
            }
        } else {
            assert(l == p.last());
            assert forall|i: int| 0 <= i < l.len() implies l[i] != '\n' by {
                assert(l[i] == p[p.len() - 1][i]);
            }
        }
        lemma_count_none(l);
    }
}

pub proof fn lemma_count_join_lines(ls: Seq<Seq<char>>)
    requires
        forall|k: int| 0 <= k < ls.len() ==> count_newlines(#[trigger] ls[k]) == 0,
    ensures
        count_newlines(join_lines(ls)) == ls.len(),
    decreases ls.len(),
{
    if ls.len() > 0 {
        let prev = ls.drop_last();
        assert forall|k: int| 0 <= k < prev.len() implies count_newlines(#[trigger] prev[k]) == 0 by {
            assert(prev[k] == ls[k]);
        }
        lemma_count_join_lines(prev);
        assert(ls[ls.len() - 1] == ls.last());
        assert(count_newlines(ls.last()) == 0);
        lemma_count_concat(join_lines(prev), ls.last());
        lemma_count_concat(join_lines(prev) + ls.last(), seq!['\n']);
        let nl = seq!['\n'];
        assert(nl.drop_last() =~= Seq::<char>::empty());
        assert(nl.last() == '\n');
        assert(count_newlines(nl.drop_last()) == 0);
        assert(count_newlines(nl) == 1);
        assert(join_lines(ls) == join_lines(prev) + ls.last() + seq!['\n']);
    }
}

pub proof fn lemma_dec_has_no_newline(n: nat)
    ensures
        count_newlines(dec(n)) == 0,
    decreases n,
{
    if n >= 10 {
        lemma_dec_has_no_newline(n / 10);
        assert(dec(n).drop_last() =~= dec(n / 10));
        assert(dec(n).last() == digit_char(n % 10));
        assert(digit_char(n % 10) != '\n');
    } else {
        assert(dec(n) == seq![digit_char(n)]);
        assert(seq![digit_char(n)].drop_last() =~= Seq::<char>::empty());
        assert(digit_char(n) != '\n');
        assert(count_newlines(Seq::<char>::empty()) == 0);
    }
}

pub proof fn lemma_marker_is_one_line(n: nat)
    ensures
        count_newlines(truncation_marker(n)) == 1,
{
    reveal_strlit("... [");
    reveal_strlit(" lines truncated] ...\n");
    let a = "... ["@;
    let c = " lines truncated] ...\n"@;
    lemma_count_none(a);
    lemma_dec_has_no_newline(n);
    assert(c.drop_last() =~= " lines truncated] ..."@) by {
        reveal_strlit(" lines truncated] ...");
    }
    reveal_strlit(" lines truncated] ...");
    lemma_count_none(c.drop_last());
    lemma_count_concat(a, dec(n));
    lemma_count_concat(a + dec(n), c);
}

/// Abbreviated output ends up with at most `max_lines + 1` lines: the kept
/// head and tail and the one marker line.
pub proof fn law_abbreviated_output_is_short(output: Seq<char>, max_lines: nat)
    requires
        lines(output).len() > max_lines,
    ensures
        count_newlines(spec_abbreviate(output, max_lines)) <= max_lines + 1,
{
    let ls = lines(output);
    let keep = max_lines / 2;
    lemma_lines_have_no_newline(output);
    if keep == 0 {
        lemma_marker_is_one_line(ls.len());
    } else {
        let head = ls.take(keep as int);
        let tail = ls.skip(ls.len() - keep);
        assert forall|k: int| 0 <= k < head.len() implies count_newlines(#[trigger] head[k]) == 0 by {
            assert(head[k] == ls[k]);
        }
        assert forall|k: int| 0 <= k < tail.len() implies count_newlines(#[trigger] tail[k]) == 0 by {
            assert(tail[k] == ls[ls.len() - keep + k]);
        }
        lemma_count_join_lines(head);
        lemma_count_join_lines(tail);
        let m = truncation_marker((ls.len() - 2 * keep) as nat);
        lemma_marker_is_one_line((ls.len() - 2 * keep) as nat);
        lemma_count_concat(join_lines(head), m);
        lemma_count_concat(join_lines(head) + m, join_lines(tail));
    }
}

} // verus!
