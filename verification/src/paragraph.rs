//! The soft-break line splitter and the per-paragraph pipeline: a
//! paragraph's ordered content (text fragments interleaved with explicit
//! line-break markers) is joined with line feeds, split into logical lines,
//! empty lines are dropped, and each remaining line is normalized,
//! classified and emitted.

use vstd::prelude::*;

use crate::emit::{lemma_line_lossless, line_out, process_line};
use crate::normalize::normalized;
use crate::span::{spans_text, FormattedLine, LineModel};

verus! {

/// One item of a paragraph's ordered content: a literal text fragment or an
/// explicit line-break marker.
pub enum ParaItem {
    Text(Vec<char>),
    Break,
}

/// A paragraph's content joined into one text, with each break marker
/// standing as a line feed.
pub open spec fn joined(items: Seq<ParaItem>) -> Seq<char>
    decreases items.len(),
{
    if items.len() == 0 {
        Seq::empty()
    } else {
        joined(items.drop_last()) + (match items.last() {
            ParaItem::Text(t) => t@,
            ParaItem::Break => seq!['\n'],
        })
    }
}

/// The pieces of a text split on the line feed, in order, empty pieces
/// included; there is always at least one piece.
pub open spec fn split_all(s: Seq<char>) -> Seq<Seq<char>>
    decreases s.len(),
{
    if s.len() == 0 {
        seq![Seq::<char>::empty()]
    } else if s.last() == '\n' {
        split_all(s.drop_last()).push(Seq::empty())
    } else {
        let prev = split_all(s.drop_last());
        prev.update(prev.len() - 1, prev.last().push(s.last()))
    }
}

/// Splitting always yields at least one piece.
pub proof fn lemma_split_all_len(s: Seq<char>)
    ensures
        split_all(s).len() >= 1,
    decreases s.len(),
{
    if s.len() > 0 {
        lemma_split_all_len(s.drop_last());
    }
}

/// The non-empty pieces, in order: empty split results are dropped.
pub open spec fn keep_nonempty(ls: Seq<Seq<char>>) -> Seq<Seq<char>>
    decreases ls.len(),
{
    if ls.len() == 0 {
        Seq::empty()
    } else if ls.last().len() > 0 {
        keep_nonempty(ls.drop_last()).push(ls.last())
    } else {
        keep_nonempty(ls.drop_last())
    }
}

/// The logical lines of a paragraph: its content joined with line feeds,
/// split on them, empty results dropped.
pub open spec fn lines_of(items: Seq<ParaItem>) -> Seq<Seq<char>> {
    keep_nonempty(split_all(joined(items)))
}

/// The emitted output for an ordered sequence of raw logical lines, each
/// normalized first.
pub open spec fn lines_out(ls: Seq<Seq<char>>) -> Seq<LineModel>
    decreases ls.len(),
{
    if ls.len() == 0 {
        Seq::empty()
    } else {
        lines_out(ls.drop_last()).push(line_out(normalized(ls.last())))
    }
}

/// The full output of a paragraph: one formatted line per logical line.
pub open spec fn paragraph_out(items: Seq<ParaItem>) -> Seq<LineModel> {
    lines_out(lines_of(items))
}

/// Splits a paragraph's content into its non-empty logical lines.
pub fn split_lines(items: &Vec<ParaItem>) -> (r: Vec<Vec<char>>)
    ensures
        r@.map_values(|l: Vec<char>| l@) == lines_of(items@),
        forall|i: int| 0 <= i < r@.len() ==> #[trigger] r@[i]@.len() > 0,
{
    let n = items.len();
    let mut whole: Vec<char> = Vec::new();
    let mut idx: usize = 0;
    while idx < n
        invariant
            idx <= n,
            n == items@.len(),
            whole@ == joined(items@.take(idx as int)),
        decreases n - idx,
    {
        let ghost before = whole@;
        let item = &items[idx];
        match item {
            ParaItem::Text(t) => {
                let m = t.len();
                let mut j: usize = 0;
                while j < m
                    invariant
                        j <= m,
                        m == t@.len(),
                        whole@ == before + t@.take(j as int),
                    decreases m - j,
                {
                    whole.push(t[j]);
                    proof {
                        assert(whole@ =~= before + t@.take(j as int + 1));
                    }
                    j = j + 1;
                }
                proof {
                    assert(t@.take(m as int) =~= t@);
                }
            },
            ParaItem::Break => {
                whole.push('\n');
                proof {
                    assert(whole@ =~= before + seq!['\n']);
                }
            },
        }
        proof {
            assert(items@.take(idx as int + 1).drop_last() =~= items@.take(idx as int));
            assert(items@.take(idx as int + 1).last() == items@[idx as int]);
        }
        idx = idx + 1;
    }
    proof {
        assert(items@.take(n as int) =~= items@);
    }

    let sn = whole.len();
    let mut out: Vec<Vec<char>> = Vec::new();
    let mut cur: Vec<char> = Vec::new();
    let mut i: usize = 0;
    while i < sn
        invariant
            i <= sn,
            sn == whole@.len(),
            split_all(whole@.take(i as int)).len() >= 1,
            cur@ == split_all(whole@.take(i as int)).last(),
            out@.map_values(|l: Vec<char>| l@)
                == keep_nonempty(split_all(whole@.take(i as int)).drop_last()),
            forall|k: int| 0 <= k < out@.len() ==> #[trigger] out@[k]@.len() > 0,
        decreases sn - i,
    {
        let ghost prev = split_all(whole@.take(i as int));
        proof {
            assert(whole@.take(i as int + 1).drop_last() =~= whole@.take(i as int));
            assert(whole@.take(i as int + 1).last() == whole@[i as int]);
            lemma_split_all_len(whole@.take(i as int + 1));
        }
        let c = whole[i];
        if c == '\n' {
            proof {
                assert(split_all(whole@.take(i as int + 1)) == prev.push(Seq::<char>::empty()));
                assert(prev.push(Seq::<char>::empty()).drop_last() =~= prev);
                assert(prev =~= prev.drop_last().push(prev.last()));
                assert(keep_nonempty(prev.drop_last().push(prev.last())) == if prev.last().len() > 0 {
                    keep_nonempty(prev.drop_last()).push(prev.last())
                } else {
                    keep_nonempty(prev.drop_last())
                });
            }
            if cur.len() > 0 {
                let ghost out_before = out@.map_values(|l: Vec<char>| l@);
                out.push(cur);
                proof {
                    assert(out@.map_values(|l: Vec<char>| l@) =~= out_before.push(prev.last()));
                }
            }
            cur = Vec::new();
        } else {
            cur.push(c);
            proof {
                let next = split_all(whole@.take(i as int + 1));
                assert(next == prev.update(prev.len() - 1, prev.last().push(whole@[i as int])));
                assert(next.drop_last() =~= prev.drop_last());
                assert(next.last() == prev.last().push(whole@[i as int]));
            }
        }
        i = i + 1;
    }
    proof {
        assert(whole@.take(sn as int) =~= whole@);
        lemma_split_all_len(whole@);
        let all = split_all(whole@);
        assert(all =~= all.drop_last().push(all.last()));
        assert(keep_nonempty(all.drop_last().push(all.last())) == if all.last().len() > 0 {
            keep_nonempty(all.drop_last()).push(all.last())
        } else {
            keep_nonempty(all.drop_last())
        });
    }
    if cur.len() > 0 {
        let ghost out_before = out@.map_values(|l: Vec<char>| l@);
        let ghost all = split_all(whole@);
        out.push(cur);
        proof {
            assert(out@.map_values(|l: Vec<char>| l@) =~= out_before.push(all.last()));
        }
    }
    out
}

/// Processes one paragraph: splits its content into logical lines and emits
/// each line's styled spans and paragraph style decision, in order.
pub fn process_paragraph(items: &Vec<ParaItem>) -> (r: Vec<FormattedLine>)
    ensures
        r@.map_values(|fl: FormattedLine| fl@) == paragraph_out(items@),
{
    let lines = split_lines(items);
    let n = lines.len();
    let ghost lv = lines@.map_values(|l: Vec<char>| l@);
    let mut out: Vec<FormattedLine> = Vec::new();
    let mut i: usize = 0;
    while i < n
        invariant
            i <= n,
            n == lines@.len(),
            lv == lines@.map_values(|l: Vec<char>| l@),
            lv == lines_of(items@),
            forall|k: int| 0 <= k < lines@.len() ==> #[trigger] lines@[k]@.len() > 0,
            out@.map_values(|fl: FormattedLine| fl@) == lines_out(lv.take(i as int)),
        decreases n - i,
    {
        let ghost out_before = out@.map_values(|fl: FormattedLine| fl@);
        let fl = process_line(&lines[i]);
        out.push(fl);
        proof {
            assert(lv.take(i as int + 1).drop_last() =~= lv.take(i as int));
            assert(lv.take(i as int + 1).last() == lines@[i as int]@);
            assert(out@.map_values(|fl: FormattedLine| fl@)
                =~= out_before.push(line_out(normalized(lines@[i as int]@))));
        }
        i = i + 1;
    }
    proof {
        assert(lv.take(n as int) =~= lv);
    }
    out
}

/// The concatenated text of all spans of a sequence of formatted lines.
pub open spec fn lines_text(ms: Seq<LineModel>) -> Seq<char>
    decreases ms.len(),
{
    if ms.len() == 0 {
        Seq::empty()
    } else {
        lines_text(ms.drop_last()) + spans_text(ms.last().spans)
    }
}

/// The concatenation of a sequence of raw lines, each normalized.
pub open spec fn normalized_concat(ls: Seq<Seq<char>>) -> Seq<char>
    decreases ls.len(),
{
    if ls.len() == 0 {
        Seq::empty()
    } else {
        normalized_concat(ls.drop_last()) + normalized(ls.last())
    }
}

/// Per-paragraph losslessness: concatenating all emitted spans' text equals
/// the concatenation of the paragraph's logical lines after normalization.
pub proof fn lemma_paragraph_lossless(items: Seq<ParaItem>)
    ensures
        lines_text(paragraph_out(items)) == normalized_concat(lines_of(items)),
{
    lemma_lines_lossless(lines_of(items));
}

/// Losslessness for any ordered sequence of raw lines.
pub proof fn lemma_lines_lossless(ls: Seq<Seq<char>>)
    ensures
        lines_text(lines_out(ls)) == normalized_concat(ls),
    decreases ls.len(),
{
    if ls.len() > 0 {
        lemma_lines_lossless(ls.drop_last());
        assert(lines_out(ls).drop_last() =~= lines_out(ls.drop_last()));
        lemma_line_lossless(normalized(ls.last()));
    }
}

} // verus!
