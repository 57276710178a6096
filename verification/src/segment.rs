//! Dialogue segmentation: a dialogue line is split at the first full-width
//! colon into a speaker prefix (kept plain) and a body, and the body is
//! partitioned left to right around non-overlapping, non-nested bracketed
//! asides "（…）". Text outside brackets is highlighted bold red; bracket
//! interiors (brackets included) stay plain. An unterminated opening bracket
//! is never matched; its text reads as ordinary highlighted dialogue.

use vstd::prelude::*;

use crate::span::{
    plain_span, red_bold_span, spans_text, lemma_spans_text_add, lemma_spans_text_singleton,
    SpanModel, StyledSpan,
};

verus! {

/// The number of characters before the first occurrence of `c` in `s`:
/// the index of the first occurrence, or the length of `s` if there is none.
pub open spec fn seek(s: Seq<char>, c: char) -> nat
    decreases s.len(),
{
    if s.len() == 0 {
        0
    } else if s[0] == c {
        0
    } else {
        1 + seek(s.drop_first(), c)
    }
}

/// What `seek` returns: a position at most the length, holding `c` if within
/// range, with no occurrence of `c` before it.
pub proof fn lemma_seek(s: Seq<char>, c: char)
    ensures
        seek(s, c) <= s.len(),
        seek(s, c) < s.len() ==> s[seek(s, c) as int] == c,
        forall|k: int| 0 <= k < seek(s, c) ==> s[k] != c,
    decreases s.len(),
{
    if s.len() == 0 {
    } else if s[0] == c {
    } else {
        lemma_seek(s.drop_first(), c);
        assert forall|k: int| 0 <= k < seek(s, c) implies s[k] != c by {
            if k >= 1 {
                assert(s.drop_first()[k - 1] == s[k]);
            }
        }
    }
}

/// A position with no occurrence of `c` before it, holding `c` if within
/// range, is exactly what `seek` returns.
pub proof fn lemma_seek_is(s: Seq<char>, c: char, r: int)
    requires
        0 <= r <= s.len(),
        forall|k: int| 0 <= k < r ==> s[k] != c,
        r < s.len() ==> s[r] == c,
    ensures
        seek(s, c) == r,
    decreases s.len(),
{
    if s.len() == 0 {
    } else if s[0] == c {
        assert(r == 0);
    } else {
        assert(r >= 1);
        assert forall|k: int| 0 <= k < r - 1 implies s.drop_first()[k] != c by {
            assert(s.drop_first()[k] == s[k + 1]);
        }
        lemma_seek_is(s.drop_first(), c, r - 1);
    }
}

/// The segmentation of a dialogue body (the text after the speaker prefix):
/// repeatedly take the first bracketed match "（…）" — the first '（' that
/// still has a '）' after it, closed at the nearest '）' — emit the text
/// before it (if any) as bold red and the match itself as plain, and recurse
/// on the rest. A body without a match is one bold red span, or nothing if
/// empty.
pub open spec fn seg_body(s: Seq<char>) -> Seq<SpanModel>
    decreases s.len(),
{
    let a = seek(s, '（') as int;
    if a >= s.len() {
        if s.len() == 0 {
            Seq::empty()
        } else {
            seq![red_bold_span(s)]
        }
    } else {
        let b = a + 1 + seek(s.skip(a + 1), '）') as int;
        if b >= s.len() {
            if s.len() == 0 {
                Seq::empty()
            } else {
                seq![red_bold_span(s)]
            }
        } else {
            let head: Seq<SpanModel> = if a > 0 {
                seq![red_bold_span(s.take(a))]
            } else {
                Seq::empty()
            };
            head + seq![plain_span(s.subrange(a, b + 1))] + seg_body(s.skip(b + 1))
        }
    }
}

/// The segmentation of a whole dialogue line: the prefix through and
/// including the first full-width colon is one plain span, and the rest is
/// segmented as a body. A line without a colon is a single plain span.
pub open spec fn dialogue_spans(s: Seq<char>) -> Seq<SpanModel> {
    let p = seek(s, '：') as int;
    if p >= s.len() {
        if s.len() == 0 {
            Seq::empty()
        } else {
            seq![plain_span(s)]
        }
    } else {
        seq![plain_span(s.take(p + 1))] + seg_body(s.skip(p + 1))
    }
}

/// Concatenating the text of a body's spans gives back the body exactly.
pub proof fn lemma_seg_body_lossless(s: Seq<char>)
    ensures
        spans_text(seg_body(s)) == s,
    decreases s.len(),
{
    lemma_seek(s, '（');
    let a = seek(s, '（') as int;
    if a >= s.len() {
        if s.len() == 0 {
            assert(spans_text(seg_body(s)) =~= s);
        } else {
            lemma_spans_text_singleton(red_bold_span(s));
        }
    } else {
        lemma_seek(s.skip(a + 1), '）');
        let b = a + 1 + seek(s.skip(a + 1), '）') as int;
        if b >= s.len() {
            lemma_spans_text_singleton(red_bold_span(s));
        } else {
            let head: Seq<SpanModel> = if a > 0 {
                seq![red_bold_span(s.take(a))]
            } else {
                Seq::empty()
            };
            let mid = seq![plain_span(s.subrange(a, b + 1))];
            let rest = seg_body(s.skip(b + 1));
            lemma_seg_body_lossless(s.skip(b + 1));
            lemma_spans_text_add(head + mid, rest);
            lemma_spans_text_add(head, mid);
            lemma_spans_text_singleton(plain_span(s.subrange(a, b + 1)));
            if a > 0 {
                lemma_spans_text_singleton(red_bold_span(s.take(a)));
            } else {
                assert(spans_text(head) == Seq::<char>::empty());
                assert(spans_text(head) + s.subrange(a, b + 1) =~= s.subrange(a, b + 1));
            }
            assert(s.take(a) + s.subrange(a, b + 1) + s.skip(b + 1) =~= s);
        }
    }
}

/// Concatenating the text of a dialogue line's spans gives back the line.
pub proof fn lemma_dialogue_spans_lossless(s: Seq<char>)
    ensures
        spans_text(dialogue_spans(s)) == s,
{
    lemma_seek(s, '：');
    let p = seek(s, '：') as int;
    if p >= s.len() {
        if s.len() == 0 {
            assert(spans_text(dialogue_spans(s)) =~= s);
        } else {
            lemma_spans_text_singleton(plain_span(s));
        }
    } else {
        lemma_seg_body_lossless(s.skip(p + 1));
        lemma_spans_text_add(seq![plain_span(s.take(p + 1))], seg_body(s.skip(p + 1)));
        lemma_spans_text_singleton(plain_span(s.take(p + 1)));
        assert(s.take(p + 1) + s.skip(p + 1) =~= s);
    }
}

/// Finds the first occurrence of `c` in `s` at or after `from`, returning
/// its index, or the length of `s` if there is none.
fn find_from(s: &Vec<char>, from: usize, c: char) -> (r: usize)
    requires
        from <= s@.len(),
    ensures
        from <= r <= s@.len(),
        r < s@.len() ==> s@[r as int] == c,
        forall|k: int| from <= k < r ==> s@[k] != c,
        r - from == seek(s@.skip(from as int), c),
{
    let n = s.len();
    let mut i: usize = from;
    while i < n && s[i] != c
        invariant
            from <= i <= n,
            n == s@.len(),
            forall|k: int| from <= k < i ==> s@[k] != c,
        decreases n - i,
    {
        i = i + 1;
    }
    proof {
        let sub = s@.skip(from as int);
        assert forall|k: int| 0 <= k < i - from implies sub[k] != c by {
            assert(sub[k] == s@[k + from]);
        }
        if i < n {
            assert(sub[i - from] == s@[i as int]);
        }
        lemma_seek_is(sub, c, i - from);
    }
    i
}

/// Copies the characters of `s` from index `i` (inclusive) to `j`
/// (exclusive).
fn copy_range(s: &Vec<char>, i: usize, j: usize) -> (r: Vec<char>)
    requires
        i <= j <= s@.len(),
    ensures
        r@ == s@.subrange(i as int, j as int),
{
    let mut out: Vec<char> = Vec::new();
    let mut k: usize = i;
    while k < j
        invariant
            i <= k <= j,
            j <= s@.len(),
            out@ == s@.subrange(i as int, k as int),
        decreases j - k,
    {
        out.push(s[k]);
        proof {
            assert(out@ =~= s@.subrange(i as int, k as int + 1));
        }
        k = k + 1;
    }
    out
}

/// Segments one dialogue-category line into its ordered styled spans.
pub fn segment_dialogue(line: &Vec<char>) -> (r: Vec<StyledSpan>)
    ensures
        r@.map_values(|sp: StyledSpan| sp@) == dialogue_spans(line@),
{
    let n = line.len();
    let mut out: Vec<StyledSpan> = Vec::new();
    let p = find_from(line, 0, '：');
    proof {
        assert(line@.skip(0) =~= line@);
    }
    if p == n {
        if n > 0 {
            out.push(StyledSpan { text: copy_range(line, 0, n), bold: false, red: false });
            proof {
                assert(line@.subrange(0, n as int) =~= line@);
                assert(out@.map_values(|sp: StyledSpan| sp@) =~= dialogue_spans(line@));
            }
        } else {
            proof {
                assert(out@.map_values(|sp: StyledSpan| sp@) =~= dialogue_spans(line@));
            }
        }
        return out;
    }
    out.push(StyledSpan { text: copy_range(line, 0, p + 1), bold: false, red: false });
    proof {
        assert(line@.subrange(0, p as int + 1) =~= line@.take(p as int + 1));
        assert(out@.map_values(|sp: StyledSpan| sp@) =~= seq![plain_span(line@.take(p as int + 1))]);
    }
    let mut pos: usize = p + 1;
    let ghost whole: Seq<SpanModel> = dialogue_spans(line@);
    loop
        invariant
            p as int + 1 <= pos as int <= n as int,
            n == line@.len(),
            whole == dialogue_spans(line@),
            whole == out@.map_values(|sp: StyledSpan| sp@) + seg_body(line@.skip(pos as int)),
        decreases n - pos,
    {
        let ghost rem = line@.skip(pos as int);
        let a = find_from(line, pos, '（');
        proof {
            assert(seek(rem, '（') == a - pos) by {
                assert forall|k: int| 0 <= k < a - pos implies rem[k] != '（' by {
                    assert(rem[k] == line@[k + pos]);
                }
                if a < n {
                    assert(rem[a - pos] == line@[a as int]);
                }
                lemma_seek_is(rem, '（', a - pos);
            }
        }
        if a == n {
            // no opening bracket in the rest of the body
            if pos < n {
                out.push(StyledSpan { text: copy_range(line, pos, n), bold: true, red: true });
                proof {
                    assert(line@.subrange(pos as int, n as int) =~= rem);
                    assert(seg_body(rem) == seq![red_bold_span(rem)]);
                    assert(out@.map_values(|sp: StyledSpan| sp@) =~= whole);
                }
            } else {
                proof {
                    assert(rem =~= Seq::<char>::empty());
                    assert(seg_body(rem) =~= Seq::<SpanModel>::empty());
                    assert(out@.map_values(|sp: StyledSpan| sp@) + seg_body(rem)
                        =~= out@.map_values(|sp: StyledSpan| sp@));
                }
            }
            return out;
        }
        let b = find_from(line, a + 1, '）');
        proof {
            let arel = a as int - pos;
            let tail = line@.skip(a as int + 1);
            assert(rem.skip(arel + 1) =~= tail);
            assert(seek(rem.skip(arel + 1), '）') == b - a - 1) by {
                assert forall|k: int| 0 <= k < b - a - 1 implies tail[k] != '）' by {
                    assert(tail[k] == line@[k + a + 1]);
                }
                if b < n {
                    assert(tail[b - a - 1] == line@[b as int]);
                }
                lemma_seek_is(tail, '）', b as int - a - 1);
            }
        }
        if b == n {
            // an opening bracket with no closer is never matched
            out.push(StyledSpan { text: copy_range(line, pos, n), bold: true, red: true });
            proof {
                assert(line@.subrange(pos as int, n as int) =~= rem);
                assert(seg_body(rem) == seq![red_bold_span(rem)]);
                assert(out@.map_values(|sp: StyledSpan| sp@) =~= whole);
            }
            return out;
        }
        // a full match （…） from a to b; text since pos (if any) is bold red
        let ghost out_pre = out@.map_values(|sp: StyledSpan| sp@);
        let ghost arel = a as int - pos;
        let ghost brel = b as int - pos;
        if a > pos {
            out.push(StyledSpan { text: copy_range(line, pos, a), bold: true, red: true });
            proof {
                assert(line@.subrange(pos as int, a as int) =~= rem.take(arel));
                assert(out@.map_values(|sp: StyledSpan| sp@)
                    =~= out_pre + seq![red_bold_span(rem.take(arel))]);
            }
        }
        out.push(StyledSpan { text: copy_range(line, a, b + 1), bold: false, red: false });
        proof {
            let head: Seq<SpanModel> = if arel > 0 {
                seq![red_bold_span(rem.take(arel))]
            } else {
                Seq::empty()
            };
            assert(line@.subrange(a as int, b as int + 1) =~= rem.subrange(arel, brel + 1));
            assert(out@.map_values(|sp: StyledSpan| sp@)
                =~= out_pre + head + seq![plain_span(rem.subrange(arel, brel + 1))]);
            assert(rem.skip(brel + 1) =~= line@.skip(b as int + 1));
            assert(seg_body(rem) == head + seq![plain_span(rem.subrange(arel, brel + 1))]
                + seg_body(line@.skip(b as int + 1)));
            assert(out_pre + (head + seq![plain_span(rem.subrange(arel, brel + 1))]
                + seg_body(line@.skip(b as int + 1)))
                =~= out_pre + head + seq![plain_span(rem.subrange(arel, brel + 1))]
                + seg_body(line@.skip(b as int + 1)));
        }
        pos = b + 1;
    }
}

} // verus!
