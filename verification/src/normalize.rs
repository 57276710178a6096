//! Typography normalization applied to every logical line before
//! classification: a leading literal '@' becomes the stage-direction glyph
//! '△' and every ASCII colon becomes the full-width colon '：'.

use vstd::prelude::*;

verus! {

/// Colon normalization for a single character.
pub open spec fn norm_char(c: char) -> char {
    if c == ':' {
        '：'
    } else {
        c
    }
}

/// The normalized form of a line: a leading '@' is rewritten to '△', and any
/// ASCII colon to the full-width colon '：'. Length is preserved.
pub open spec fn normalized(s: Seq<char>) -> Seq<char> {
    Seq::new(
        s.len(),
        |i: int|
            if i == 0 && s[0] == '@' {
                '△'
            } else {
                norm_char(s[i])
            },
    )
}

/// Normalizes one line of text.
pub fn normalize_line(line: &Vec<char>) -> (r: Vec<char>)
    ensures
        r@ == normalized(line@),
{
    let n = line.len();
    let mut out: Vec<char> = Vec::new();
    let mut i: usize = 0;
    while i < n
        invariant
            i <= n,
            n == line@.len(),
            out@ == normalized(line@).take(i as int),
        decreases n - i,
    {
        let c = line[i];
        let d = if i == 0 && c == '@' {
            '△'
        } else if c == ':' {
            '：'
        } else {
            c
        };
        out.push(d);
        proof {
            assert(out@ =~= normalized(line@).take(i as int + 1));
        }
        i = i + 1;
    }
    proof {
        assert(normalized(line@).take(n as int) =~= normalized(line@));
    }
    out
}

/// Normalization is idempotent: applying it twice equals applying it once.
pub proof fn lemma_normalized_idempotent(s: Seq<char>)
    ensures
        normalized(normalized(s)) == normalized(s),
{
    let t = normalized(s);
    assert forall|i: int| 0 <= i < t.len() implies normalized(t)[i] == t[i] by {
        if i == 0 {
            assert(t[0] != '@');
        }
    }
    assert(normalized(t) =~= t);
}

} // verus!
