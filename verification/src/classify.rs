//! Line classification: every non-empty logical line falls into exactly one
//! of three categories, decided by an ordered pattern precedence over the
//! whole line. Precedence is absolute; no content heuristic overrides it.

use vstd::prelude::*;

verus! {

/// The category of a logical line. Plain lines with no special prefix fall
/// back to `Dialogue`; stage-direction lines beginning with '△' render
/// identically to plain dialogue and need no category of their own.
#[derive(Clone, Copy, Debug, PartialEq, Eq, Structural)]
pub enum LineCategory {
    SceneOrCastHeading,
    BracketedAside,
    Dialogue,
}

/// An ASCII decimal digit.
pub open spec fn is_ascii_digit_char(c: char) -> bool {
    48 <= c as u32 && c as u32 <= 57
}

/// A scene or cast heading: the line starts with '第' and contains '集'
/// later, or starts with "人物", or starts with an ASCII digit.
pub open spec fn is_heading(s: Seq<char>) -> bool {
    ||| (s.len() > 0 && s[0] == '第' && exists|i: int| 1 <= i < s.len() && #[trigger] s[i] == '集')
    ||| (s.len() >= 2 && s[0] == '人' && s[1] == '物')
    ||| (s.len() > 0 && is_ascii_digit_char(s[0]))
}

/// The category of a line, by precedence: heading patterns first, then the
/// opening full-width bracket '【', then the dialogue fallback.
pub open spec fn category_of(s: Seq<char>) -> LineCategory {
    if is_heading(s) {
        LineCategory::SceneOrCastHeading
    } else if s.len() > 0 && s[0] == '【' {
        LineCategory::BracketedAside
    } else {
        LineCategory::Dialogue
    }
}

/// Classifies one non-empty logical line.
pub fn classify(line: &Vec<char>) -> (r: LineCategory)
    requires
        line@.len() > 0,
    ensures
        r == category_of(line@),
{
    let n = line.len();
    let c0 = line[0];
    if c0 == '第' {
        let mut i: usize = 1;
        while i < n
            invariant
                1 <= i <= n,
                n == line@.len(),
                line@[0] == '第',
                forall|k: int| 1 <= k < i ==> line@[k] != '集',
            decreases n - i,
        {
            if line[i] == '集' {
                proof {
                    assert(is_heading(line@)) by {
                        assert(1 <= i as int && (i as int) < line@.len() && line@[i as int] == '集');
                    }
                }
                return LineCategory::SceneOrCastHeading;
            }
            i = i + 1;
        }
        return LineCategory::Dialogue;
    }
    if c0 == '人' && n >= 2 && line[1] == '物' {
        return LineCategory::SceneOrCastHeading;
    }
    let u = c0 as u32;
    if 48 <= u && u <= 57 {
        return LineCategory::SceneOrCastHeading;
    }
    if c0 == '【' {
        return LineCategory::BracketedAside;
    }
    LineCategory::Dialogue
}

} // verus!
