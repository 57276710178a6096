//! The style vocabulary exposed to the document writer: the heading
//! treatment (bold, fixed larger size, fixed spacing before and after, an
//! automatic line rule) and the body treatment (fixed body size, a named
//! East-Asian/Latin font pairing). Sizes are in half points; spacing values
//! are in the writer's twentieths of a point.

use vstd::prelude::*;

verus! {

/// The fixed parameters of the heading paragraph treatment.
pub struct HeadingTreatment {
    pub size_half_points: u32,
    pub bold: bool,
    pub spacing_before: u32,
    pub spacing_after: u32,
    pub line: u32,
    pub automatic_line_rule: bool,
}

/// The heading treatment: bold text at 32 half points, 260 twentieths of a
/// point of spacing before and after, a line height of 413 under an
/// automatic line rule.
pub fn heading_treatment() -> (r: HeadingTreatment)
    ensures
        r.size_half_points == 32,
        r.bold,
        r.spacing_before == 260,
        r.spacing_after == 260,
        r.line == 413,
        r.automatic_line_rule,
{
    HeadingTreatment {
        size_half_points: 32,
        bold: true,
        spacing_before: 260,
        spacing_after: 260,
        line: 413,
        automatic_line_rule: true,
    }
}

/// The fixed body size, in half points.
pub fn body_size_half_points() -> (r: u32)
    ensures
        r == 24,
{
    24
}

/// The East-Asian font of the default pairing.
pub fn east_asia_font() -> (r: &'static str)
    ensures
        r@ == "宋体"@,
{
    "宋体"
}

/// The Latin font of the default pairing.
pub fn latin_font() -> (r: &'static str)
    ensures
        r@ == "Times New Roman"@,
{
    "Times New Roman"
}

} // verus!
