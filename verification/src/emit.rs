//! The styled run emitter: turns one normalized logical line into its
//! ordered styled spans and the paragraph-level style decision.

use vstd::prelude::*;

use crate::classify::{classify, is_heading, LineCategory};
use crate::normalize::{normalize_line, normalized};
use crate::segment::{dialogue_spans, lemma_dialogue_spans_lossless, segment_dialogue};
use crate::span::{
    bold_span, lemma_spans_text_singleton, spans_text, FormattedLine, LineModel, ParagraphStyle,
    SpanModel, StyledSpan,
};

verus! {

/// The spans emitted for one normalized line: a heading or a bracketed aside
/// is a single bold span with the unmodified text; anything else is
/// segmented as dialogue.
pub open spec fn line_spans(s: Seq<char>) -> Seq<SpanModel> {
    if is_heading(s) {
        seq![bold_span(s)]
    } else if s.len() > 0 && s[0] == '【' {
        seq![bold_span(s)]
    } else {
        dialogue_spans(s)
    }
}

/// The paragraph style decided for one normalized line: the heading
/// treatment for scene or cast headings, the body treatment otherwise.
pub open spec fn line_style(s: Seq<char>) -> ParagraphStyle {
    if is_heading(s) {
        ParagraphStyle::Heading
    } else {
        ParagraphStyle::Default
    }
}

/// The full output for one normalized line.
pub open spec fn line_out(s: Seq<char>) -> LineModel {
    LineModel { style: line_style(s), spans: line_spans(s) }
}

/// Concatenating the emitted spans' text reconstructs the normalized line
/// exactly: no characters are dropped or duplicated.
pub proof fn lemma_line_lossless(s: Seq<char>)
    ensures
        spans_text(line_spans(s)) == s,
{
    if is_heading(s) || (s.len() > 0 && s[0] == '【') {
        lemma_spans_text_singleton(bold_span(s));
    } else {
        lemma_dialogue_spans_lossless(s);
    }
}

/// Processes one raw non-empty logical line: normalizes it, classifies it,
/// and emits the styled spans and the paragraph style decision.
pub fn process_line(line: &Vec<char>) -> (r: FormattedLine)
    requires
        line@.len() > 0,
    ensures
        r@ == line_out(normalized(line@)),
{
    let t = normalize_line(line);
    let cat = classify(&t);
    let ghost tv = t@;
    match cat {
        LineCategory::SceneOrCastHeading => {
            let mut spans: Vec<StyledSpan> = Vec::new();
            spans.push(StyledSpan { text: t, bold: true, red: false });
            proof {
                assert(spans@.map_values(|sp: StyledSpan| sp@) =~= seq![bold_span(tv)]);
            }
            FormattedLine { style: ParagraphStyle::Heading, spans }
        },
        LineCategory::BracketedAside => {
            let mut spans: Vec<StyledSpan> = Vec::new();
            spans.push(StyledSpan { text: t, bold: true, red: false });
            proof {
                assert(spans@.map_values(|sp: StyledSpan| sp@) =~= seq![bold_span(tv)]);
            }
            FormattedLine { style: ParagraphStyle::Default, spans }
        },
        LineCategory::Dialogue => {
            let spans = segment_dialogue(&t);
            FormattedLine { style: ParagraphStyle::Default, spans }
        },
    }
}

} // verus!
