//! The output vocabulary: styled text spans and the paragraph-level style
//! decision handed to a document writer.

use vstd::prelude::*;

verus! {

/// Paragraph-level visual treatment: a heading gets the distinct size and
/// spacing, everything else the body treatment.
#[derive(Clone, Copy, Debug, PartialEq, Eq, Structural)]
pub enum ParagraphStyle {
    Heading,
    Default,
}

/// The smallest emitted unit: a run of text together with its emphasis flags
/// (bold, red color).
#[derive(Debug)]
pub struct StyledSpan {
    pub text: Vec<char>,
    pub bold: bool,
    pub red: bool,
}

/// Mathematical model of a styled span.
pub struct SpanModel {
    pub text: Seq<char>,
    pub bold: bool,
    pub red: bool,
}

impl View for StyledSpan {
    type V = SpanModel;

    open spec fn view(&self) -> SpanModel {
        SpanModel { text: self.text@, bold: self.bold, red: self.red }
    }
}

/// A span with no emphasis at all.
pub open spec fn plain_span(t: Seq<char>) -> SpanModel {
    SpanModel { text: t, bold: false, red: false }
}

/// A bold span without color.
pub open spec fn bold_span(t: Seq<char>) -> SpanModel {
    SpanModel { text: t, bold: true, red: false }
}

/// A bold span colored red: highlighted spoken dialogue.
pub open spec fn red_bold_span(t: Seq<char>) -> SpanModel {
    SpanModel { text: t, bold: true, red: true }
}

/// Concatenation of the text of a sequence of spans.
pub open spec fn spans_text(spans: Seq<SpanModel>) -> Seq<char>
    decreases spans.len(),
{
    if spans.len() == 0 {
        Seq::empty()
    } else {
        spans_text(spans.drop_last()) + spans.last().text
    }
}

/// Span text concatenation distributes over sequence concatenation.
pub proof fn lemma_spans_text_add(a: Seq<SpanModel>, b: Seq<SpanModel>)
    ensures
        spans_text(a + b) == spans_text(a) + spans_text(b),
    decreases b.len(),
{
    if b.len() == 0 {
        assert(a + b =~= a);
        assert(spans_text(a) + Seq::<char>::empty() =~= spans_text(a));
    } else {
        lemma_spans_text_add(a, b.drop_last());
        assert((a + b).drop_last() =~= a + b.drop_last());
        assert(spans_text(a) + spans_text(b.drop_last()) + b.last().text
            =~= spans_text(a) + (spans_text(b.drop_last()) + b.last().text));
    }
}

/// The text of a single span is its own concatenation.
pub proof fn lemma_spans_text_singleton(sp: SpanModel)
    ensures
        spans_text(seq![sp]) == sp.text,
{
    let s = seq![sp];
    assert(s.drop_last() =~= Seq::<SpanModel>::empty());
    assert(spans_text(s.drop_last()) == Seq::<char>::empty());
    assert(s.last() == sp);
    assert(Seq::<char>::empty() + sp.text =~= sp.text);
}

/// A formatted logical line: the paragraph style decision and the ordered
/// spans whose concatenated text reconstructs the normalized line.
pub struct FormattedLine {
    pub style: ParagraphStyle,
    pub spans: Vec<StyledSpan>,
}

/// Mathematical model of a formatted line.
pub struct LineModel {
    pub style: ParagraphStyle,
    pub spans: Seq<SpanModel>,
}

impl View for FormattedLine {
    type V = LineModel;

    open spec fn view(&self) -> LineModel {
        LineModel { style: self.style, spans: self.spans@.map_values(|sp: StyledSpan| sp@) }
    }
}

} // verus!
