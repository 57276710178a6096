use script_formatter::classify::{classify, LineCategory};
use script_formatter::emit::process_line;
use script_formatter::normalize::normalize_line;
use script_formatter::paragraph::{process_paragraph, split_lines, ParaItem};
use script_formatter::segment::segment_dialogue;
use script_formatter::span::{FormattedLine, ParagraphStyle, StyledSpan};
use script_formatter::style::{body_size_half_points, east_asia_font, heading_treatment, latin_font};

fn cv(s: &str) -> Vec<char> {
    s.chars().collect()
}

fn text_of(sp: &StyledSpan) -> String {
    sp.text.iter().collect()
}

fn span_triple(sp: &StyledSpan) -> (String, bool, bool) {
    (text_of(sp), sp.bold, sp.red)
}

fn line_concat(fl: &FormattedLine) -> String {
    fl.spans.iter().map(text_of).collect::<Vec<String>>().join("")
}

#[test]
fn digit_line_is_heading_never_dialogue() {
    assert_eq!(classify(&cv("3")), LineCategory::SceneOrCastHeading);
    let fl = process_line(&cv("3"));
    assert_eq!(fl.style, ParagraphStyle::Heading);
    assert_eq!(fl.spans.len(), 1);
    assert_eq!(span_triple(&fl.spans[0]), ("3".to_string(), true, false));
}

#[test]
fn episode_heading_with_later_ji() {
    assert_eq!(classify(&cv("第1集")), LineCategory::SceneOrCastHeading);
    assert_eq!(classify(&cv("第十二集 重逢")), LineCategory::SceneOrCastHeading);
}

#[test]
fn di_prefix_without_ji_is_dialogue() {
    assert_eq!(classify(&cv("第二天早上")), LineCategory::Dialogue);
}

#[test]
fn cast_list_heading() {
    assert_eq!(classify(&cv("人物表")), LineCategory::SceneOrCastHeading);
    assert_eq!(classify(&cv("人物")), LineCategory::SceneOrCastHeading);
}

#[test]
fn lone_ren_is_dialogue() {
    assert_eq!(classify(&cv("人")), LineCategory::Dialogue);
}

#[test]
fn dialogue_with_one_bracket() {
    let fl = process_line(&cv("张三：你好（笑）再见"));
    assert_eq!(fl.style, ParagraphStyle::Default);
    let got: Vec<(String, bool, bool)> = fl.spans.iter().map(span_triple).collect();
    assert_eq!(
        got,
        vec![
            ("张三：".to_string(), false, false),
            ("你好".to_string(), true, true),
            ("（笑）".to_string(), false, false),
            ("再见".to_string(), true, true),
        ]
    );
}

#[test]
fn bracket_right_after_colon_no_empty_spans() {
    let fl = process_line(&cv("张三：（笑）"));
    let got: Vec<(String, bool, bool)> = fl.spans.iter().map(span_triple).collect();
    assert_eq!(
        got,
        vec![("张三：".to_string(), false, false), ("（笑）".to_string(), false, false)]
    );
}

#[test]
fn bracketed_aside_line_single_bold_span() {
    assert_eq!(classify(&cv("【旁白】画外音")), LineCategory::BracketedAside);
    let fl = process_line(&cv("【旁白】画外音"));
    assert_eq!(fl.style, ParagraphStyle::Default);
    assert_eq!(fl.spans.len(), 1);
    assert_eq!(span_triple(&fl.spans[0]), ("【旁白】画外音".to_string(), true, false));
}

#[test]
fn stage_direction_single_default_span() {
    assert_eq!(classify(&cv("△他转身离开")), LineCategory::Dialogue);
    let fl = process_line(&cv("△他转身离开"));
    assert_eq!(fl.style, ParagraphStyle::Default);
    assert_eq!(fl.spans.len(), 1);
    assert_eq!(span_triple(&fl.spans[0]), ("△他转身离开".to_string(), false, false));
}

#[test]
fn leading_at_sign_becomes_triangle() {
    let fl = process_line(&cv("@他转身离开"));
    assert_eq!(fl.spans.len(), 1);
    assert_eq!(span_triple(&fl.spans[0]), ("△他转身离开".to_string(), false, false));
}

#[test]
fn ascii_colon_is_normalized() {
    let fl = process_line(&cv("张三:你好"));
    let got: Vec<(String, bool, bool)> = fl.spans.iter().map(span_triple).collect();
    assert_eq!(
        got,
        vec![("张三：".to_string(), false, false), ("你好".to_string(), true, true)]
    );
}

#[test]
fn normalization_is_idempotent_on_a_sample() {
    let once = normalize_line(&cv("@a:b:@c"));
    let twice = normalize_line(&once);
    assert_eq!(once, twice);
    let s: String = once.iter().collect();
    assert_eq!(s, "△a：b：@c");
}

#[test]
fn no_colon_line_is_one_plain_span_even_with_brackets() {
    let fl = process_line(&cv("（笑）他走了"));
    assert_eq!(fl.spans.len(), 1);
    assert_eq!(span_triple(&fl.spans[0]), ("（笑）他走了".to_string(), false, false));
}

#[test]
fn unterminated_bracket_is_highlighted_dialogue() {
    let fl = process_line(&cv("张三：你好（笑"));
    let got: Vec<(String, bool, bool)> = fl.spans.iter().map(span_triple).collect();
    assert_eq!(
        got,
        vec![("张三：".to_string(), false, false), ("你好（笑".to_string(), true, true)]
    );
}

#[test]
fn adjacent_brackets_no_empty_span_between() {
    let fl = process_line(&cv("张三：（一）（二）了"));
    let got: Vec<(String, bool, bool)> = fl.spans.iter().map(span_triple).collect();
    assert_eq!(
        got,
        vec![
            ("张三：".to_string(), false, false),
            ("（一）".to_string(), false, false),
            ("（二）".to_string(), false, false),
            ("了".to_string(), true, true),
        ]
    );
}

#[test]
fn open_bracket_inside_unterminated_bracket_does_not_nest() {
    // the first opening bracket still has a closer, so the match runs to it
    let fl = process_line(&cv("张三：（a（b）c"));
    let got: Vec<(String, bool, bool)> = fl.spans.iter().map(span_triple).collect();
    assert_eq!(
        got,
        vec![("张三：".to_string(), false, false), ("（a（b）".to_string(), false, false), (
            "c".to_string(),
            true,
            true,
        )]
    );
}

#[test]
fn colon_as_last_character_keeps_prefix_only() {
    let fl = process_line(&cv("张三："));
    let got: Vec<(String, bool, bool)> = fl.spans.iter().map(span_triple).collect();
    assert_eq!(got, vec![("张三：".to_string(), false, false)]);
}

#[test]
fn only_first_colon_splits() {
    let fl = process_line(&cv("张三：你：好"));
    let got: Vec<(String, bool, bool)> = fl.spans.iter().map(span_triple).collect();
    assert_eq!(
        got,
        vec![("张三：".to_string(), false, false), ("你：好".to_string(), true, true)]
    );
}

#[test]
fn break_only_paragraph_yields_zero_lines() {
    let out = process_paragraph(&vec![ParaItem::Break]);
    assert_eq!(out.len(), 0);
}

#[test]
fn empty_paragraph_yields_zero_lines() {
    let out = process_paragraph(&vec![]);
    assert_eq!(out.len(), 0);
}

#[test]
fn breaks_split_into_logical_lines() {
    let items = vec![
        ParaItem::Text(cv("第1集")),
        ParaItem::Break,
        ParaItem::Text(cv("张三：你好")),
        ParaItem::Break,
        ParaItem::Break,
        ParaItem::Text(cv("△转场")),
    ];
    let lines = split_lines(&items);
    let texts: Vec<String> = lines.iter().map(|l| l.iter().collect()).collect();
    assert_eq!(texts, vec!["第1集".to_string(), "张三：你好".to_string(), "△转场".to_string()]);
    let out = process_paragraph(&items);
    assert_eq!(out.len(), 3);
    assert_eq!(out[0].style, ParagraphStyle::Heading);
    assert_eq!(out[1].style, ParagraphStyle::Default);
    assert_eq!(out[2].style, ParagraphStyle::Default);
}

#[test]
fn line_feed_inside_fragment_also_splits() {
    let items = vec![ParaItem::Text(cv("a\nb"))];
    let lines = split_lines(&items);
    let texts: Vec<String> = lines.iter().map(|l| l.iter().collect()).collect();
    assert_eq!(texts, vec!["a".to_string(), "b".to_string()]);
}

#[test]
fn fragments_without_breaks_join_into_one_line() {
    let items = vec![ParaItem::Text(cv("张三：你")), ParaItem::Text(cv("好"))];
    let lines = split_lines(&items);
    let texts: Vec<String> = lines.iter().map(|l| l.iter().collect()).collect();
    assert_eq!(texts, vec!["张三：你好".to_string()]);
}

#[test]
fn paragraph_concatenation_is_lossless_modulo_normalization() {
    let items = vec![
        ParaItem::Text(cv("a:b（c）x")),
        ParaItem::Break,
        ParaItem::Text(cv("@d")),
    ];
    let out = process_paragraph(&items);
    let emitted: String = out.iter().map(line_concat).collect::<Vec<String>>().join("");
    let lines = split_lines(&items);
    let expected: String = lines
        .iter()
        .map(|l| normalize_line(l).iter().collect::<String>())
        .collect::<Vec<String>>()
        .join("");
    assert_eq!(emitted, expected);
    assert_eq!(emitted, "a：b（c）x△d");
}

#[test]
fn dialogue_segmenter_alone_matches_process_line() {
    let norm = normalize_line(&cv("张三：你好（笑）"));
    let spans = segment_dialogue(&norm);
    let got: Vec<(String, bool, bool)> = spans.iter().map(span_triple).collect();
    assert_eq!(
        got,
        vec![
            ("张三：".to_string(), false, false),
            ("你好".to_string(), true, true),
            ("（笑）".to_string(), false, false),
        ]
    );
}

#[test]
fn heading_treatment_values() {
    let h = heading_treatment();
    assert_eq!(h.size_half_points, 32);
    assert!(h.bold);
    assert_eq!(h.spacing_before, 260);
    assert_eq!(h.spacing_after, 260);
    assert_eq!(h.line, 413);
    assert!(h.automatic_line_rule);
    assert_eq!(body_size_half_points(), 24);
    assert_eq!(east_asia_font(), "宋体");
    assert_eq!(latin_font(), "Times New Roman");
}
