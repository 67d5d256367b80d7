use mathjax_preprocessor::Kind;
use mathjax_preprocessor::MathJaxPreprocessor;
use mathjax_preprocessor::Mathematics;
use mathjax_preprocessor::find_mathematics;
use mathjax_preprocessor::replace_all_mathematics;
use mathjax_preprocessor::strip_delimiters_from_delimited_text;

#[test]
fn should_find_no_mathematics_in_regular_text() {
    let content = "Text without mathematics";

    assert_eq!(find_mathematics(content).len(), 0);
}

#[test]
fn should_find_no_mathematics_in_regular_text_with_a_single_dollar_sign() {
    let content = "Text with a single $ mathematics";

    assert_eq!(find_mathematics(content).len(), 0);
}

#[test]
fn should_find_no_mathematics_when_delimiters_do_not_match() {
    let content = "$$Text with a non matching delimiters mathematics\\]";

    assert_eq!(find_mathematics(content).len(), 0);
}

#[test]
fn should_find_mathematics_spanning_over_multiple_lines() {
    let content = "Mathematics $a +\n b$ over multiple lines";

    assert_eq!(find_mathematics(content).len(), 1);
}

#[test]
fn should_find_inline_mathematics() {
    let content = "Pythagorean theorem: $a^{2} + b^{2} = c^{2}$";

    let result = find_mathematics(content);

    assert_eq!(result.len(), 1);
    assert_eq!(
        result[0],
        Mathematics {
            start_index: 21,
            end_index: 44,
            kind: Kind::Inline,
            text: "a^{2} + b^{2} = c^{2}",
        }
    )
}

#[test]
fn should_find_block_mathematics() {
    let content = "Euler's identity: $$e^{i\\pi} + 1 = 0$$";

    let result = find_mathematics(content);

    assert_eq!(result.len(), 1);
    assert_eq!(
        result[0],
        Mathematics {
            start_index: 18,
            end_index: 38,
            kind: Kind::Block,
            text: "e^{i\\pi} + 1 = 0",
        }
    )
}

#[test]
fn should_find_legacy_inline_mathematics() {
    let content = r"Pythagorean theorem: \\(a^{2} + b^{2} = c^{2}\\)";

    let result = find_mathematics(content);

    assert_eq!(result.len(), 1);
    assert_eq!(
        result[0],
        Mathematics {
            start_index: 21,
            end_index: 48,
            kind: Kind::LegacyInline,
            text: "a^{2} + b^{2} = c^{2}",
        }
    )
}

#[test]
fn should_find_legacy_block_mathematics() {
    let content = r"Euler's identity: \\[e^{i\pi} + 1 = 0\\]";

    let result = find_mathematics(content);

    assert_eq!(result.len(), 1);
    assert_eq!(
        result[0],
        Mathematics {
            start_index: 18,
            end_index: 40,
            kind: Kind::LegacyBlock,
            text: "e^{i\\pi} + 1 = 0",
        }
    )
}

#[test]
fn should_replace_inline_mathematics() {
    let content = "Pythagorean theorem: $a^{2} + b^{2} = c^{2}$";

    let result = replace_all_mathematics(content);

    assert_eq!(
        result,
        "Pythagorean theorem: <span class=\"inline math\">$a^{2} + b^{2} = c^{2}$</span>"
    )
}

#[test]
fn should_replace_block_mathematics() {
    let content = "Euler's identity: $$e^{i\\pi} + 1 = 0$$";

    let result = replace_all_mathematics(content);

    assert_eq!(result, "Euler's identity: <div class=\"math\">$$e^{i\\pi} + 1 = 0$$</div>")
}

#[test]
fn should_keep_the_empty_string_unchanged() {
    assert_eq!(replace_all_mathematics(""), "");
}

#[test]
fn should_keep_text_without_delimiters_unchanged() {
    let content = "Nothing mathematical here, not even one marker.";

    assert_eq!(replace_all_mathematics(content), content);
}

#[test]
fn should_keep_text_with_a_dangling_dollar_sign_unchanged() {
    let content = "An unterminated $ stays literal text";

    assert_eq!(replace_all_mathematics(content), content);
}

#[test]
fn should_find_the_inner_text_of_a_multi_line_span() {
    let content = "Mathematics $a +\n b$ over multiple lines";

    let result = find_mathematics(content);

    assert_eq!(result.len(), 1);
    assert_eq!(
        result[0],
        Mathematics { start_index: 12, end_index: 20, kind: Kind::Inline, text: "a +\n b" }
    )
}

#[test]
fn should_never_match_an_empty_block_span() {
    assert_eq!(find_mathematics("$$$$").len(), 0);
    assert_eq!(replace_all_mathematics("$$$$"), "$$$$");
}

#[test]
fn should_not_split_a_double_dollar_pair_into_two_inline_matches() {
    let content = "Euler's identity: $$e^{i\\pi} + 1 = 0$$";

    let result = find_mathematics(content);

    assert_eq!(result.len(), 1);
    assert_eq!(result[0].kind, Kind::Block);
}

#[test]
fn should_step_over_an_escaped_dollar_sign_in_block_mathematics() {
    let content = "$$a\\$b$$";

    let result = find_mathematics(content);

    assert_eq!(result.len(), 1);
    assert_eq!(
        result[0],
        Mathematics { start_index: 0, end_index: 8, kind: Kind::Block, text: "a\\$b" }
    )
}

#[test]
fn should_replace_legacy_inline_mathematics() {
    let content = r"Pythagorean theorem: \\(a^{2} + b^{2} = c^{2}\\)";

    let result = replace_all_mathematics(content);

    assert_eq!(
        result,
        "Pythagorean theorem: <span class=\"inline math\">$a^{2} + b^{2} = c^{2}$</span>"
    )
}

#[test]
fn should_replace_legacy_block_mathematics() {
    let content = r"Euler's identity: \\[e^{i\pi} + 1 = 0\\]";

    let result = replace_all_mathematics(content);

    assert_eq!(result, "Euler's identity: <div class=\"math\">$$e^{i\\pi} + 1 = 0$$</div>")
}

#[test]
fn should_replace_several_spans_in_order_and_copy_the_gaps_verbatim() {
    let content = "a $x$ b $$y$$ c";

    let result = replace_all_mathematics(content);

    assert_eq!(
        result,
        "a <span class=\"inline math\">$x$</span> b <div class=\"math\">$$y$$</div> c"
    );
}

#[test]
fn should_replace_in_a_single_pass_only() {
    let content = "$x$";

    let once = replace_all_mathematics(content);

    assert_eq!(once, "<span class=\"inline math\">$x$</span>");
}

#[test]
fn should_strip_delimiters_by_fixed_length_per_convention() {
    assert_eq!(strip_delimiters_from_delimited_text(&Kind::Block, "$$a$$"), "a");
    assert_eq!(strip_delimiters_from_delimited_text(&Kind::Inline, "$a$"), "a");
    assert_eq!(strip_delimiters_from_delimited_text(&Kind::LegacyInline, r"\\(a\\)"), "a");
    assert_eq!(strip_delimiters_from_delimited_text(&Kind::LegacyBlock, r"\\[a\\]"), "a");
}

#[test]
fn should_report_its_name() {
    let preprocessor = MathJaxPreprocessor::new();

    assert_eq!(preprocessor.name(), "mathjax");
}

#[test]
fn should_fall_back_to_inline_when_a_double_dollar_pair_never_closes() {
    let content = "$$x$";

    let result = find_mathematics(content);

    assert_eq!(result.len(), 1);
    assert_eq!(
        result[0],
        Mathematics { start_index: 1, end_index: 4, kind: Kind::Inline, text: "x" }
    );
    assert_eq!(replace_all_mathematics(content), "$<span class=\"inline math\">$x$</span>");
}

#[test]
fn should_close_a_legacy_span_at_the_first_closing_token() {
    let content = r"\\(a\\)b\\)";

    let result = find_mathematics(content);

    assert_eq!(result.len(), 1);
    assert_eq!(
        result[0],
        Mathematics { start_index: 0, end_index: 7, kind: Kind::LegacyInline, text: "a" }
    );
    assert_eq!(
        replace_all_mathematics(content),
        r#"<span class="inline math">$a$</span>b\\)"#
    );
}
