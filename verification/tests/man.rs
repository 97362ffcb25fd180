use mogwai_server::ansi::strip_ansi;
use mogwai_server::man::{list_topics, run, ManShelf, ManTopic};
use mogwai_server::markdown::{DocEvent, Tag, TagEnd};
use mogwai_server::page::pad;
use mogwai_server::render::{render, render_events};

const STRIKE_ON: &str = "\x1b[9m";
const STRIKE_OFF: &str = "\x1b[29m";

#[test]
fn strikethrough_uses_ansi_crossed_out() {
    let out = render("~~gone~~", false);
    assert!(out.contains(STRIKE_ON), "missing strike-on escape");
    assert!(out.contains(STRIKE_OFF), "missing strike-off escape");
    assert!(out.contains("gone"));
    assert!(!out.contains("~~"), "literal tildes should not leak");
}

#[test]
fn heading_is_styled() {
    let out = render("## Operator precedence\n\nbody", false);
    assert!(out.contains("Operator precedence"));
    assert!(out.contains("\x1b["), "heading should carry ANSI styling");
    assert_eq!(
        out,
        "\n\x1b[38;2;240;113;120;1m##\x1b[0m \x1b[38;2;240;113;120;1mOperator precedence\x1b[0m\n\nbody\n\n"
    );
}

#[test]
fn a_first_level_heading_stands_on_a_bar() {
    let out = render("# Top", false);
    let bar = "\x1b[38;2;240;113;120;100;1m";
    assert_eq!(
        out,
        format!("\n{bar} \x1b[0m{bar}Top\x1b[0m{bar} \x1b[0m\n\n")
    );
}

#[test]
fn table_is_aligned() {
    let out = render("| A | B |\n| --- | --- |\n| 1 | 2 |\n", false);
    assert!(
        out.contains('A') && out.contains('2'),
        "table cells missing: {out:?}"
    );
}

#[test]
fn a_table_pads_its_cells_to_their_column() {
    let out = render(
        "| Name | B |\n| --- | --- |\n| x | longer |\n| only |\n",
        true,
    );
    assert_eq!(
        out,
        "\n Name | B     \n ----+--------\n x    | longer\n only |       \n\n"
    );
}

#[test]
fn code_fence_keeps_language_and_body() {
    let out = render("```pine\nplot(close)\n```", false);
    assert!(out.contains("```pine"), "fence language preserved");
    assert!(out.contains("plot(close)"), "code body preserved");
}

#[test]
fn a_code_fence_drops_what_follows_its_language() {
    assert_eq!(
        render("```rust ignore\nx\n```", true),
        "\n```rust\nx\n```\n\n"
    );
}

#[test]
fn alert_note_has_label() {
    let out = render("> [!NOTE]\n> body", false);
    assert!(out.contains("NOTE"), "alert label missing: {out:?}");
}

#[test]
fn every_alert_has_its_sign_and_label() {
    for (kind, head) in [
        ("NOTE", "| i NOTE\n"),
        ("TIP", "| * TIP\n"),
        ("IMPORTANT", "| ! IMPORTANT\n"),
        ("WARNING", "| ! WARNING\n"),
        ("CAUTION", "| x CAUTION\n"),
    ] {
        let out = render(&format!("> [!{kind}]\n> body"), true);
        assert!(out.contains(head), "{kind}: {out:?}");
    }
}

#[test]
fn no_color_is_escape_free() {
    let out = render("## Heading\n\n**bold** `code`", true);
    assert!(
        !out.contains('\x1b'),
        "mono theme must emit no ANSI: {out:?}"
    );
    assert!(out.contains("Heading") && out.contains("bold"));
}

#[test]
fn inline_link_keeps_text_drops_url() {
    let out = render("See [the havoc model](havoc.md).", true);
    assert!(
        out.contains("the havoc model"),
        "link text missing: {out:?}"
    );
    assert!(
        !out.contains("havoc.md"),
        "link URL should be dropped: {out:?}"
    );
}

#[test]
fn image_drops_url_and_uninformative_alt() {
    let out = render("![image](https://example.com/x.webp)", true);
    assert!(out.contains("[image]"), "image marker missing: {out:?}");
    assert!(
        !out.contains("example.com") && !out.contains(".webp"),
        "image URL should be dropped: {out:?}"
    );
    assert!(!out.contains("image: image"), "no doubled alt: {out:?}");
}

#[test]
fn image_keeps_informative_alt() {
    let out = render("![a price chart](https://example.com/x.webp)", true);
    assert!(
        out.contains("[image: a price chart]"),
        "informative alt should survive: {out:?}"
    );
    assert!(!out.contains("example.com"), "url still dropped: {out:?}");
}

#[test]
fn bold_led_list_item_keeps_marker_before_markup() {
    let out = render("- **Lead.** body\n", true);
    assert!(out.contains("* **Lead.**"), "marker before bold: {out:?}");
    assert!(!out.contains("***"), "marker glued to markup: {out:?}");
}

#[test]
fn ordered_bold_led_item_keeps_marker() {
    let out = render("1. **Harvest** - domains\n", true);
    assert!(
        out.contains("1. **Harvest**"),
        "ordered marker first: {out:?}"
    );
}

#[test]
fn an_ordered_list_counts_on_from_its_start() {
    let out = render("3. a\n4. b\n", true);
    assert!(out.contains("3. a") && out.contains("4. b"), "{out:?}");
}

#[test]
fn nested_list_items_are_indented() {
    let out = render("- top\n  - nested\n", true);
    assert!(out.contains("* top"), "top-level marker present: {out:?}");
    assert!(
        out.contains("  * nested"),
        "nested marker is indented by depth: {out:?}"
    );
}

#[test]
fn loose_list_item_has_no_stray_blank_line_before_marker() {
    let out = render("- alpha\n\n- beta\n", true);
    assert!(
        out.starts_with("\n* alpha"),
        "no stray blank line before the first item: {out:?}"
    );
}

#[test]
fn footnote_reference_and_definition() {
    let out = render("text[^1]\n\n[^1]: note", false);
    assert!(out.contains("[^1]"), "footnote ref missing");
    assert!(out.contains("note"), "footnote def missing");
}

#[test]
fn footnotes_are_numbered_in_the_order_they_are_named() {
    let out = render("a[^late] b[^early] c[^late]\n\n[^early]: one\n\n[^late]: two", true);
    assert!(out.contains("a[^1] b[^2] c[^1]"), "{out:?}");
    assert!(out.contains("[^2]: "), "{out:?}");
}

#[test]
fn a_task_box_takes_the_place_of_the_asterisk() {
    let out = render("- [x] done\n- [ ] open\n", true);
    assert!(out.contains("  [x] done"), "{out:?}");
    assert!(out.contains("  [ ] open"), "{out:?}");
    assert!(!out.contains('*'), "{out:?}");
}

#[test]
fn a_rule_is_forty_dashes() {
    let out = render("a\n\n---\n", true);
    assert!(out.contains(&format!("{}\n", "-".repeat(40))), "{out:?}");
}

#[test]
fn breaks_quotes_and_code_spans_are_shown() {
    assert_eq!(render("a\nb", true), "\na b\n\n");
    assert_eq!(render("a  \nb", true), "\na\nb\n\n");
    assert_eq!(render("`x`", true), "\n`x`\n\n");
    assert_eq!(render("*x*", true), "\n*x*\n\n");
    assert_eq!(render("<b>x</b>", true), "\nx\n\n");
    assert_eq!(render("<me@example.com>", true), "\nme@example.com\n\n");
}

#[test]
fn events_are_rendered_as_they_come() {
    let events = vec![
        DocEvent::Start(Tag::Superscript),
        DocEvent::Text("n".to_string()),
        DocEvent::End(TagEnd::Superscript),
        DocEvent::Start(Tag::Subscript),
        DocEvent::End(TagEnd::Subscript),
        DocEvent::InlineMath("x".to_string()),
        DocEvent::DisplayMath("y".to_string()),
        DocEvent::Start(Tag::MetadataBlock),
        DocEvent::Text("hidden".to_string()),
        DocEvent::End(TagEnd::MetadataBlock),
        DocEvent::Start(Tag::DefinitionListDefinition),
        DocEvent::End(TagEnd::DefinitionListDefinition),
    ];
    assert_eq!(render_events(&events, true), "^n^~~$x$$$y$$\n: \n");
}

#[test]
fn stripping_leaves_what_a_terminal_shows() {
    assert_eq!(strip_ansi("plain"), "plain");
    assert_eq!(strip_ansi("\x1b[1;31mred\x1b[0m!"), "red!");
    assert_eq!(strip_ansi("a\x1bb"), "ab");
    assert_eq!(strip_ansi("a\x1b[12"), "a");
    let styled = render("**a** `b`", false);
    assert_eq!(strip_ansi(&strip_ansi(&styled)), strip_ansi(&styled));
}

#[test]
fn padding_never_cuts() {
    assert_eq!(pad("ab", 4), "ab  ");
    assert_eq!(pad("abcd", 2), "abcd");
    assert_eq!(pad("é", 2), "é ");
}

fn shelf() -> ManShelf {
    ManShelf {
        cli: "# cli".to_string(),
        config: "# config".to_string(),
        architecture: "# architecture".to_string(),
        havoc: "# havoc".to_string(),
        clock: "**clock**".to_string(),
        presets: "# presets".to_string(),
        oms_types: "*netting*".to_string(),
    }
}

#[test]
fn the_listing_names_every_topic() {
    assert_eq!(
        list_topics(),
        "Bundled reference docs. Run `mogwai man <topic>` to read one.\n\n\
         \u{20} cli           the mogwai command line\n\
         \u{20} config        the mogwai.toml run knobs\n\
         \u{20} architecture  how the system works, subsystem by subsystem\n\
         \u{20} havoc         the havoc model: every divergence and the four surfaces\n\
         \u{20} clock         the simulated clock for accelerated forward testing\n\
         \u{20} presets       choosing one of the five instrument presets, and reading its provenance\n\
         \u{20} oms-types     the run-level oms_type choice, and how netting and hedging differ\n"
    );
    assert_eq!(run(&shelf(), None, false), list_topics());
}

#[test]
fn a_topic_is_rendered() {
    assert_eq!(
        run(&shelf(), Some(ManTopic::Clock), true),
        "\n**clock**\n\n"
    );
    assert_eq!(
        run(&shelf(), Some(ManTopic::OmsTypes), true),
        "\n*netting*\n\n"
    );
    assert!(run(&shelf(), Some(ManTopic::Presets), true).contains("presets"));
}
