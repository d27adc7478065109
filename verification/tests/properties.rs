use faq_book::escape_html;
use faq_book::fold_txt;
use faq_book::rewrite_text;
use faq_book::str_has_marker;
use faq_book::Book;
use faq_book::BookItem;
use faq_book::Chapter;
use faq_book::FoldAQ;

#[test]
fn substitutes_all_three_markers() {
    let out = rewrite_text("#f Question? #q Answer. #a");
    assert_eq!(out, "<details><summary> Question? </summary> Answer. </details>");
}

#[test]
fn substitution_order_and_positions() {
    let out = rewrite_text("a#fb#qc#ad");
    assert_eq!(out, "a<details><summary>b</summary>c</details>d");
}

#[test]
fn no_marker_remains_after_rewrite() {
    let out = rewrite_text("x #f y #q z #a #f again #q #a");
    assert!(!out.contains("#f"));
    assert!(!out.contains("#q"));
    assert!(!out.contains("#a"));
}

#[test]
fn overlapping_hashes_are_handled_leftmost_first() {
    assert_eq!(rewrite_text("###f"), "##<details><summary>");
    assert_eq!(rewrite_text("#f#q#a"), "<details><summary></summary></details>");
}

#[test]
fn misordered_markers_are_still_substituted() {
    // Fold balance is not validated: substitution is purely textual.
    assert_eq!(rewrite_text("#q before #f"), "</summary> before <details><summary>");
}

#[test]
fn empty_input_stays_empty() {
    assert_eq!(fold_txt("").unwrap(), "");
}

#[test]
fn marker_free_text_is_unchanged_by_rewrite() {
    let out = rewrite_text("plain text, a # alone, #x unknown");
    assert_eq!(out, "plain text, a # alone, #x unknown");
}

#[test]
fn detects_markers() {
    assert!(str_has_marker("before #q after"));
    assert!(str_has_marker("#a"));
    assert!(!str_has_marker("no markers here"));
    assert!(!str_has_marker("# f and #x are no markers"));
    assert!(!str_has_marker(""));
}

#[test]
fn folds_concrete_scenario() {
    let content = "#f Do you know who I am? #q\nhey,> < its me `code` #a\n\nText\n";
    let out = fold_txt(content).unwrap();
    assert!(out.contains("<details><summary> Do you know who I am? </summary>"));
    assert!(out.contains("</details>"));
    assert!(out.contains("`code`"));
    assert!(out.contains("Text"));
    assert!(!out.contains("#f"));
    assert!(!out.contains("#q"));
    assert!(!out.contains("#a"));
}

#[test]
fn markers_inside_fenced_code_are_kept() {
    let content = "```\n#f kept #q kept #a\n```\n";
    let out = fold_txt(content).unwrap();
    assert!(out.contains("#f kept #q kept #a"));
    assert!(!out.contains("<details>"));
}

#[test]
fn markers_inside_inline_code_are_kept() {
    let content = "look: `#f not a fold #a`\n";
    let out = fold_txt(content).unwrap();
    assert!(out.contains("`#f not a fold #a`"));
    assert!(!out.contains("<details>"));
}

#[test]
fn transform_is_noop_on_marker_free_sample() {
    let content = "# Title\n\nA paragraph without markers.\n\n* one\n* two\n";
    let once = fold_txt(content).unwrap();
    let twice = fold_txt(once.as_str()).unwrap();
    assert_eq!(once, twice);
}

#[test]
fn supports_only_the_html_renderer() {
    let p = FoldAQ;
    assert!(p.supports_renderer("html"));
    assert!(!p.supports_renderer("HTML"));
    assert!(!p.supports_renderer("Html"));
    assert!(!p.supports_renderer(""));
    assert!(!p.supports_renderer("markdown"));
    assert!(!p.supports_renderer("html "));
}

#[test]
fn preprocessor_name() {
    let p = FoldAQ;
    assert_eq!(p.name(), "foldaq");
}

#[test]
fn run_rewrites_every_chapter_and_keeps_the_rest() {
    let sub = BookItem::Chapter(Chapter {
        content: String::from("#f sub? #q sub! #a\n"),
        sub_items: Vec::new(),
    });
    let top = BookItem::Chapter(Chapter {
        content: String::from("#f top? #q top! #a\n"),
        sub_items: vec![sub],
    });
    let book = Book { sections: vec![top, BookItem::Separator, BookItem::PartTitle(String::from("Part"))] };
    let out = FoldAQ.run(book).unwrap();
    assert_eq!(out.sections.len(), 3);
    match &out.sections[0] {
        BookItem::Chapter(c) => {
            assert!(c.content.contains("<details><summary> top? </summary> top! </details>"));
            match &c.sub_items[0] {
                BookItem::Chapter(s) => {
                    assert!(s.content.contains("<details><summary> sub? </summary> sub! </details>"));
                }
                _ => panic!("sub-chapter lost"),
            }
        }
        _ => panic!("chapter lost"),
    }
    match &out.sections[1] {
        BookItem::Separator => {}
        _ => panic!("separator lost"),
    }
    match &out.sections[2] {
        BookItem::PartTitle(t) => assert_eq!(t, "Part"),
        _ => panic!("part title lost"),
    }
}

#[test]
fn escapes_html_characters() {
    assert_eq!(escape_html("<div>"), "&lt;div&gt;");
    assert_eq!(escape_html("a&b\"c"), "a&amp;b&quot;c");
    assert_eq!(escape_html("plain"), "plain");
    assert_eq!(escape_html(""), "");
    assert_eq!(escape_html("<<>>"), "&lt;&lt;&gt;&gt;");
}
