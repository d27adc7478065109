use faq_book::fold_txt;

#[test]
fn check_folds() {
    let content = r#"# Chapter
## Sub

#f Do you know who I am? #q
hey,> < its me `choli ke peeche` #a

Text
"#;
    println!("{}", fold_txt(content).unwrap());
}

#[test]
fn leaves_tables_untouched() {
    // Regression test: the rewriter must enable the same markdown
    // extensions as the consuming renderer, or tables get corrupted.
    let content = r#"# Heading

| Head 1 | Head 2 |
|--------|--------|
| Row 1  | Row 2  |
"#;

    // Markdown roundtripping removes some insignificant whitespace
    let expected = r#"# Heading

|Head 1|Head 2|
|------|------|
|Row 1|Row 2|"#;

    println!("{}", fold_txt(content).unwrap());
    println!("{}", expected);
    assert_eq!(expected, fold_txt(content).unwrap());
}

#[test]
fn leaves_html_untouched() {
    // Regression test: important newlines around raw HTML must stay.
    let content = r#"# Heading

<del>

*foo*

</del>
"#;

    let expected = r#"# Heading

<del>

*foo*

</del>
"#;

    assert_eq!(expected, fold_txt(content).unwrap());
}

#[test]
fn html_in_list() {
    // Regression test: fenced code nested in a list keeps its newlines,
    // and the fence may widen to stay unambiguous.
    let content = r#"# Heading

1. paragraph 1
   ```
   code 1
   ```
2. paragraph 2
"#;

    let expected = r#"# Heading

1. paragraph 1
   ````
   code 1
   ````
1. paragraph 2"#;

    assert_eq!(expected, fold_txt(content).unwrap());
}
