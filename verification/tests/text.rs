use pretty::{format_doc, Doc, FormatError, Pretty, DEFAULT_WIDTH};

struct Pair(u32, u32);

impl Pretty for Pair {
    fn pretty(&self) -> Doc {
        (Doc::as_string(self.0) + Doc::text(",") + Doc::newline() + Doc::as_string(self.1)).group()
    }
}

#[test]
fn default_width_is_eighty() {
    assert_eq!(DEFAULT_WIDTH, 80);
}

#[test]
fn a_document_is_its_own_document() {
    let doc = (Doc::text("a") + Doc::newline()).group();
    assert_eq!(doc.pretty(), doc);
}

#[test]
fn a_string_is_a_text() {
    assert_eq!(String::from("abc").pretty(), Doc::text("abc"));
    assert_eq!("abc".pretty(), Doc::text("abc"));
}

#[test]
fn format_renders_the_document_of_a_value() {
    assert_eq!(pretty::format(&Pair(1, 2)), Ok(String::from("1, 2")));
    assert_eq!(pretty::format(&String::from("abc")), Ok(String::from("abc")));
}

#[test]
fn format_keeps_text_that_is_not_ascii() {
    let text = String::from("h\u{e9}llo \u{4e16}\u{754c}");
    assert_eq!(pretty::format(&text), Ok(text.clone()));
    assert_eq!(format_doc(&Doc::text("\u{1f600}")), Ok(String::from("\u{1f600}")));
}

#[test]
fn format_renders_for_eighty_columns() {
    let left = "x".repeat(40);
    let fits = (Doc::text(&left) + Doc::newline() + Doc::text(&"y".repeat(39))).group();
    let too_wide = (Doc::text(&left) + Doc::newline() + Doc::text(&"y".repeat(40))).group();
    assert_eq!(format_doc(&fits), Ok(format!("{} {}", left, "y".repeat(39))));
    assert_eq!(format_doc(&too_wide), Ok(format!("{}\n{}", left, "y".repeat(40))));
}

#[test]
fn format_fails_when_indentation_is_out_of_range() {
    let doc = Doc::newline().nest(usize::MAX).nest(1);
    assert_eq!(format_doc(&doc), Err(FormatError));
    assert_eq!(pretty::format(&doc), Err(FormatError));
}

#[test]
fn format_of_the_empty_document_is_empty() {
    assert_eq!(format_doc(&Doc::nil()), Ok(String::new()));
}
