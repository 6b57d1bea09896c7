use pretty::{braces, parens, seperate, Doc};

fn show(doc: &Doc) -> String {
    let mut out = Vec::new();
    doc.render(80, &mut out);
    String::from_utf8(out).unwrap()
}

#[test]
fn append_drops_nil_on_the_left() {
    let doc = Doc::text("a").group();
    assert_eq!(Doc::nil().append(doc.clone()), doc);
    assert_eq!(show(&Doc::nil().append(doc.clone())), show(&doc));
}

#[test]
fn append_drops_nil_on_the_right() {
    let doc = (Doc::newline() + Doc::text("a")).nest(1);
    assert_eq!(doc.clone().append(Doc::nil()), doc);
    assert_eq!(show(&doc.clone().append(Doc::nil())), show(&doc));
}

#[test]
fn append_of_two_nils_is_nil() {
    assert_eq!(Doc::nil().append(Doc::nil()), Doc::nil());
}

#[test]
fn append_keeps_the_order() {
    assert_eq!(show(&Doc::text("a").append(Doc::text("b"))), "ab");
}

#[test]
fn plus_is_append() {
    let sum = Doc::text("a") + Doc::newline() + Doc::text("b");
    let appended = Doc::text("a").append(Doc::newline()).append(Doc::text("b"));
    assert_eq!(sum, appended);
}

#[test]
fn concat_of_nothing_is_nil() {
    assert_eq!(Doc::concat(&[]), Doc::nil());
}

#[test]
fn concat_appends_from_left_to_right() {
    let docs = [Doc::text("a"), Doc::nil(), Doc::text("b"), Doc::text("c")];
    let expected = Doc::text("a").append(Doc::text("b")).append(Doc::text("c"));
    assert_eq!(Doc::concat(&docs), expected);
    assert_eq!(show(&Doc::concat(&docs)), "abc");
}

#[test]
fn text_and_as_string_agree() {
    assert_eq!(Doc::as_string(42), Doc::text("42"));
    assert_eq!(Doc::as_string("x"), Doc::text("x"));
    assert_eq!(show(&Doc::as_string(true)), "true");
}

#[test]
fn parens_wraps_in_round_brackets() {
    assert_eq!(show(&parens(Doc::text("x"))), "(x)");
    assert_eq!(show(&parens(Doc::nil())), "()");
    assert_eq!(parens(Doc::text("x")), Doc::text("(") + Doc::text("x") + Doc::text(")"));
}

#[test]
fn braces_wraps_in_curly_brackets() {
    assert_eq!(show(&braces(Doc::text("x"))), "{x}");
    assert_eq!(braces(Doc::nil()), Doc::text("{") + Doc::text("}"));
}

#[test]
fn seperate_puts_the_item_between_neighbours() {
    let docs = [Doc::text("a"), Doc::text("b"), Doc::text("c")];
    let sep = Doc::text(", ");
    assert_eq!(show(&seperate(&docs, &sep)), "a, b, c");
    let expected = Doc::text("a") + Doc::text(", ") + Doc::text("b") + Doc::text(", ")
        + Doc::text("c");
    assert_eq!(seperate(&docs, &sep), expected);
}

#[test]
fn seperate_of_one_or_none_has_no_item() {
    let sep = Doc::text(", ");
    assert_eq!(seperate(&[], &sep), Doc::nil());
    assert_eq!(seperate(&[Doc::text("a")], &sep), Doc::text("a"));
}

#[test]
fn seperate_with_breaks_lays_out_as_a_list() {
    let docs = [Doc::text("one"), Doc::text("two"), Doc::text("three")];
    let sep = Doc::text(",") + Doc::newline();
    let list = parens(seperate(&docs, &sep).nest(1)).group();
    let mut wide = Vec::new();
    list.render(17, &mut wide);
    assert_eq!(String::from_utf8(wide).unwrap(), "(one, two, three)");
    let mut narrow = Vec::new();
    list.render(16, &mut narrow);
    assert_eq!(String::from_utf8(narrow).unwrap(), "(one,\n two,\n three)");
}

#[test]
fn equality_is_structural() {
    let plain = Doc::text("a");
    let grouped = Doc::text("a").group();
    assert_eq!(show(&plain), show(&grouped));
    assert_ne!(plain, grouped);
    assert_eq!(plain.clone(), plain);
    assert_ne!(Doc::text("a").nest(1), Doc::text("a").nest(2));
}

#[test]
fn ordering_is_structural() {
    assert!(Doc::nil() < Doc::newline());
    assert!(Doc::newline() < Doc::text(""));
    assert!(Doc::text("a") < Doc::text("b"));
    assert!(Doc::text("a").nest(1) < Doc::text("a").nest(2));
    assert!(Doc::text("z").group() < Doc::text("a").nest(0));
}
