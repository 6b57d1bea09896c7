use pretty::Doc;

fn render(doc: &Doc, width: usize) -> String {
    let mut out = Vec::new();
    doc.render(width, &mut out);
    String::from_utf8(out).unwrap()
}

fn a_break_b() -> Doc {
    (Doc::text("a") + Doc::newline() + Doc::text("b")).group()
}

#[test]
fn group_is_flat_when_it_fits() {
    assert_eq!(render(&a_break_b(), 10), "a b");
}

#[test]
fn group_breaks_when_it_does_not_fit() {
    assert_eq!(render(&a_break_b(), 1), "a\nb");
}

#[test]
fn exactly_filling_the_width_fits() {
    assert_eq!(render(&a_break_b(), 3), "a b");
    assert_eq!(render(&a_break_b(), 2), "a\nb");
}

#[test]
fn width_zero_breaks_every_group() {
    assert_eq!(render(&a_break_b(), 0), "a\nb");
    assert_eq!(render(&Doc::nil().group(), 0), "");
}

#[test]
fn nest_indents_after_a_break() {
    let doc = (Doc::newline() + Doc::text("x")).nest(2);
    assert_eq!(render(&doc, 80), "\n  x");
    assert_eq!(render(&doc, 0), "\n  x");
}

#[test]
fn flat_mode_reaches_nested_groups() {
    let inner = (Doc::text("bar") + Doc::newline() + Doc::text("baz")).group();
    let doc = (Doc::text("foo") + inner).group();
    assert_eq!(render(&doc, 10), "foobar baz");
    assert_eq!(render(&doc, 80), "foobar baz");
}

#[test]
fn nested_group_breaks_with_its_parent_when_too_wide() {
    let inner = (Doc::text("bar") + Doc::newline() + Doc::text("baz")).group();
    let doc = (Doc::text("foo") + inner).group();
    assert_eq!(render(&doc, 9), "foobar\nbaz");
}

#[test]
fn inner_group_decides_for_itself() {
    let inner = (Doc::text("b") + Doc::newline() + Doc::text("c")).group();
    let doc = (Doc::text("aaaaaaaa") + Doc::newline() + inner).group();
    assert_eq!(render(&doc, 5), "aaaaaaaa\nb c");
}

#[test]
fn newline_outside_any_group_always_breaks() {
    let doc = Doc::text("a") + Doc::newline() + Doc::text("b");
    assert_eq!(render(&doc, 80), "a\nb");
}

#[test]
fn nested_indentation_adds_up() {
    let body = Doc::newline() + Doc::text("x");
    let twice = body.clone().nest(3).nest(2);
    let once = body.nest(5);
    assert_eq!(render(&twice, 80), "\n     x");
    assert_eq!(render(&twice, 80), render(&once, 80));
}

#[test]
fn broken_group_indents_its_nested_part() {
    let doc = (Doc::text("begin") + (Doc::newline() + Doc::text("stmt")).nest(2) + Doc::newline()
        + Doc::text("end"))
        .group();
    assert_eq!(render(&doc, 14), "begin stmt end");
    assert_eq!(render(&doc, 13), "begin\n  stmt\nend");
}

#[test]
fn column_restarts_at_the_indentation() {
    let group = (Doc::text("ab") + Doc::newline() + Doc::text("cd")).group();
    let doc = (Doc::newline() + group).nest(4);
    assert_eq!(render(&doc, 9), "\n    ab cd");
    assert_eq!(render(&doc, 8), "\n    ab\n    cd");
}

#[test]
fn fitting_counts_what_follows_on_the_line() {
    let doc = a_break_b() + Doc::text("ccc");
    assert_eq!(render(&doc, 6), "a bccc");
    assert_eq!(render(&doc, 5), "a\nbccc");
}

#[test]
fn fitting_stops_at_the_next_break() {
    let doc = a_break_b() + Doc::newline() + Doc::text("ccccccc");
    assert_eq!(render(&doc, 3), "a b\nccccccc");
}

#[test]
fn fitting_takes_a_pending_group_as_breaking() {
    let second = (Doc::text("c") + Doc::newline() + Doc::text("dddddddddd")).group();
    let doc = a_break_b() + second;
    assert_eq!(render(&doc, 4), "a bc\ndddddddddd");
}

#[test]
fn text_longer_than_the_width_is_not_split() {
    assert_eq!(render(&Doc::text("abcdefghij"), 3), "abcdefghij");
    let doc = (Doc::text("abcdefghij") + Doc::newline() + Doc::text("k")).group();
    assert_eq!(render(&doc, 3), "abcdefghij\nk");
}

#[test]
fn text_after_a_broken_group_may_exceed_the_width() {
    let group = (Doc::text("aaaa") + Doc::newline() + Doc::text("b")).group();
    let doc = group + Doc::text("cccccccccc");
    assert_eq!(render(&doc, 5), "aaaa\nbcccccccccc");
    assert_eq!(render(&doc, 16), "aaaa bcccccccccc");
    assert_eq!(render(&doc, 15), "aaaa\nbcccccccccc");
}

#[test]
fn lone_group_is_flat_exactly_when_its_text_fits() {
    let body = Doc::text("ab") + (Doc::newline() + Doc::text("cd")).nest(3) + Doc::newline()
        + Doc::text("ef");
    let doc = body.clone().group();
    for width in 0..8 {
        assert_eq!(render(&doc, width), render(&body, width));
        assert_eq!(render(&doc, width), "ab\n   cd\nef");
    }
    for width in 8..12 {
        assert_eq!(render(&doc, width), "ab cd ef");
    }
}

#[test]
fn line_feed_inside_a_text_is_not_looked_at() {
    let doc = (Doc::text("a\nb") + Doc::newline() + Doc::text("c")).group();
    assert_eq!(render(&doc, 5), "a\nb c");
    assert_eq!(render(&doc, 4), "a\nb\nc");
}

#[test]
fn width_is_counted_in_bytes() {
    let doc = (Doc::text("\u{e9}\u{e9}") + Doc::newline() + Doc::text("a")).group();
    assert_eq!(render(&doc, 6), "\u{e9}\u{e9} a");
    assert_eq!(render(&doc, 5), "\u{e9}\u{e9}\na");
}

#[test]
fn documents_without_groups_ignore_the_width() {
    let doc = Doc::text("one") + (Doc::newline() + Doc::text("two")).nest(2) + Doc::newline()
        + Doc::text("three");
    let expected = "one\n  two\nthree";
    assert_eq!(render(&doc, 0), expected);
    assert_eq!(render(&doc, 5), expected);
    assert_eq!(render(&doc, 1000), expected);
    assert_eq!(render(&doc, usize::MAX), expected);
}

#[test]
fn lines_of_flat_groups_stay_within_the_width() {
    let pair = |l: &str, r: &str| (Doc::text(l) + Doc::newline() + Doc::text(r)).group();
    let doc = pair("hello", "world") + Doc::newline() + pair("good", "bye") + Doc::newline()
        + pair("so", "long");
    for width in 0..20 {
        let text = render(&doc, width);
        for line in text.lines() {
            assert!(line.len() <= width || !line.contains(' '));
        }
    }
    assert_eq!(render(&doc, 11), "hello world\ngood bye\nso long");
    assert_eq!(render(&doc, 10), "hello\nworld\ngood bye\nso long");
    assert_eq!(render(&doc, 7), "hello\nworld\ngood\nbye\nso long");
}

#[test]
fn long_lines_are_lines_of_the_broken_layout() {
    let longest = |text: &str| text.lines().map(|line| line.len()).max().unwrap_or(0);
    let pair = |l: &str, r: &str| (Doc::text(l) + Doc::newline() + Doc::text(r)).group();
    let inner = (pair("alpha", "beta") + (Doc::newline() + pair("gamma", "delta")).nest(2)).group();
    let doc = (Doc::text("head") + (Doc::newline() + inner).nest(4) + Doc::text("abcdefghijkl")
        + Doc::newline() + pair("x", "y"))
        .group();
    let broken = render(&doc, 0);
    assert_eq!(broken, "head\n    alpha\n    beta\n      gamma\n      deltaabcdefghijkl\nx\ny");
    for width in 0..60 {
        let text = render(&doc, width);
        assert!(longest(&text) <= width.max(longest(&broken)));
    }
    assert_eq!(render(&doc, 30), "head\n    alpha beta\n      gamma deltaabcdefghijkl\nx y");
}

#[test]
fn rendering_twice_gives_the_same_bytes() {
    let doc = (Doc::text("foo") + (Doc::newline() + a_break_b()).nest(2)).group();
    for width in [0, 4, 7, 80] {
        let mut first = Vec::new();
        let mut second = Vec::new();
        doc.render(width, &mut first);
        doc.render(width, &mut second);
        assert_eq!(first, second);
    }
}

#[test]
fn render_appends_to_the_buffer() {
    let mut out = b"> ".to_vec();
    a_break_b().render(3, &mut out);
    assert_eq!(out, b"> a b".to_vec());
}

#[test]
fn empty_document_renders_to_nothing() {
    assert_eq!(render(&Doc::nil(), 80), "");
    assert_eq!(render(&Doc::nil().nest(4).group(), 80), "");
}

#[test]
fn indentation_range_is_checked() {
    assert!(Doc::text("x").nest(usize::MAX).indents_in_range());
    assert!(a_break_b().nest(7).nest(9).indents_in_range());
    assert!(!Doc::text("x").nest(1).nest(usize::MAX).indents_in_range());
    let deep = Doc::text("l") + (Doc::newline() + Doc::nil().nest(usize::MAX).group()).nest(1);
    assert!(!deep.indents_in_range());
}
