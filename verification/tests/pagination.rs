use cv_rs::pagination::{measure_lines, PageCursor, RuleSegment, PAGE_HEIGHT, PAGE_PADDING};

#[test]
fn a_new_document_starts_at_the_top_of_the_first_page() {
    let c = PageCursor::new();
    assert_eq!(c.page, 0);
    assert_eq!(c.cursor(), PAGE_PADDING);
    assert_eq!(c.page_bottom(), PAGE_HEIGHT - PAGE_PADDING);
    assert_eq!(c.remaining(), (PAGE_HEIGHT - 2 * PAGE_PADDING) as i128);
}

#[test]
fn an_item_that_fits_stays_on_the_page() {
    let mut c = PageCursor::new();
    c.advance(100_000);
    let before = c;
    assert_eq!(c.ensure(14_000), (false, None));
    assert_eq!(c, before);
}

#[test]
fn an_item_that_does_not_fit_starts_a_new_page() {
    let mut c = PageCursor::new();
    c.set_cursor(800_000);
    let (broke, segment) = c.ensure(20_000);
    assert!(broke);
    assert_eq!(segment, None);
    assert_eq!(c.page, 1);
    assert_eq!(c.cursor(), PAGE_PADDING);
}

#[test]
fn an_item_taller_than_a_page_is_placed_on_a_fresh_page() {
    let mut c = PageCursor::new();
    assert_eq!(c.ensure(2_000_000), (false, None), "nothing above: no break");
    c.advance(1);
    assert!(c.ensure(2_000_000).0);
    assert_eq!(c.ensure(2_000_000), (false, None), "the new page is not broken again");
    assert_eq!(c.page, 1);
}

#[test]
fn a_rule_split_by_a_page_break_is_stroked_to_the_margin_and_reopened() {
    let mut c = PageCursor::new();
    c.set_cursor(700_000);
    c.begin_rule(26_000);
    c.advance(100_000);
    let (broke, segment) = c.ensure(50_000);
    assert!(broke);
    assert_eq!(segment, Some(RuleSegment { x: 26_000, top: 700_000, bottom: PAGE_HEIGHT - PAGE_PADDING }));
    c.advance(30_000);
    assert_eq!(c.end_rule(), Some(RuleSegment { x: 26_000, top: PAGE_PADDING, bottom: PAGE_PADDING + 30_000 }));
    assert_eq!(c.end_rule(), None, "no rule is open any more");
}

#[test]
fn an_empty_rule_strokes_nothing() {
    let mut c = PageCursor::new();
    c.begin_rule(26_000);
    assert_eq!(c.end_rule(), None);
}

#[test]
fn a_paragraph_is_its_line_boxes_and_its_margin() {
    assert_eq!(measure_lines(3, 14_000, 4_000), 46_000);
    assert_eq!(measure_lines(0, 14_000, 4_000), 4_000);
}
