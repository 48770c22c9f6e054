use cv_rs::encoding::{advance_units, encode, kern_points, kern_units, run_boundaries, winansi_byte};
use cv_rs::layout::{
    chunk, contact_line, contact_pieces, finish_row, hard_line_lines, hard_line_words, lines_at_breaks,
    place_piece, replace_first,
};
use cv_rs::text::words;

#[test]
fn maps_typographic_characters_to_winansi() {
    assert_eq!(winansi_byte('A'), b'A');
    assert_eq!(winansi_byte('\u{2022}'), 0x95, "bullet");
    assert_eq!(winansi_byte('\u{2013}'), 0x96, "en dash");
    assert_eq!(winansi_byte('\u{2014}'), 0x97, "em dash");
    assert_eq!(winansi_byte('\u{00b7}'), 0xb7, "middot");
    assert_eq!(winansi_byte('\u{4e2d}'), b'?', "unmappable");
}

#[test]
fn chunks_items_into_balanced_rows() {
    let items: Vec<String> = (1..=7).map(|n| n.to_string()).collect();
    let rows = chunk(&items, 2);
    assert_eq!(rows.len(), 2);
    assert_eq!(rows[0].len(), 4, "the first row takes the extra item");
    assert_eq!(rows[1].len(), 3);
    assert!(chunk(&[], 2).is_empty());
}

#[test]
fn chunking_keeps_order_and_balances_over_the_rows_asked_for() {
    let items: Vec<String> = (1..=5).map(|n| n.to_string()).collect();
    let rows = chunk(&items, 4);
    assert_eq!(rows, vec![vec!["1", "2"], vec!["3"], vec!["4"], vec!["5"]]);
    assert_eq!(rows.concat(), items);
    assert_eq!(chunk(&items, 0), vec![items.clone()]);
    assert_eq!(chunk(&items, 1), vec![items.clone()]);
    assert_eq!(chunk(&items, 9).len(), 5, "never more rows than items");
    assert_eq!(chunk(&items, 3), vec![vec!["1", "2"], vec!["3", "4"], vec!["5"]]);
}

#[test]
fn encodes_one_byte_per_character() {
    assert_eq!(encode("\u{2022} A\u{20ac}\u{4e2d}"), vec![0x95, b' ', b'A', 0x80, b'?']);
    assert_eq!(run_boundaries(&encode("\u{2022} Work")), vec![2]);
    assert!(run_boundaries(&encode("Work")).is_empty());
}

#[test]
fn kern_lookup_finds_listed_pairs_only() {
    let table: [(u8, u8, i16); 3] = [(b'A', b'V', -70), (b'T', b'o', -80), (b'W', b'a', -40)];
    assert_eq!(kern_units(&table, b'W', b'a'), -40);
    assert_eq!(kern_units(&table, b'A', b'V'), -70);
    assert_eq!(kern_units(&table, b'a', b'W'), 0);
    assert_eq!(kern_units(&[], b'a', b'W'), 0);
}

#[test]
fn does_not_kern_the_bullet_marker_into_the_item() {
    let mut widths = [500u16; 256];
    widths[b' ' as usize] = 278;
    let table: [(u8, u8, i16); 2] = [(b' ', b'W', -20), (b'W', b'o', -30)];
    let units = advance_units(&encode("\u{2022} Wo"), &widths, &table);
    assert_eq!(units, vec![500, 278, 470, 500]);
    let plain = advance_units(&encode("x Wo"), &widths, &table);
    assert_eq!(plain, vec![500, 258, 470, 500]);
}

#[test]
fn lines_follow_the_chosen_breaks_and_keep_every_word() {
    let words: Vec<String> = "alpha beta gamma delta epsilon"
        .split(' ')
        .map(String::from)
        .collect();
    // Glue after word i is node 2i + 1; the final penalty is node 2n.
    let lines = lines_at_breaks(&words, &vec![3, 7, 10]);
    assert_eq!(lines, vec!["alpha beta", "gamma delta", "epsilon"]);
    assert_eq!(lines.join(" "), words.join(" "));
    let one = lines_at_breaks(&vec!["supercalifragilisticexpialidocious".to_string()], &vec![2]);
    assert_eq!(one, vec!["supercalifragilisticexpialidocious"]);
    let stale = lines_at_breaks(&words, &vec![5, 1, 40]);
    assert_eq!(stale, vec!["alpha beta gamma", "delta epsilon"]);
}

#[test]
fn contact_pieces_lead_with_the_separator() {
    let items = vec!["London".to_string(), "Email: a@b.c".to_string()];
    assert_eq!(contact_pieces(&items), vec!["London", "  \u{2022}  Email: a@b.c"]);
    assert_eq!(
        contact_line("London  \u{2022}  Email: a@b.c", false),
        "London \u{2022}  Email: a@b.c "
    );
    assert_eq!(contact_line("London  \u{2022}  x", true), "London  \u{2022}  x");
    assert_eq!(replace_first("aXbXc", "X", "--"), "a--bXc");
    assert_eq!(replace_first("abc", "X", "--"), "abc");
}

#[test]
fn kerned_seams_skip_the_bullet_run_and_zero_kerns() {
    let table: [(u8, u8, i16); 3] = [(b' ', b'W', -20), (b'W', b'o', -30), (b'o', b'r', 0)];
    assert_eq!(kern_points(&encode("\u{2022} Wor"), &table), vec![(3, -30)]);
    assert_eq!(kern_points(&encode("x Wor"), &table), vec![(2, -20), (3, -30)]);
    assert!(kern_points(&encode("Wor"), &[]).is_empty());
}

#[test]
fn words_split_at_any_white_space() {
    assert_eq!(words("  alpha\tbeta  gamma "), vec!["alpha", "beta", "gamma"]);
    assert!(words(" \u{a0} ").is_empty());
    assert_eq!(words("one"), vec!["one"]);
}

#[test]
fn hard_lines_keep_empty_lines() {
    let lines = hard_line_words("a b\n\n c ");
    assert_eq!(lines, vec![vec!["a".to_string(), "b".to_string()], vec![], vec!["c".to_string()]]);
    assert_eq!(hard_line_words(""), vec![Vec::<String>::new()]);
}

#[test]
fn the_contact_row_keeps_every_piece_whatever_fits() {
    let items: Vec<String> = ["London", "Email: a@b.c", "Phone: 1", "GitHub: github.com/x"]
        .iter()
        .map(|s| s.to_string())
        .collect();
    let pieces = contact_pieces(&items);
    for fits in [[true, true, true, true], [false, false, false, false], [true, false, true, false]] {
        let mut lines: Vec<String> = Vec::new();
        let mut current = String::new();
        for (piece, fit) in pieces.iter().zip(fits) {
            place_piece(&mut lines, &mut current, piece, fit);
        }
        finish_row(&mut lines, current);
        assert_eq!(lines.join("  "), pieces.concat());
        assert!(lines.iter().skip(1).all(|l| l.starts_with('\u{2022}')));
    }
}

#[test]
fn a_hard_line_with_no_words_is_one_empty_line() {
    assert_eq!(hard_line_lines(&vec![], &vec![]), vec![String::new()]);
    let words: Vec<String> = vec!["alpha".into(), "beta".into(), "gamma".into()];
    assert_eq!(hard_line_lines(&words, &vec![3]), vec!["alpha beta", "gamma"]);
}
