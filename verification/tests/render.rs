use tablefmt::Align;
use tablefmt::Border;
use tablefmt::Cell;
use tablefmt::Column;
use tablefmt::Row;
use tablefmt::Table;
use tablefmt::TextStyle;

#[test]
fn test_no_cells() {
    let mut table = Table::new(vec![Border::Single.into(), Border::Single.into()]);
    table.append_row(Border::Single.into());
    table.append_row(Border::Single.into());
    let expected = "┌┐\n└┘\n".to_owned();
    assert_eq!(table.render(), expected);

    let mut table = Table::new(vec![Border::Single.into(), Border::Single.into()]);
    table.append_row(Border::Single.into());
    let expected = "──\n".to_owned();
    assert_eq!(table.render(), expected);

    let mut table = Table::new(vec![Border::Single.into(), Border::Single.into()]);
    table.append_row(Row::fixed_height(1, vec![]));
    let expected = "││\n".to_owned();
    assert_eq!(table.render(), expected);
}

#[test]
fn test_empty_cell() {
    let mut table = Table::new(vec![
        Border::Single.into(),
        Column::fixed_width(3),
        Border::Single.into(),
        Column::fixed_width(3),
        Border::Single.into(),
    ]);
    table.append_row(Border::Single.into());
    table.append_row(Border::Single.into());
    table.append_row(Border::Single.into());
    let expected = "┌───┬───┐\n├───┼───┤\n└───┴───┘\n".to_owned();
    assert_eq!(table.render(), expected);

    let mut table = Table::new(vec![
        Border::Single.into(),
        Column::fixed_width(3),
        Border::Single.into(),
        Column::fixed_width(3),
        Border::Single.into(),
    ]);
    table.append_row(Border::Single.into());
    table.append_row(Row::fixed_height(3, Vec::new()));
    table.append_row(Border::Single.into());
    let expected = "┌───┬───┐\n│   │   │\n│   │   │\n│   │   │\n└───┴───┘\n".to_owned();
    assert_eq!(table.render(), expected);
}

#[test]
fn test_fixed_size_cell() {
    let mut table = Table::new(vec![
        Border::Single.into(),
        Column::fixed_width(3),
        Border::Single.into(),
        Column::fixed_width(3),
        Border::Single.into(),
    ]);
    table.append_row(Border::Single.into());
    table.append_row(Row::fixed_height(
        1,
        vec![Cell::left("abc"), Cell::left("123")],
    ));
    table.append_row(Border::Single.into());
    table.append_row(Row::fixed_height(
        1,
        vec![Cell::left("def"), Cell::left("456")],
    ));
    table.append_row(Border::Single.into());
    let expected = "┌───┬───┐\n│abc│123│\n├───┼───┤\n│def│456│\n└───┴───┘\n".to_owned();
    assert_eq!(table.render(), expected);
}

#[test]
fn test_lacking_cell() {
    let mut table = Table::new(vec![
        Border::Single.into(),
        Column::fixed_width(5),
        Border::Single.into(),
        Column::fixed_width(5),
        Border::Single.into(),
        Column::fixed_width(5),
        Border::Single.into(),
    ]);
    table.append_row(Border::Single.into());
    table.append_row(Row::fixed_height(1, vec![Cell::left("(1,1)")]));
    table.append_row(Border::Single.into());
    table.append_row(Row::fixed_height(
        1,
        vec![Cell::left("(2,1)"), Cell::left("(2,2)")],
    ));
    table.append_row(Border::Single.into());
    table.append_row(Row::fixed_height(
        1,
        vec![
            Cell::left("(3,1)"),
            Cell::left("(3,2)"),
            Cell::left("(3,3)"),
        ],
    ));
    table.append_row(Border::Single.into());
    let expected = "┌─────┬─────┬─────┐\n│(1,1)│     │     │\n├─────┼─────┼─────┤\n│(2,1)│(2,2)│     │\n├─────┼─────┼─────┤\n│(3,1)│(3,2)│(3,3)│\n└─────┴─────┴─────┘\n".to_owned();
    assert_eq!(table.render(), expected);
}

#[test]
fn test_wrapping() {
    let mut table = Table::new(vec![
        Border::Single.into(),
        Column::fixed_width(5),
        Border::Single.into(),
        Column::fixed_width(1),
        Border::Single.into(),
    ]);
    table.append_row(Border::Single.into());
    table.append_row(Row::fixed_height(2, vec![Cell::left("abcdefgh")]));
    table.append_row(Border::Single.into());
    table.append_row(Row::fixed_height(
        3,
        vec![Cell::left("abc"), Cell::left("xy")],
    ));
    table.append_row(Border::Single.into());
    let expected = "┌─────┬─┐\n│abcde│ │\n│fgh  │ │\n├─────┼─┤\n│abc  │x│\n│     │y│\n│     │ │\n└─────┴─┘\n".to_owned();
    assert_eq!(table.render(), expected);
}

#[test]
fn test_cjk() {
    let mut table = Table::new(vec![
        Border::Single.into(),
        Column::fixed_width(4),
        Border::Single.into(),
        Column::fixed_width(2),
        Border::Single.into(),
    ]);
    table.append_row(Border::Single.into());
    table.append_row(Row::fixed_height(
        3,
        vec![Cell::left("あい"), Cell::left("うえお")],
    ));
    table.append_row(Border::Single.into());
    table.append_row(Row::fixed_height(2, vec![Cell::left("abc")]));
    table.append_row(Border::Single.into());
    let expected = "┌────┬──┐\n│あい│う│\n│    │え│\n│    │お│\n├────┼──┤\n│abc │  │\n│    │  │\n└────┴──┘\n".to_owned();
    assert_eq!(table.render(), expected);
}

#[test]
fn test_combine_border() {
    let mut table = Table::new(vec![
        Border::Single.into(),
        Column::fixed_width(3),
        Border::Double.into(),
        Column::fixed_width(3),
        Border::Single.into(),
    ]);
    table.append_row(Border::Double.into());
    table.append_row(Row::fixed_height(
        1,
        vec![Cell::left("abc"), Cell::left("123")],
    ));
    table.append_row(Border::Single.into());
    table.append_row(Row::fixed_height(
        1,
        vec![Cell::left("def"), Cell::left("456")],
    ));
    table.append_row(Border::Double.into());
    let expected = "╒═══╦═══╕\n│abc║123│\n├───╫───┤\n│def║456│\n╘═══╩═══╛\n".to_owned();
    assert_eq!(table.render(), expected);
}

#[test]
fn test_empty_table_renders_empty() {
    let table = Table::new(vec![Border::Single.into(), Column::fixed_width(3)]);
    assert_eq!(table.render(), "");
}

#[test]
fn test_render_is_pure() {
    let mut table = Table::new(vec![
        Border::Single.into(),
        Column::flexible_width(),
        Border::Single.into(),
    ]);
    table.append_row(Border::Single.into());
    table.append_row(Row::flexible_height(vec![Cell::left("pure")]));
    table.append_row(Border::Single.into());
    let first = table.render();
    let second = table.render();
    assert_eq!(first, second);
    assert_eq!(first, "┌────┐\n│pure│\n└────┘\n");
}

#[test]
fn test_flexible_width_from_content() {
    let mut table = Table::new(vec![
        Border::Single.into(),
        Column::flexible_width(),
        Border::Single.into(),
    ]);
    table.append_row(Border::Single.into());
    table.append_row(Row::fixed_height(1, vec![Cell::left("abc")]));
    table.append_row(Row::fixed_height(1, vec![Cell::left("a")]));
    table.append_row(Border::Single.into());
    let expected = "┌───┐\n│abc│\n│a  │\n└───┘\n";
    assert_eq!(table.render(), expected);
}

#[test]
fn test_flexible_width_reserves_padding() {
    let mut table = Table::new(vec![
        Border::Single.into(),
        Column::flexible_width(),
        Border::Single.into(),
    ]);
    table.append_row(Row::fixed_height(
        1,
        vec![Cell {
            value: "a".to_owned(),
            align: Align::LeftPadded { padl: 2 },
            style: TextStyle::plain(),
        }],
    ));
    // measured width 1 plus reserved padding 2
    assert_eq!(table.render(), "│  a│\n");
}

#[test]
fn test_flexible_width_floors_at_one() {
    let mut table = Table::new(vec![
        Border::Single.into(),
        Column::flexible_width(),
        Border::Single.into(),
    ]);
    table.append_row(Row::fixed_height(1, vec![Cell::left("")]));
    assert_eq!(table.render(), "│ │\n");
}

#[test]
fn test_flexible_height_from_wrapping() {
    let mut table = Table::new(vec![
        Border::Single.into(),
        Column::fixed_width(3),
        Border::Single.into(),
    ]);
    table.append_row(Row::flexible_height(vec![Cell::left("ab cd ef")]));
    assert_eq!(table.render(), "│ab │\n│cd │\n│ef │\n");
}

#[test]
fn test_wrap_keeps_tokens_whole() {
    let mut table = Table::new(vec![
        Border::Single.into(),
        Column::fixed_width(5),
        Border::Single.into(),
    ]);
    table.append_row(Row::flexible_height(vec![Cell::left("ab cd")]));
    assert_eq!(table.render(), "│ab cd│\n");

    let mut narrow = Table::new(vec![
        Border::Single.into(),
        Column::fixed_width(2),
        Border::Single.into(),
    ]);
    narrow.append_row(Row::flexible_height(vec![Cell::left("ab cd")]));
    assert_eq!(narrow.render(), "│ab│\n│cd│\n");
}

#[test]
fn test_alignment_padding() {
    let mut table = Table::new(vec![
        Border::Single.into(),
        Column::fixed_width(5),
        Border::Single.into(),
    ]);
    table.append_row(Row::fixed_height(1, vec![Cell::right("ab")]));
    table.append_row(Row::fixed_height(1, vec![Cell::center("ab")]));
    table.append_row(Row::fixed_height(1, vec![Cell::left("ab")]));
    assert_eq!(table.render(), "│   ab│\n│ ab  │\n│ab   │\n");
}

#[test]
fn test_configured_padding() {
    let mut table = Table::new(vec![
        Border::Single.into(),
        Column::fixed_width(7),
        Border::Single.into(),
    ]);
    table.append_row(Row::fixed_height(
        1,
        vec![Cell {
            value: "ab".to_owned(),
            align: Align::CenterPadded { padl: 2, padr: 1 },
            style: TextStyle::plain(),
        }],
    ));
    table.append_row(Row::fixed_height(
        1,
        vec![Cell {
            value: "ab".to_owned(),
            align: Align::LeftPadded { padl: 2 },
            style: TextStyle::plain(),
        }],
    ));
    table.append_row(Row::fixed_height(
        1,
        vec![Cell {
            value: "ab".to_owned(),
            align: Align::RightPadded { padr: 2 },
            style: TextStyle::plain(),
        }],
    ));
    // slack goes left for a fixed centre padding, right for a left padding,
    // left for a right padding; padl + padr always equals width - text width
    assert_eq!(table.render(), "│    ab │\n│  ab   │\n│   ab  │\n");
}

#[test]
fn test_excess_cells_are_dropped() {
    let mut table = Table::new(vec![
        Border::Single.into(),
        Column::fixed_width(3),
        Border::Single.into(),
    ]);
    table.append_row(Row::fixed_height(
        1,
        vec![Cell::left("abc"), Cell::left("xyz")],
    ));
    assert_eq!(table.render(), "│abc│\n");
}

#[test]
fn test_styled_cell_is_escape_coded() {
    let mut table = Table::new(vec![
        Border::Single.into(),
        Column::fixed_width(3),
        Border::Single.into(),
    ]);
    let bold = TextStyle {
        is_bold: true,
        ..TextStyle::plain()
    };
    table.append_row(Row::fixed_height(1, vec![Cell::left_with_style("abc", bold)]));
    assert_eq!(table.render(), "│\u{1b}[1mabc\u{1b}[0m│\n");
}

#[test]
fn test_styled_padding_stays_plain() {
    let mut table = Table::new(vec![
        Border::Single.into(),
        Column::fixed_width(5),
        Border::Single.into(),
    ]);
    let bold = TextStyle {
        is_bold: true,
        ..TextStyle::plain()
    };
    table.append_row(Row::fixed_height(1, vec![Cell::left_with_style("abc", bold)]));
    // only the visible text is painted, never the padding
    assert_eq!(table.render(), "│\u{1b}[1mabc\u{1b}[0m  │\n");
}
