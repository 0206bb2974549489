use tablefmt::Align;
use tablefmt::Border;
use tablefmt::Cell;
use tablefmt::Column;
use tablefmt::Row;
use tablefmt::Table;
use tablefmt::border::resolve;

#[test]
fn test_padding_size() {
    assert_eq!(Align::Left.padding_size(), 0);
    assert_eq!(Align::Right.padding_size(), 0);
    assert_eq!(Align::Center.padding_size(), 0);
    assert_eq!(Align::LeftPadded { padl: 4 }.padding_size(), 4);
    assert_eq!(Align::RightPadded { padr: 3 }.padding_size(), 3);
    assert_eq!(Align::CenterPadded { padl: 2, padr: 3 }.padding_size(), 5);
    assert_eq!(Align::default(), Align::Left);
}

#[test]
fn test_column_accessors() {
    assert_eq!(Column::fixed_width(3).border(), None);
    assert_eq!(Column::flexible_width().border(), None);
    let col: Column = Border::Double.into();
    assert_eq!(col.border(), Some(Border::Double));
}

#[test]
fn test_row_accessors() {
    let row: Row = Border::Single.into();
    assert_eq!(row.border(), Some(Border::Single));
    assert!(row.cells().is_none());

    let row = Row::fixed_height(2, vec![Cell::left("a")]);
    assert_eq!(row.border(), None);
    let cells = row.cells().unwrap();
    assert_eq!(cells.len(), 1);
    assert_eq!(cells[0].value, "a");
    assert_eq!(cells[0].align, Align::Left);

    let row = Row::flexible_height(vec![Cell::right("b"), Cell::center("c")]);
    let cells = row.cells().unwrap();
    assert_eq!(cells[0].align, Align::Right);
    assert_eq!(cells[1].align, Align::Center);
}

#[test]
fn test_junction_glyphs() {
    // the four corners of a 2-by-2 grid, in all four style pairings
    assert_eq!(resolve(0, 0, 2, 2, Some(Border::Single), Some(Border::Single)), '┌');
    assert_eq!(resolve(0, 0, 2, 2, Some(Border::Double), Some(Border::Double)), '╔');
    assert_eq!(resolve(0, 0, 2, 2, Some(Border::Single), Some(Border::Double)), '╓');
    assert_eq!(resolve(0, 0, 2, 2, Some(Border::Double), Some(Border::Single)), '╒');
    assert_eq!(resolve(0, 1, 2, 2, Some(Border::Single), Some(Border::Single)), '┐');
    assert_eq!(resolve(1, 0, 2, 2, Some(Border::Single), Some(Border::Single)), '└');
    assert_eq!(resolve(1, 1, 2, 2, Some(Border::Single), Some(Border::Single)), '┘');
    // tees and the cross, in a 3-by-3 grid
    assert_eq!(resolve(0, 1, 3, 3, Some(Border::Single), Some(Border::Single)), '┬');
    assert_eq!(resolve(1, 0, 3, 3, Some(Border::Single), Some(Border::Single)), '├');
    assert_eq!(resolve(1, 1, 3, 3, Some(Border::Single), Some(Border::Single)), '┼');
    assert_eq!(resolve(1, 2, 3, 3, Some(Border::Single), Some(Border::Single)), '┤');
    assert_eq!(resolve(2, 1, 3, 3, Some(Border::Single), Some(Border::Single)), '┴');
    assert_eq!(resolve(1, 1, 3, 3, Some(Border::Single), Some(Border::Double)), '╫');
    assert_eq!(resolve(1, 1, 3, 3, Some(Border::Double), Some(Border::Single)), '╪');
    // straight segments where only one style is present
    assert_eq!(resolve(0, 0, 1, 1, Some(Border::Single), None), '─');
    assert_eq!(resolve(0, 0, 1, 1, Some(Border::Double), None), '═');
    assert_eq!(resolve(0, 0, 1, 1, None, Some(Border::Single)), '│');
    assert_eq!(resolve(0, 0, 1, 1, None, Some(Border::Double)), '║');
}

#[test]
fn test_junction_depends_on_mask_only() {
    // the same adjacency mask at different absolute positions and grid
    // sizes yields the same glyph
    let a = resolve(1, 1, 3, 3, Some(Border::Single), Some(Border::Double));
    let b = resolve(4, 7, 9, 12, Some(Border::Single), Some(Border::Double));
    assert_eq!(a, b);
    let c = resolve(0, 0, 2, 2, Some(Border::Double), Some(Border::Single));
    let d = resolve(0, 0, 5, 9, Some(Border::Double), Some(Border::Single));
    assert_eq!(c, d);
}

#[test]
fn test_try_render_ok() {
    let mut table = Table::new(vec![
        Border::Single.into(),
        Column::fixed_width(3),
        Border::Single.into(),
    ]);
    table.append_row(Border::Single.into());
    table.append_row(Row::fixed_height(1, vec![Cell::left("abc")]));
    table.append_row(Border::Single.into());
    let direct = table.render();
    assert_eq!(table.try_render(), Some(direct));
}

#[test]
fn test_try_render_rejects_bare_junction() {
    // a single border column crossed by three border rows: the middle
    // junction has neighbours only above and below, a shape with no glyph
    let mut table = Table::new(vec![Border::Single.into()]);
    table.append_row(Border::Single.into());
    table.append_row(Border::Single.into());
    table.append_row(Border::Single.into());
    assert_eq!(table.try_render(), None);
}
