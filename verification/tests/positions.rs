use tweep::positions::Position;

fn get_default() -> Position {
    let pos = Position::StoryLevel;
    assert_eq!(pos, Position::StoryLevel);
    assert_eq!(pos.get_column(), None);
    assert_eq!(pos.get_row(), None);
    assert_eq!(pos.get_file(), None);

    pos
}

#[test]
fn incremental_build() {
    let mut pos = get_default();

    pos.set_column(23);
    assert_eq!(pos, Position::Column(23));
    assert_eq!(pos.get_column(), Some(23));
    assert_eq!(pos.get_row(), None);
    assert_eq!(pos.get_file(), None);

    pos.set_row(5);
    assert_eq!(pos, Position::RowColumn(5, 23));
    assert_eq!(pos.get_column(), Some(23));
    assert_eq!(pos.get_row(), Some(5));
    assert_eq!(pos.get_file(), None);

    let file_name = "file.ext".to_string();
    pos.set_file(file_name.clone());
    assert_eq!(pos, Position::File(file_name.clone(), 5, 23));
    assert_eq!(pos.get_column(), Some(23));
    assert_eq!(pos.get_row(), Some(5));
    assert_eq!(pos.get_file(), Some(&file_name[..]));
}

#[test]
fn file() {
    let mut pos = get_default();

    let file_name = "file.ext".to_string();
    pos.set_file(file_name.clone());
    assert_eq!(pos, Position::File(file_name.clone(), 0, 0));
    assert_eq!(pos.get_column(), Some(0));
    assert_eq!(pos.get_row(), Some(0));
    assert_eq!(pos.get_file(), Some(&file_name[..]));
}

#[test]
fn row() {
    let mut pos = get_default();

    pos.set_row(5);
    assert_eq!(pos, Position::RowColumn(5, 0));
    assert_eq!(pos.get_column(), Some(0));
    assert_eq!(pos.get_row(), Some(5));
    assert_eq!(pos.get_file(), None);
}

#[test]
fn offset_column() {
    let mut pos = get_default();

    pos.offset_column(23);
    assert_eq!(pos, Position::Column(23));
    assert_eq!(pos.get_column(), Some(23));
    assert_eq!(pos.get_row(), None);
    assert_eq!(pos.get_file(), None);

    pos.offset_column(23);
    assert_eq!(pos, Position::Column(46));
    assert_eq!(pos.get_column(), Some(46));
    assert_eq!(pos.get_row(), None);
    assert_eq!(pos.get_file(), None);

    pos.set_row(5);
    assert_eq!(pos, Position::RowColumn(5, 46));
    assert_eq!(pos.get_column(), Some(46));
    assert_eq!(pos.get_row(), Some(5));
    assert_eq!(pos.get_file(), None);

    pos.offset_column(23);
    assert_eq!(pos, Position::RowColumn(5, 69));
    assert_eq!(pos.get_column(), Some(69));
    assert_eq!(pos.get_row(), Some(5));
    assert_eq!(pos.get_file(), None);

    let file_name = "file.ext".to_string();
    pos.set_file(file_name.clone());
    assert_eq!(pos, Position::File(file_name.clone(), 5, 69));
    assert_eq!(pos.get_column(), Some(69));
    assert_eq!(pos.get_row(), Some(5));
    assert_eq!(pos.get_file(), Some(&file_name[..]));

    pos.offset_column(23);
    assert_eq!(pos, Position::File(file_name.clone(), 5, 92));
    assert_eq!(pos.get_column(), Some(92));
    assert_eq!(pos.get_row(), Some(5));
    assert_eq!(pos.get_file(), Some(&file_name[..]));
}

#[test]
fn offset_row() {
    let mut pos = get_default();

    pos.offset_row(5);
    assert_eq!(pos, Position::RowColumn(5, 0));
    assert_eq!(pos.get_column(), Some(0));
    assert_eq!(pos.get_row(), Some(5));
    assert_eq!(pos.get_file(), None);

    let file_name = "file.ext".to_string();
    pos.set_file(file_name.clone());
    assert_eq!(pos, Position::File(file_name.clone(), 5, 0));
    assert_eq!(pos.get_column(), Some(0));
    assert_eq!(pos.get_row(), Some(5));
    assert_eq!(pos.get_file(), Some(&file_name[..]));

    pos.offset_row(5);
    assert_eq!(pos, Position::File(file_name.clone(), 10, 0));
    assert_eq!(pos.get_column(), Some(0));
    assert_eq!(pos.get_row(), Some(10));
    assert_eq!(pos.get_file(), Some(&file_name[..]));
}
