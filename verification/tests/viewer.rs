use csvlens::reader::CsvLensReader;
use csvlens::reader::OpenError;
use csvlens::reader::ReadError;
use csvlens::reader::string_record_to_vec;
use csvlens::screen::Area;
use csvlens::screen::CellStyle;
use csvlens::screen::ScreenBuffer;
use csvlens::screen::ScreenCell;
use csvlens::table::CsvTable;
use csvlens::table::format_u64;
use csvlens::viewport::CsvTableState;
use csvlens::viewport::InputEvent;
use csvlens::viewport::LoopAction;
use csvlens::viewport::handle_event;

fn sample_bytes() -> Vec<u8> {
    b"id,name,score\n1,a,10\n2,bb,20\n3,c,5\n4,dddd,0\n5,e,99\n".to_vec()
}

fn sample_reader() -> CsvLensReader {
    CsvLensReader::new(sample_bytes()).unwrap()
}

fn row(fields: &[&str]) -> Vec<String> {
    fields.iter().map(|s| s.to_string()).collect()
}

#[test]
fn header_parsed_at_open() {
    let reader = sample_reader();
    assert_eq!(reader.headers, row(&["id", "name", "score"]));
}

#[test]
fn window_first_three() {
    let reader = sample_reader();
    let rows = reader.get_rows(0, 3).unwrap();
    assert_eq!(rows.len(), 3);
    assert_eq!(rows[0], row(&["1", "a", "10"]));
    assert_eq!(rows[1], row(&["2", "bb", "20"]));
    assert_eq!(rows[2], row(&["3", "c", "5"]));
}

#[test]
fn window_short_at_end_of_data() {
    let reader = sample_reader();
    let rows = reader.get_rows(3, 3).unwrap();
    assert_eq!(rows.len(), 2);
    assert_eq!(rows[0], row(&["4", "dddd", "0"]));
    assert_eq!(rows[1], row(&["5", "e", "99"]));
}

#[test]
fn window_never_longer_than_requested() {
    let reader = sample_reader();
    for start in 0..8u64 {
        for count in 0..8u64 {
            let rows = reader.get_rows(start, count).unwrap();
            assert!(rows.len() as u64 <= count);
        }
    }
}

#[test]
fn window_past_end_is_empty() {
    let reader = sample_reader();
    let rows = reader.get_rows(100, 5).unwrap();
    assert!(rows.is_empty());
}

#[test]
fn windowing_consistency_shifted_by_one() {
    let reader = sample_reader();
    let wide = reader.get_rows(0, 3).unwrap();
    let shifted = reader.get_rows(1, 2).unwrap();
    assert_eq!(shifted, wide[1..].to_vec());
}

#[test]
fn quoted_fields_parsed() {
    let reader = CsvLensReader::new(b"a,b\n\"x,y\",z\n".to_vec()).unwrap();
    let rows = reader.get_rows(0, 1).unwrap();
    assert_eq!(rows[0], row(&["x,y", "z"]));
}

#[test]
fn open_empty_file_fails() {
    match CsvLensReader::new(Vec::new()) {
        Err(e) => assert_eq!(e, OpenError::Empty),
        Ok(_) => panic!("empty input must not open"),
    }
}

#[test]
fn open_unreadable_header_fails() {
    let bytes = b"\xff\xff,name\nok,fine\n".to_vec();
    match CsvLensReader::new(bytes) {
        Err(e) => assert_eq!(e, OpenError::Unreadable),
        Ok(_) => panic!("a malformed header must not open"),
    }
}

#[test]
fn open_succeeds_despite_later_malformed_row() {
    // only the header record must parse at open
    let reader = CsvLensReader::new(b"id,name\nok,fine\nx,\xff\xff\n".to_vec()).unwrap();
    assert_eq!(reader.headers, row(&["id", "name"]));
}

#[test]
fn malformed_row_reported_with_its_index() {
    let reader = CsvLensReader::new(b"id,name\nok,fine\nx,\xff\xff\n".to_vec()).unwrap();
    match reader.get_rows(0, 10).unwrap_err() {
        ReadError::Malformed(i) => assert_eq!(i, 1),
    }
}

#[test]
fn malformed_row_beyond_scan_range_is_harmless() {
    // the scan stops at rows_from + num_rows, so a bad record past the
    // window does not fail the query
    let reader = CsvLensReader::new(b"id,name\nok,fine\nx,\xff\xff\n".to_vec()).unwrap();
    let rows = reader.get_rows(0, 1).unwrap();
    assert_eq!(rows, vec![row(&["ok", "fine"])]);
}

#[test]
fn string_record_round_trip() {
    let record = csv::StringRecord::from(vec!["one", "two", "three"]);
    assert_eq!(string_record_to_vec(&record), row(&["one", "two", "three"]));
}

#[test]
fn column_widths_from_header_and_window() {
    let reader = sample_reader();
    let rows = reader.get_rows(0, 5).unwrap();
    let table = CsvTable::new(&reader.headers, rows);
    // id: max(2, 1) + 4; name: max(4, 4) + 4; score: max(5, 2) + 4
    assert_eq!(table.get_column_widths(), vec![6u16, 8, 9]);
}

#[test]
fn column_widths_ignore_extra_fields() {
    let table = CsvTable::new(&row(&["a", "b"]), vec![row(&["1", "2", "3333333"])]);
    assert_eq!(table.get_column_widths(), vec![5u16, 5]);
}

#[test]
fn scroll_round_trip_restores_offset_and_window() {
    let reader = sample_reader();
    let mut state = CsvTableState::new("sample.csv".to_string());
    state.set_rows_offset(2);
    let before = reader.get_rows(state.rows_offset, 3).unwrap();
    state.scroll_down();
    state.scroll_up();
    assert_eq!(state.rows_offset, 2);
    let after = reader.get_rows(state.rows_offset, 3).unwrap();
    assert_eq!(before, after);
}

#[test]
fn scroll_down_saturates_at_the_top_of_the_range() {
    let mut state = CsvTableState::new("sample.csv".to_string());
    state.set_rows_offset(u64::MAX);
    state.scroll_down();
    assert_eq!(state.rows_offset, u64::MAX);
}

#[test]
fn scroll_up_stops_at_zero() {
    let mut state = CsvTableState::new("sample.csv".to_string());
    state.scroll_up();
    assert_eq!(state.rows_offset, 0);
}

#[test]
fn scroll_right_saturates_without_more_cols() {
    let mut state = CsvTableState::new("sample.csv".to_string());
    state.set_cols_offset(3);
    state.set_more_cols_to_show(false);
    state.scroll_right();
    assert_eq!(state.cols_offset, 3);
    state.set_more_cols_to_show(true);
    state.scroll_right();
    assert_eq!(state.cols_offset, 4);
    state.scroll_left();
    assert_eq!(state.cols_offset, 3);
}

#[test]
fn degenerate_render_writes_nothing() {
    let reader = sample_reader();
    let rows = reader.get_rows(0, 5).unwrap();
    let table = CsvTable::new(&reader.headers, rows);
    let mut state = CsvTableState::new("sample.csv".to_string());
    let mut buf = ScreenBuffer::new(20, 10);
    buf.set_cell(4, 4, ScreenCell { ch: 'Z', style: CellStyle::Bold });
    table.render(Area { width: 0, height: 10 }, &mut buf, &mut state);
    table.render(Area { width: 20, height: 0 }, &mut buf, &mut state);
    table.render(Area { width: 20, height: 5 }, &mut buf, &mut state);
    for x in 0..20u16 {
        for y in 0..10u16 {
            let cell = buf.get(x, y);
            if x == 4 && y == 4 {
                assert_eq!(cell, ScreenCell { ch: 'Z', style: CellStyle::Bold });
            } else {
                assert_eq!(cell, ScreenCell { ch: ' ', style: CellStyle::Plain });
            }
        }
    }
}

fn row_text(buf: &ScreenBuffer, y: u16) -> String {
    let mut s = String::new();
    for x in 0..buf.width {
        s.push(buf.get(x, y).ch);
    }
    s
}

#[test]
fn short_row_renders_blank_third_column() {
    // A two-field row against a three-column header: the missing field is
    // blank on screen, and nothing shifts.
    let header = row(&["id", "name", "score"]);
    let rows = vec![row(&["7", "x"])];
    let table = CsvTable::new(&header, rows);
    let mut state = CsvTableState::new("short.csv".to_string());
    let mut buf = ScreenBuffer::new(40, 8);
    table.render(Area { width: 40, height: 8 }, &mut buf, &mut state);
    // gutter: one digit plus margin, so row content starts at x = 6
    // widths: id 6, name 8, score 9
    assert_eq!(&row_text(&buf, 1)[6..12], "id    ");
    assert_eq!(&row_text(&buf, 1)[12..20], "name    ");
    assert_eq!(&row_text(&buf, 1)[20..25], "score");
    assert_eq!(&row_text(&buf, 3)[6..12], "7     ");
    assert_eq!(&row_text(&buf, 3)[12..20], "x       ");
    // the third column's whole band stays blank
    assert_eq!(&row_text(&buf, 3)[20..29], "         ");
    assert!(!state.more_cols_to_show);
    // header styling is bold, data plain, gutter dim
    assert_eq!(buf.get(6, 1).style, CellStyle::Bold);
    assert_eq!(buf.get(6, 3).style, CellStyle::Plain);
    assert_eq!(buf.get(0, 3), ScreenCell { ch: '1', style: CellStyle::Dim });
    assert_eq!(buf.get(3, 3), ScreenCell { ch: '|', style: CellStyle::Dim });
}

#[test]
fn render_full_frame_layout() {
    let reader = sample_reader();
    let rows = reader.get_rows(0, 5).unwrap();
    let table = CsvTable::new(&reader.headers, rows);
    let mut state = CsvTableState::new("sample.csv".to_string());
    let mut buf = ScreenBuffer::new(30, 8);
    table.render(Area { width: 30, height: 8 }, &mut buf, &mut state);
    // header band borders
    assert_eq!(row_text(&buf, 0), "-".repeat(30));
    assert_eq!(row_text(&buf, 2), "-".repeat(30));
    // body band: three rows fit (height 8 - 5), numbered from 1
    assert_eq!(buf.get(0, 3).ch, '1');
    assert_eq!(buf.get(0, 4).ch, '2');
    assert_eq!(buf.get(0, 5).ch, '3');
    assert_eq!(&row_text(&buf, 3)[6..12], "1     ");
    assert_eq!(&row_text(&buf, 4)[6..12], "2     ");
    assert_eq!(&row_text(&buf, 5)[6..12], "3     ");
    // status band: border then the file name
    assert_eq!(row_text(&buf, 6), "-".repeat(30));
    assert_eq!(&row_text(&buf, 7)[..10], "sample.csv");
}

#[test]
fn short_bottom_row_still_reports_more_columns() {
    // the flag is computed over all header columns even when the bottom
    // visible row has fewer fields, so cut-off columns stay reachable
    let header = row(&["aa", "bb", "cc"]);
    let rows = vec![row(&["x"])];
    let table = CsvTable::new(&header, rows);
    let mut state = CsvTableState::new("t.csv".to_string());
    let mut buf = ScreenBuffer::new(13, 6);
    table.render(Area { width: 13, height: 6 }, &mut buf, &mut state);
    assert!(state.more_cols_to_show);
    state.scroll_right();
    assert_eq!(state.cols_offset, 1);
}

#[test]
fn render_reports_more_columns_and_scrolls_right() {
    let reader = sample_reader();
    let rows = reader.get_rows(0, 5).unwrap();
    let table = CsvTable::new(&reader.headers, rows.clone());
    let mut state = CsvTableState::new("sample.csv".to_string());
    let mut buf = ScreenBuffer::new(12, 8);
    // only the first column fits after the gutter
    table.render(Area { width: 12, height: 8 }, &mut buf, &mut state);
    assert!(state.has_more_cols_to_show());
    state.scroll_right();
    assert_eq!(state.cols_offset, 1);
    let mut buf2 = ScreenBuffer::new(16, 8);
    table.render(Area { width: 16, height: 8 }, &mut buf2, &mut state);
    // now the first visible column is "name"
    assert_eq!(&row_text(&buf2, 1)[6..10], "name");
    assert_eq!(&row_text(&buf2, 3)[6..8], "a ");
}

#[test]
fn vertical_clipping_stops_at_body_band() {
    let reader = sample_reader();
    let rows = reader.get_rows(0, 5).unwrap();
    let table = CsvTable::new(&reader.headers, rows);
    let mut state = CsvTableState::new("sample.csv".to_string());
    let mut buf = ScreenBuffer::new(30, 8);
    table.render(Area { width: 30, height: 8 }, &mut buf, &mut state);
    // rows 4 and 5 of the window do not fit; the status border stands where
    // the fourth row would have gone
    assert_eq!(buf.get(6, 6).ch, '-');
}

#[test]
fn format_u64_digits() {
    assert_eq!(format_u64(0), vec!['0']);
    assert_eq!(format_u64(7), vec!['7']);
    assert_eq!(format_u64(10), vec!['1', '0']);
    assert_eq!(format_u64(90210), vec!['9', '0', '2', '1', '0']);
    assert_eq!(format_u64(u64::MAX).len(), 20);
}

#[test]
fn events_drive_the_loop() {
    let mut state = CsvTableState::new("sample.csv".to_string());
    let mut num_rows: u64 = 50;
    assert_eq!(handle_event(&mut state, &mut num_rows, &InputEvent::Down), LoopAction::Requery);
    assert_eq!(state.rows_offset, 1);
    assert_eq!(handle_event(&mut state, &mut num_rows, &InputEvent::Up), LoopAction::Requery);
    assert_eq!(state.rows_offset, 0);
    assert_eq!(handle_event(&mut state, &mut num_rows, &InputEvent::Up), LoopAction::Redraw);
    assert_eq!(state.rows_offset, 0);
    assert_eq!(
        handle_event(&mut state, &mut num_rows, &InputEvent::Resize { height: 60 }),
        LoopAction::Requery
    );
    assert_eq!(num_rows, 60);
    assert_eq!(
        handle_event(&mut state, &mut num_rows, &InputEvent::Resize { height: 40 }),
        LoopAction::Redraw
    );
    assert_eq!(num_rows, 60);
    assert_eq!(handle_event(&mut state, &mut num_rows, &InputEvent::Other), LoopAction::Redraw);
    assert_eq!(handle_event(&mut state, &mut num_rows, &InputEvent::Quit), LoopAction::Exit);
}
