use kindlr::parser::{parse_clippings, Clipping, ClippingType, Location, ParseError, Weekday};
use kindlr::{Config, KindlrError};

const HIGHLIGHT: &str = "\
Book Title (Author Name)
- Your Highlight on page 123 | Location 1234-1235 | Added on Monday, 26 August 2025 12:57:30

Highlighted text content goes here.";

const BOOKMARK: &str = "\
Book Title (Author Name)
- Your Bookmark on page 123 | Location 1234 | Added on Monday, 26 August 2025 12:57:30

";

#[test]
fn test_weekday_parsing() {
    assert_eq!("Monday".parse::<Weekday>().unwrap(), Weekday::Monday);
    assert_eq!("Sunday".parse::<Weekday>().unwrap(), Weekday::Sunday);
    assert!("InvalidDay".parse::<Weekday>().is_err());
}

#[test]
fn test_clipping_parsing_en() {
    // Highlight
    let result = Clipping::from_text(HIGHLIGHT).unwrap();

    assert_eq!(result.clipping_type, ClippingType::Highlight);
    assert_eq!(result.book_title, "Book Title");
    assert_eq!(result.author, "Author Name");
    assert_eq!(result.page, Some(123));
    assert_eq!(
        result.location,
        Location {
            start: 1234,
            end: Some(1235)
        }
    );
    assert_eq!(result.datetime, "26 August 2025 12:57:30");
    assert_eq!(result.weekday, Weekday::Monday);
    assert_eq!(
        result.content,
        Some(format!("Highlighted text content goes here."))
    );

    // Bookmark
    let result = Clipping::from_text(BOOKMARK).unwrap();

    assert_eq!(result.clipping_type, ClippingType::Bookmark);
    assert_eq!(result.content, None);
    assert_eq!(
        result.location,
        Location {
            start: 1234,
            end: None
        }
    );

    // Note
    let note = "\
Book Title (Author Name)
- Your Note on page 123 | Location 1234 | Added on Monday, 26 August 2025 12:57:30

Your note content goes here.";
    let result = Clipping::from_text(note).unwrap();

    assert_eq!(result.clipping_type, ClippingType::Note);
    assert_eq!(
        result.content,
        Some(format!("Your note content goes here."))
    );
}

#[test]
fn test_missing_content() {
    let clipping = "\
Book (Author)
Location 123 | Added on Monday, 1 January 2025 10:00:00";

    assert!(Clipping::from_text(clipping).is_err());
}

fn field_error(r: Result<Clipping, ParseError>) -> String {
    match r {
        Err(ParseError::MissingField(f)) => f,
        other => panic!("expected a missing field, got {:?}", other),
    }
}

fn format_error(r: Result<Clipping, ParseError>) -> String {
    match r {
        Err(ParseError::InvalidFormat(m)) => m,
        other => panic!("expected an invalid format, got {:?}", other),
    }
}

#[test]
fn highlight_scenario_gives_every_field() {
    let text = "Book Title (Author Name)\n- Your Highlight on page 123 | Location 1234-1235 | Added on Monday, 26 August 2025 12:57:30\n\nHighlighted text.";
    let c = Clipping::from_text(text).unwrap();
    assert_eq!(c.clipping_type, ClippingType::Highlight);
    assert_eq!(c.book_title, "Book Title");
    assert_eq!(c.author, "Author Name");
    assert_eq!(c.page, Some(123));
    assert_eq!(c.location, Location { start: 1234, end: Some(1235) });
    assert_eq!(c.weekday, Weekday::Monday);
    assert_eq!(c.datetime, "26 August 2025 12:57:30");
    assert_eq!(c.content, Some("Highlighted text.".to_string()));
}

#[test]
fn bookmark_without_content_line_succeeds() {
    let text = "Book Title (Author Name)\n- Your Bookmark on page 5 | Location 77 | Added on Friday, 3 March 2023 9:05:01";
    let c = Clipping::from_text(text).unwrap();
    assert_eq!(c.clipping_type, ClippingType::Bookmark);
    assert_eq!(c.content, None);
    assert_eq!(c.page, Some(5));
    assert_eq!(c.location, Location { start: 77, end: None });
    assert_eq!(c.weekday, Weekday::Friday);
    assert_eq!(c.datetime, "3 March 2023 9:05:01");
}

#[test]
fn note_without_content_line_is_missing_content() {
    let text = "Book (Author)\n- Your Note on page 1 | Location 10 | Added on Tuesday, 1 January 2025 10:00:00\n\n  \n";
    assert_eq!(field_error(Clipping::from_text(text)), "content");
    let text = "Book (Author)\n- Your Highlight on Location 10 | Added on Tuesday, 1 January 2025 10:00:00";
    assert_eq!(field_error(Clipping::from_text(text)), "content");
}

#[test]
fn author_in_extra_parentheses_is_kept_whole() {
    let text = "The Book (Some Author (Translator))\n- Your Bookmark on Location 1 | Added on Sunday, 2 February 2020 01:02:03";
    let c = Clipping::from_text(text).unwrap();
    assert_eq!(c.book_title, "The Book");
    assert_eq!(c.author, "Some Author (Translator)");
    let text = "The Book ((Wrapped Author))\n- Your Bookmark on Location 1 | Added on Sunday, 2 February 2020 01:02:03";
    let c = Clipping::from_text(text).unwrap();
    assert_eq!(c.author, "(Wrapped Author)");
}

#[test]
fn title_takes_the_first_possible_break() {
    let text = "A (B) (C)\n- Your Bookmark on Location 1 | Added on Sunday, 2 February 2020 01:02:03";
    let c = Clipping::from_text(text).unwrap();
    assert_eq!(c.book_title, "A");
    assert_eq!(c.author, "B) (C");
}

#[test]
fn missing_lines_name_their_field() {
    assert_eq!(field_error(Clipping::from_text("")), "title/author");
    assert_eq!(field_error(Clipping::from_text(" \n\t\n")), "title/author");
    assert_eq!(field_error(Clipping::from_text("Book (Author)\n\n")), "metadata");
}

#[test]
fn malformed_title_line_is_invalid_format() {
    let text = "No author here\n- Your Note on Location 1 | Added on Monday, 1 May 2000 1:00:00\nx";
    assert_eq!(
        format_error(Clipping::from_text(text)),
        "Expected 'Title (Author)' format, got: No author here"
    );
}

#[test]
fn each_metadata_field_failure_is_reported() {
    let head = "Book (Author)\n";
    let meta = "- Your Thing on Location 1 | Added on Monday, 1 May 2000 1:00:00";
    assert_eq!(
        format_error(Clipping::from_text(&format!("{}{}\nx", head, meta))),
        format!("Failed to parse clipping type: {}", meta)
    );
    let meta = "- Your Note on page 1 | Added on Monday, 1 May 2000 1:00:00";
    assert_eq!(
        format_error(Clipping::from_text(&format!("{}{}\nx", head, meta))),
        format!("Failed to parse location: {}", meta)
    );
    let meta = "- Your Note on Location 4 | Added on Someday, 1 May 2000 1:00:00";
    assert_eq!(
        format_error(Clipping::from_text(&format!("{}{}\nx", head, meta))),
        format!("Failed to parse weekday: {}", meta)
    );
    let meta = "- Your Note on Location 4 | Added on Monday, 1 Mai 2000 1:00:00";
    assert_eq!(
        format_error(Clipping::from_text(&format!("{}{}\nx", head, meta))),
        format!("Failed to parse datetime: {}", meta)
    );
}

#[test]
fn numbers_too_large_are_invalid_format() {
    let head = "Book (Author)\n";
    let meta = "- Your Note on page 4294967296 | Location 1 | Added on Monday, 1 May 2000 1:00:00";
    assert_eq!(
        format_error(Clipping::from_text(&format!("{}{}\nx", head, meta))),
        "Invalid page: 4294967296"
    );
    let meta = "- Your Note on Location 99999999999-1 | Added on Monday, 1 May 2000 1:00:00";
    assert_eq!(
        format_error(Clipping::from_text(&format!("{}{}\nx", head, meta))),
        "Invalid start location: 99999999999"
    );
    let meta = "- Your Note on Location 1-99999999999 | Added on Monday, 1 May 2000 1:00:00";
    assert_eq!(
        format_error(Clipping::from_text(&format!("{}{}\nx", head, meta))),
        "Invalid end location: 99999999999"
    );
    let meta = "- Your Note on page 4294967295 | Location 1 | Added on Monday, 1 May 2000 1:00:00";
    let c = Clipping::from_text(&format!("{}{}\nx", head, meta)).unwrap();
    assert_eq!(c.page, Some(4294967295));
}

#[test]
fn page_is_optional() {
    let text = "Book (Author)\n- Your Highlight on Location 12-15 | Added on Wednesday, 12 December 2012 23:59:59\nbody";
    let c = Clipping::from_text(text).unwrap();
    assert_eq!(c.page, None);
    assert_eq!(c.location, Location { start: 12, end: Some(15) });
    assert_eq!(c.weekday, Weekday::Wednesday);
    assert_eq!(c.datetime, "12 December 2012 23:59:59");
}

#[test]
fn single_location_has_no_end() {
    let text = "Book (Author)\n- Your Highlight on Location 42 | Added on Thursday, 7 July 2011 7:07:07\nbody";
    let c = Clipping::from_text(text).unwrap();
    assert_eq!(c.location, Location { start: 42, end: None });
}

#[test]
fn fields_are_trimmed_and_crlf_is_removed() {
    let text = "\r\n  Book   Title   (  Author Name  )\r\n- Your Note on page 9 | Location 3 | Added on Saturday, 30 April 1999 10:11:12\r\n\r\n Body text \r\n";
    let c = Clipping::from_text(text).unwrap();
    assert_eq!(c.book_title, "Book   Title");
    assert_eq!(c.author, "Author Name");
    assert_eq!(c.content, Some(" Body text ".to_string()));
    assert_eq!(c.weekday, Weekday::Saturday);
}

#[test]
fn date_match_skips_earlier_numbers() {
    let text = "Book (Author)\n- Your Note on page 126 | Location 3 | Added on Saturday, 126 April 1999 10:11:12\nx";
    let c = Clipping::from_text(text).unwrap();
    assert_eq!(c.datetime, "26 April 1999 10:11:12");
}

#[test]
fn empty_or_blank_file_has_no_clippings() {
    assert_eq!(parse_clippings("").unwrap().len(), 0);
    assert_eq!(parse_clippings(" \n\r\n\t").unwrap().len(), 0);
    assert_eq!(parse_clippings("==========\n  \n==========\n").unwrap().len(), 0);
}

#[test]
fn file_entries_come_in_order() {
    let file = format!("{}\n==========\n{}\n==========\n", HIGHLIGHT, BOOKMARK);
    let v = parse_clippings(&file).unwrap();
    assert_eq!(v.len(), 2);
    assert_eq!(v[0].clipping_type, ClippingType::Highlight);
    assert_eq!(v[1].clipping_type, ClippingType::Bookmark);
}

#[test]
fn second_entry_failure_stops_the_file() {
    let file = format!("{}\n==========\nBroken (Entry)\n==========\n{}", HIGHLIGHT, BOOKMARK);
    match parse_clippings(&file) {
        Err(ParseError::InvalidFormat(m)) => {
            assert_eq!(m, "Failed to parse clipping #2: Missing field: metadata")
        }
        other => panic!("expected a failure, got {:?}", other.map(|v| v.len())),
    }
}

#[test]
fn entry_numbers_skip_blank_pieces() {
    let mut file = String::from("==========\n \n==========\n");
    for _ in 0..11 {
        file.push_str(BOOKMARK);
        file.push_str("\n==========\n");
    }
    file.push_str("Bad line");
    match parse_clippings(&file) {
        Err(ParseError::InvalidFormat(m)) => assert_eq!(
            m,
            "Failed to parse clipping #12: Invalid format: Expected 'Title (Author)' format, got: Bad line"
        ),
        other => panic!("expected a failure, got {:?}", other.map(|v| v.len())),
    }
}

#[test]
fn parsing_twice_gives_the_same_records() {
    let file = format!("{}\n==========\n{}", HIGHLIGHT, BOOKMARK);
    let a: Vec<String> = parse_clippings(&file).unwrap().iter().map(|c| c.describe()).collect();
    let b: Vec<String> = parse_clippings(&file).unwrap().iter().map(|c| c.describe()).collect();
    assert_eq!(a, b);
}

#[test]
fn body_presence_follows_kind() {
    let file = format!("{}\n==========\n{}", HIGHLIGHT, BOOKMARK);
    for c in parse_clippings(&file).unwrap() {
        assert_eq!(c.content.is_none(), c.clipping_type == ClippingType::Bookmark);
    }
}

#[test]
fn clipping_renders_as_text() {
    let c = Clipping::from_text(HIGHLIGHT).unwrap();
    assert_eq!(
        c.describe(),
        "Book: Book Title\nAuthor: Author Name\nLocation: 1234-1235\nDate: 26 August 2025 12:57:30 (Monday)\nPage: 123\nContent: Highlighted text content goes here."
    );
    let b = Clipping::from_text("B (A)\n- Your Bookmark on Location 7 | Added on Friday, 1 May 2000 1:00:00").unwrap();
    assert_eq!(
        b.describe(),
        "Book: B\nAuthor: A\nLocation: 7\nDate: 1 May 2000 1:00:00 (Friday)\nPage: N/A\nContent: N/A"
    );
    assert_eq!(Location { start: 0, end: None }.describe(), "0");
    assert_eq!(Location { start: 10, end: Some(205) }.describe(), "10-205");
}

#[test]
fn names_read_and_write() {
    assert_eq!("Highlight".parse::<ClippingType>().unwrap(), ClippingType::Highlight);
    assert_eq!("Note".parse::<ClippingType>().unwrap(), ClippingType::Note);
    assert_eq!(
        "note".parse::<ClippingType>().unwrap_err(),
        "Invalid clipping type: note"
    );
    assert_eq!("InvalidDay".parse::<Weekday>().unwrap_err(), "Invalid weekday: InvalidDay");
    assert_eq!("Thursday".parse::<Weekday>().unwrap(), Weekday::Thursday);
    assert_eq!(Weekday::Saturday.name(), "Saturday");
    assert_eq!(ClippingType::Bookmark.name(), "Bookmark");
}

#[test]
fn errors_describe_themselves() {
    assert_eq!(ParseError::MissingField("x".to_string()).describe(), "Missing field: x");
    assert_eq!(ParseError::InvalidFormat("y".to_string()).describe(), "Invalid format: y");
    assert_eq!(ParseError::InvalidWeekday("z".to_string()).describe(), "Invalid weekday: z");
    assert_eq!(
        KindlrError::Parse(ParseError::MissingField("x".to_string())).describe(),
        "Parse error: Missing field: x"
    );
    assert_eq!(KindlrError::Config("c".to_string()).describe(), "Configuration error: c");
    let io = std::io::Error::new(std::io::ErrorKind::NotFound, "gone");
    assert_eq!(KindlrError::from(io).describe(), "IO error: gone");
}

#[test]
fn config_takes_the_first_argument() {
    let c = Config::build(vec!["prog".to_string(), "file.txt".to_string()]).unwrap();
    assert_eq!(c.file_path, "file.txt");
    match Config::build(vec!["prog".to_string()]) {
        Err(KindlrError::Config(m)) => assert_eq!(m, "Missing file path argument"),
        _ => panic!("expected a configuration error"),
    }
}

#[test]
fn entry_without_page_reads_back_as_written() {
    let text = "A Title (An Author)\n- Your Note on Location 5 | Added on Sunday, 1 September 2024 8:00:00\nNote body";
    let c = Clipping::from_text(text).unwrap();
    assert_eq!(c.clipping_type, ClippingType::Note);
    assert_eq!(c.book_title, "A Title");
    assert_eq!(c.author, "An Author");
    assert_eq!(c.page, None);
    assert_eq!(c.location, Location { start: 5, end: None });
    assert_eq!(c.weekday, Weekday::Sunday);
    assert_eq!(c.datetime, "1 September 2024 8:00:00");
    assert_eq!(c.content, Some("Note body".to_string()));
}

#[test]
fn equals_inside_a_line_do_not_separate_entries() {
    let file = "Book Title (Author Name)\n- Your Highlight on page 123 | Location 1234-1235 | Added on Monday, 26 August 2025 12:57:30\nx===========y";
    let v = parse_clippings(file).unwrap();
    assert_eq!(v.len(), 1);
    assert_eq!(v[0].content, Some("x===========y".to_string()));
    let file = format!("{}\n====================\n", HIGHLIGHT);
    match parse_clippings(&file) {
        Ok(v) => {
            assert_eq!(v.len(), 1);
            assert_eq!(v[0].content, Some("Highlighted text content goes here.".to_string()));
        }
        Err(e) => panic!("unexpected failure: {}", e.describe()),
    }
}

#[test]
fn separator_lines_may_end_in_crlf() {
    let file = format!("{}\r\n==========\r\n{}\r\n==========", HIGHLIGHT, BOOKMARK);
    let v = parse_clippings(&file).unwrap();
    assert_eq!(v.len(), 2);
    assert_eq!(v[1].clipping_type, ClippingType::Bookmark);
}

#[test]
fn blank_and_separator_lines_have_no_clippings() {
    assert_eq!(parse_clippings("\n   \n==========\n\n==========\n").unwrap().len(), 0);
    assert_eq!(parse_clippings("==========").unwrap().len(), 0);
}

#[test]
fn parenthesis_inside_a_title_word_stays_in_the_title() {
    let text = "A(b) Title (Author)\n- Your Bookmark on Location 1 | Added on Monday, 1 May 2000 1:00:00";
    let c = Clipping::from_text(text).unwrap();
    assert_eq!(c.book_title, "A(b) Title");
    assert_eq!(c.author, "Author");
}

#[test]
fn blank_lines_and_leading_zeros_read_back_as_written() {
    let text = "\n \nBook (Author)\n\n\t\n- Your Highlight on page 7 | Location 3-4 | Added on Tuesday, 05 June 2001 09:08:07\n\nText\n\n";
    let c = Clipping::from_text(text).unwrap();
    assert_eq!(c.book_title, "Book");
    assert_eq!(c.author, "Author");
    assert_eq!(c.page, Some(7));
    assert_eq!(c.location, Location { start: 3, end: Some(4) });
    assert_eq!(c.weekday, Weekday::Tuesday);
    assert_eq!(c.datetime, "05 June 2001 09:08:07");
    assert_eq!(c.content, Some("Text".to_string()));
}
