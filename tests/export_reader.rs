use music_library::export::{classify_line, parse_number, read_export, trim_line, Element, ExportError};

fn lines(text: &str) -> Vec<String> {
    text.lines().map(|l| l.to_string()).collect()
}

const HEADER: &str = "<?xml version=\"1.0\" standalone=\"yes\"?>\n<rhythmdb version=\"2.0\">\n";

#[test]
fn reads_one_entry() {
    let text = format!(
        "{}  <entry type=\"song\">\n    <title>A%20Song</title>\n    <genre>Rock &amp; Roll</genre>\n    <artist>X</artist>\n    <album>Y</album>\n    <duration>100</duration>\n    <rating>5</rating>\n    <location>file:///home/me/Music/X/Y/a%20song.mp3</location>\n  </entry>\n</rhythmdb>\n",
        HEADER
    );
    let songs = read_export(&lines(&text), &"/home/me/Music".to_string()).unwrap();
    assert_eq!(songs.len(), 1);
    let s = &songs[0];
    assert_eq!(s.title, "A Song");
    assert_eq!(s.genre, "Rock & Roll");
    assert_eq!(s.artist, "X");
    assert_eq!(s.album, "Y");
    assert_eq!(s.duration, 100);
    assert_eq!(s.rating, 5);
    assert_eq!(s.file_location, "/X/Y/a song.mp3");
    assert_eq!(s.id, "");
}

#[test]
fn skips_non_song_lines() {
    let text = format!(
        "{}  <entry type=\"iradio\">\n    <title>Radio</title>\n  </entry>\n  <entry type=\"song\">\n    <title>B</title>\n  </entry>\n</rhythmdb>\n",
        HEADER
    );
    let songs = read_export(&lines(&text), &"/m".to_string()).unwrap();
    assert_eq!(songs.len(), 1);
    assert_eq!(songs[0].title, "B");
}

#[test]
fn unclosed_entry_is_an_error() {
    let text = format!(
        "{}  <entry type=\"song\">\n    <title>B</title>\n  </entry>\n  <entry type=\"song\">\n    <title>C</title>\n",
        HEADER
    );
    assert_eq!(read_export(&lines(&text), &"/m".to_string()), Err(ExportError::UnclosedEntry));
}

#[test]
fn location_outside_prefix_is_an_error() {
    let text = format!(
        "{}  <entry type=\"song\">\n    <location>file:///elsewhere/a.mp3</location>\n  </entry>\n",
        HEADER
    );
    assert_eq!(read_export(&lines(&text), &"/m".to_string()), Err(ExportError::LocationOutsidePrefix));
}

#[test]
fn bad_number_is_an_error() {
    let text = format!("{}  <entry type=\"song\">\n    <duration>12a</duration>\n  </entry>\n", HEADER);
    assert_eq!(read_export(&lines(&text), &"/m".to_string()), Err(ExportError::BadNumber));
}

#[test]
fn bad_entity_is_an_error() {
    let text = format!("{}  <entry type=\"song\">\n    <title>&nosuch;</title>\n  </entry>\n", HEADER);
    assert_eq!(read_export(&lines(&text), &"/m".to_string()), Err(ExportError::BadEncoding));
}

#[test]
fn invalid_utf8_escape_is_an_error() {
    let text = format!("{}  <entry type=\"song\">\n    <title>%FF</title>\n  </entry>\n", HEADER);
    assert_eq!(read_export(&lines(&text), &"/m".to_string()), Err(ExportError::BadEncoding));
}

#[test]
fn header_lines_are_skipped() {
    let text = "  <entry type=\"song\">\n  </entry>\n";
    assert_eq!(read_export(&lines(text), &"/m".to_string()).unwrap().len(), 0);
    assert_eq!(read_export(&Vec::new(), &"/m".to_string()).unwrap().len(), 0);
}

#[test]
fn classifies_lines() {
    assert_eq!(classify_line("<entry type=\"song\">"), Ok(Element::Entry));
    assert_eq!(classify_line("</entry>"), Ok(Element::CloseEntry));
    assert_eq!(classify_line("<title>T</title>"), Ok(Element::Title("T".to_string())));
    assert_eq!(classify_line("<artist></artist>"), Ok(Element::Artist(String::new())));
    assert_eq!(classify_line("<duration></duration>"), Ok(Element::Duration(0)));
    assert_eq!(classify_line("<rating>4</rating>"), Ok(Element::Rating(4)));
    assert_eq!(classify_line("<location>file:///a</location>"), Ok(Element::Location("file:///a".to_string())));
    assert_eq!(classify_line("<bitrate>320</bitrate>"), Ok(Element::Unknown));
    assert_eq!(classify_line("<title>unclosed"), Ok(Element::Unknown));
}

#[test]
fn parses_numbers() {
    assert_eq!(parse_number(""), Some(0));
    assert_eq!(parse_number("0"), Some(0));
    assert_eq!(parse_number("+7"), Some(7));
    assert_eq!(parse_number("4294967295"), Some(4294967295));
    assert_eq!(parse_number("4294967296"), None);
    assert_eq!(parse_number("99999999999x"), None);
    assert_eq!(parse_number("+"), None);
    assert_eq!(parse_number("-1"), None);
    assert_eq!(parse_number("1 2"), None);
}

#[test]
fn trims_xml_white_space() {
    assert_eq!(trim_line("  \t<title>x</title>\r\n"), "<title>x</title>");
    assert_eq!(trim_line("   "), "");
    assert_eq!(trim_line("a b"), "a b");
}

#[test]
fn trims_unicode_white_space() {
    assert_eq!(trim_line("\u{0c}\u{a0}<title>x</title>\u{3000}\u{0b}"), "<title>x</title>");
    assert_eq!(trim_line("\u{2003}a\u{2003}b\u{2029}"), "a\u{2003}b");
    let line = "\u{a0}\u{85} <title>y</title>";
    assert_eq!(trim_line(line), line.trim());
}
