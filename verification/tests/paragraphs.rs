use con_comm::base::{Paragraph, ParseError};
use con_comm::commit_message::CommitMessage;

fn lines_of(message: &CommitMessage) -> Vec<Vec<String>> {
    message
        .paragraphs
        .iter()
        .map(|paragraph| paragraph.lines.clone())
        .collect()
}

fn strings(lines: &[&str]) -> Vec<String> {
    lines.iter().map(|line| String::from(*line)).collect()
}

#[test]
fn new_paragraph_has_no_lines() {
    let paragraph = Paragraph::new();

    assert_eq!(paragraph.len(), 0);
    assert_eq!(paragraph.get_line(0), None);
    assert!(paragraph.get_lines().is_empty());
}

#[test]
fn add_line_appends_a_line_that_is_not_empty() {
    let mut paragraph = Paragraph::new();

    assert_eq!(paragraph.add_line("first"), Ok(()));
    assert_eq!(paragraph.add_line("second"), Ok(()));

    assert_eq!(paragraph.len(), 2);
    assert_eq!(paragraph.get_lines(), &strings(&["first", "second"]));
    assert_eq!(paragraph.get_line(0), Some(&String::from("first")));
    assert_eq!(paragraph.get_line(1), Some(&String::from("second")));
    assert_eq!(paragraph.get_line(2), None);
}

#[test]
fn add_line_refuses_an_empty_line_and_keeps_the_paragraph() {
    let mut paragraph = Paragraph::new();
    paragraph.add_line("only").unwrap();

    assert_eq!(paragraph.add_line(""), Err(()));

    assert_eq!(paragraph.get_lines(), &strings(&["only"]));
}

#[test]
fn from_copies_the_lines_of_a_paragraph() {
    let source = Paragraph {
        lines: strings(&["one", "two", "three"]),
    };

    let copy = Paragraph::from(&source);

    assert_eq!(copy, source);
    assert_eq!(source.lines, strings(&["one", "two", "three"]));
}

#[test]
fn folding_keeps_lines_that_are_no_continuation() {
    let paragraph = Paragraph {
        lines: strings(&["Reviewed-by: A", "Closes: #1"]),
    };

    assert_eq!(paragraph.folded(), paragraph);
}

#[test]
fn folding_joins_a_line_that_starts_with_a_tab() {
    let paragraph = Paragraph {
        lines: strings(&["key: value", "\tgoes on", "other: value"]),
    };

    assert_eq!(
        paragraph.folded().lines,
        strings(&["key: value goes on", "other: value"])
    );
}

#[test]
fn folding_strips_all_leading_white_space_of_a_continuation() {
    let paragraph = Paragraph {
        lines: strings(&["key: value", " \t \u{a0}\u{3000}goes on  "]),
    };

    assert_eq!(paragraph.folded().lines, strings(&["key: value goes on  "]));
}

#[test]
fn folding_leaves_a_first_line_that_starts_with_a_space() {
    let paragraph = Paragraph {
        lines: strings(&["  indented first", " next", "last"]),
    };

    assert_eq!(
        paragraph.folded().lines,
        strings(&["  indented first next", "last"])
    );
}

#[test]
fn folding_does_not_change_the_paragraph_it_is_called_on() {
    let paragraph = Paragraph {
        lines: strings(&["a", " b"]),
    };

    let _ = paragraph.folded();

    assert_eq!(paragraph.lines, strings(&["a", " b"]));
}

#[test]
fn folding_an_empty_paragraph_gives_an_empty_paragraph() {
    assert_eq!(Paragraph::new().folded(), Paragraph::new());
}

#[test]
fn folding_twice_gives_what_folding_once_gives() {
    let paragraph = Paragraph {
        lines: strings(&[
            " starts with a space",
            "  and goes on",
            "second",
            "\tthird part",
            "   ",
            "fourth",
        ]),
    };

    let once = paragraph.folded();
    let twice = once.folded();

    assert_eq!(
        once.lines,
        strings(&[
            " starts with a space and goes on",
            "second third part ",
            "fourth"
        ])
    );
    assert_eq!(twice, once);
}

#[test]
fn empty_text_has_no_paragraphs() {
    assert!(CommitMessage::from("").paragraphs.is_empty());
    assert!(CommitMessage::from("\n\n  \n\t\n").paragraphs.is_empty());
    assert!(CommitMessage::from("# only a comment\n#\n").paragraphs.is_empty());
}

#[test]
fn comment_between_two_lines_parts_two_paragraphs() {
    let message = CommitMessage::from("first\n# comment\nsecond");

    assert_eq!(
        lines_of(&message),
        vec![strings(&["first"]), strings(&["second"])]
    );
}

#[test]
fn lines_are_trimmed_before_they_are_judged() {
    let message = CommitMessage::from("  \u{3000}feat: x\u{a0}\t\n   # indented comment\n\tbody  ");

    assert_eq!(
        lines_of(&message),
        vec![strings(&["feat: x"]), strings(&["body"])]
    );
}

#[test]
fn hash_inside_a_line_is_no_comment() {
    let message = CommitMessage::from("Closes: #12\nsee #13");

    assert_eq!(lines_of(&message), vec![strings(&["Closes: #12", "see #13"])]);
}

#[test]
fn carriage_returns_at_line_ends_are_trimmed() {
    let message = CommitMessage::from("one\r\ntwo\r\n\r\nthree\r\n");

    assert_eq!(
        lines_of(&message),
        vec![strings(&["one", "two"]), strings(&["three"])]
    );
}

#[test]
fn paragraphs_put_together_are_the_lines_of_the_message_in_order() {
    let text = "# head\n a \nb\n\n\n#c\nd\n  \ne #f\n#g\n\nh";

    let message = CommitMessage::from(text);

    let flattened: Vec<String> = message
        .paragraphs
        .iter()
        .flat_map(|paragraph| paragraph.lines.clone())
        .collect();
    assert_eq!(flattened, strings(&["a", "b", "d", "e #f", "h"]));
    assert_eq!(
        lines_of(&message),
        vec![
            strings(&["a", "b"]),
            strings(&["d"]),
            strings(&["e #f"]),
            strings(&["h"])
        ]
    );
    assert!(message.paragraphs.iter().all(|paragraph| paragraph.len() > 0));
}

#[test]
fn is_message_line_tells_message_lines_from_blank_lines_and_comments() {
    assert!(CommitMessage::is_message_line("feat: x"));
    assert!(CommitMessage::is_message_line("a # b"));
    assert!(!CommitMessage::is_message_line(""));
    assert!(!CommitMessage::is_message_line("#"));
    assert!(!CommitMessage::is_message_line("# comment"));
}

#[test]
fn get_paragraphs_copies_the_paragraphs_in_order() {
    let message = CommitMessage::from("one\n\ntwo\nthree\n\nfour");

    let mut queue = message.get_paragraphs();

    assert_eq!(queue.len(), 3);
    assert_eq!(queue.pop_front().unwrap().lines, strings(&["one"]));
    assert_eq!(queue.pop_back().unwrap().lines, strings(&["four"]));
    assert_eq!(queue.pop_front().unwrap().lines, strings(&["two", "three"]));
    assert!(queue.is_empty());
    assert_eq!(message.paragraphs.len(), 3);
}

#[test]
fn get_paragraph_returns_none_past_the_end() {
    let message = CommitMessage::from("one\n\ntwo");

    assert_eq!(message.get_paragraph(0).unwrap().lines, strings(&["one"]));
    assert_eq!(message.get_paragraph(1).unwrap().lines, strings(&["two"]));
    assert!(message.get_paragraph(2).is_none());
}

#[test]
fn parse_error_shows_its_reason() {
    let error = ParseError::new("some line", "some reason");

    assert_eq!(error.line, "some line");
    assert_eq!(error.reason, "some reason");
    assert_eq!(error.to_string(), "some reason");
}
