//! The editor template parser.

use tix::template::parse_ticket_template;
use tix::ticket::Priority;

#[test]
fn template_full_ticket() {
    let content = "---\nTitle: Fix the wobble\nPriority: b\n---\nIt wobbles when turned.\n# a comment to drop\nStill wobbling.\n";
    let (title, body, priority) = parse_ticket_template(content);
    assert_eq!(title, "Fix the wobble");
    assert_eq!(body.as_deref(), Some("It wobbles when turned.\nStill wobbling."));
    assert!(matches!(priority, Priority::b));
}

#[test]
fn template_title_and_priority_are_trimmed() {
    let content = "---\nTitle:    padded title   \nPriority:  A \n---\n";
    let (title, body, priority) = parse_ticket_template(content);
    assert_eq!(title, "padded title");
    assert_eq!(body, None);
    assert!(matches!(priority, Priority::a));
}

#[test]
fn template_unknown_priority_means_unspecified() {
    let content = "---\nTitle: t\nPriority: urgent\n---\n";
    let (_, _, priority) = parse_ticket_template(content);
    assert!(matches!(priority, Priority::Unspecified));
}

#[test]
fn template_without_priority_defaults_to_z() {
    let content = "---\nTitle: t\n---\nbody\n";
    let (title, body, priority) = parse_ticket_template(content);
    assert_eq!(title, "t");
    assert_eq!(body.as_deref(), Some("body"));
    assert!(matches!(priority, Priority::z));
}

#[test]
fn template_blank_body_is_none() {
    let content = "---\nTitle: t\n---\n   \n\n";
    let (_, body, _) = parse_ticket_template(content);
    assert_eq!(body, None);
}

#[test]
fn template_empty_input_yields_empty_title() {
    let (title, body, priority) = parse_ticket_template("");
    assert_eq!(title, "");
    assert_eq!(body, None);
    assert!(matches!(priority, Priority::z));
}

#[test]
fn template_header_fields_outside_header_are_ignored() {
    let content = "Title: outside\n---\nTitle: inside\n---\n";
    let (title, _, _) = parse_ticket_template(content);
    assert_eq!(title, "inside");
}

#[test]
fn template_handles_crlf_line_endings() {
    let content = "---\r\nTitle: windows\r\nPriority: c\r\n---\r\nline one\r\n";
    let (title, body, priority) = parse_ticket_template(content);
    assert_eq!(title, "windows");
    assert_eq!(body.as_deref(), Some("line one"));
    assert!(matches!(priority, Priority::c));
}
