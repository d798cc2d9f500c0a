use todo_md::codec::decode;
use todo_md::codec::encode;
use todo_md::codec::parse_line;
use todo_md::codec::split_lines;
use todo_md::codec::write_line;
use todo_md::Item;

#[test]
fn file_handler_parse_line_list_item_unchecked() {
    let line = "- [ ] Item 1";
    let expected = Item::new("Item 1".to_string(), false);
    assert_eq!(parse_line(line), expected);
}

#[test]
fn file_handler_parse_line_list_item_checked() {
    let line = "- [X] Item 1";
    let expected = Item::new("Item 1".to_string(), true);
    assert_eq!(parse_line(line), expected);
}

#[test]
fn file_handler_write_line_list_item_unchecked() {
    let line = Item::new("Item 1".to_string(), false);
    let expected = "- [ ] Item 1";
    assert_eq!(write_line(&line), expected);
}

#[test]
fn file_handler_write_line_list_item_checked() {
    let line = Item::new("Item 1".to_string(), true);
    let expected = "- [X] Item 1";
    assert_eq!(write_line(&line), expected);
}

#[test]
fn parser_parse_line_list_item_unchecked() {
    let line = "- [ ] Item 1";
    let expected = Item::new("Item 1".to_string(), false);
    assert_eq!(parse_line(line), expected);
}

#[test]
fn parser_parse_line_list_item_checked() {
    let line = "- [X] Item 1";
    let expected = Item::new("Item 1".to_string(), true);
    assert_eq!(parse_line(line), expected);
}

#[test]
fn parse_line_keeps_trailing_whitespace() {
    let expected = Item::new("text  ".to_string(), false);
    assert_eq!(parse_line("- [ ] text  "), expected);
}

#[test]
fn parse_line_tolerates_short_lines() {
    assert_eq!(parse_line(""), Item::new(String::new(), false));
    assert_eq!(parse_line("abc"), Item::new(String::new(), false));
    assert_eq!(parse_line("- [X]"), Item::new(String::new(), true));
    assert_eq!(parse_line("- [ ] "), Item::new(String::new(), false));
}

#[test]
fn decode_empty_document() {
    let items = decode("");
    assert!(items.is_empty());
}

#[test]
fn encode_empty_list() {
    let items: Vec<Item> = Vec::new();
    assert_eq!(encode(&items), "# TODO\n\n");
}

#[test]
fn decode_discards_title_line() {
    let items = decode("any title at all\n- [ ] A\n");
    assert_eq!(items, vec![Item::new("A".to_string(), false)]);
}

#[test]
fn decode_skips_blank_lines() {
    let with_blanks = decode("# TODO\n\n- [ ] Item 1\n\n\n- [X] Item 2\n");
    let without_blanks = decode("# TODO\n- [ ] Item 1\n- [X] Item 2\n");
    assert_eq!(with_blanks, without_blanks);
    assert_eq!(
        with_blanks,
        vec![
            Item::new("Item 1".to_string(), false),
            Item::new("Item 2".to_string(), true),
        ]
    );
}

#[test]
fn decode_then_encode_single_item_file() {
    let text = "# TODO\n\n- [ ] Buy milk\n";
    assert_eq!(encode(&decode(text)), text);
    let text_done = "# TODO\n\n- [X] Buy milk\n";
    assert_eq!(encode(&decode(text_done)), text_done);
}

#[test]
fn encode_then_decode_returns_the_items() {
    let items = vec![
        Item::new("Buy milk".to_string(), false),
        Item::new("Pay bills".to_string(), true),
    ];
    assert_eq!(decode(&encode(&items)), items);
}

#[test]
fn write_then_parse_line_returns_the_item() {
    let item = Item::new("Walk the dog".to_string(), true);
    assert_eq!(parse_line(&write_line(&item)), item);
    let item = Item::new(String::new(), false);
    assert_eq!(parse_line(&write_line(&item)), item);
}

#[test]
fn split_lines_on_newlines() {
    assert_eq!(split_lines("a\nb\n"), vec!["a".to_string(), "b".to_string()]);
    assert_eq!(split_lines("a\nb"), vec!["a".to_string(), "b".to_string()]);
    assert_eq!(split_lines("\n"), vec![String::new()]);
    assert!(split_lines("").is_empty());
}
