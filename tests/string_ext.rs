use tmx_utils::string_ext::{format_list, format_list_slices, read_string, ReadError};

fn owned(items: &[&str]) -> Vec<String> {
    items.iter().map(|s| s.to_string()).collect()
}

#[test]
fn test_format_list() {
    assert_eq!(format_list(&[]), "nothing");
    assert_eq!(format_list(&owned(&["Nona"])), "Nona");
    assert_eq!(
        format_list(&owned(&["Nona", "Samantha"])),
        "Nona and Samantha"
    );
    assert_eq!(
        format_list(&owned(&["Nona", "Samantha", "Lucy", "Charles"])),
        "Nona, Samantha, Lucy, and Charles"
    );
}

#[test]
fn test_format_list_slices() {
    assert_eq!(format_list_slices(&[]), "nothing");
    assert_eq!(format_list_slices(&["Nona"]), "Nona");
    assert_eq!(
        format_list_slices(&["Nona", "Samantha"]),
        "Nona and Samantha"
    );
    assert_eq!(
        format_list_slices(&["Nona", "Samantha", "Lucy", "Charles"]),
        "Nona, Samantha, Lucy, and Charles"
    );
}

#[test]
fn three_items_take_the_oxford_comma() {
    assert_eq!(format_list_slices(&["a", "b", "c"]), "a, b, and c");
    assert_eq!(format_list(&owned(&["a", "b", "c"])), "a, b, and c");
}

#[test]
fn single_item_is_unchanged() {
    assert_eq!(format_list_slices(&["  x, y  "]), "  x, y  ");
    assert_eq!(format_list_slices(&[""]), "");
}

#[test]
fn pair_has_no_comma() {
    assert_eq!(format_list_slices(&["x", "y"]), "x and y");
    assert_eq!(format_list_slices(&["", ""]), " and ");
}

#[test]
fn items_appear_in_order() {
    let items = ["alpha", "beta", "gamma", "delta", "epsilon"];
    let text = format_list_slices(&items);
    assert_eq!(text, "alpha, beta, gamma, delta, and epsilon");
    let mut from = 0;
    for item in items.iter() {
        let at = text[from..].find(item).expect("item missing") + from;
        from = at + item.len();
    }
}

#[test]
fn owned_and_borrowed_agree() {
    let items = ["é", "ü", "ß", "ø", "å", "ñ"];
    assert_eq!(format_list(&owned(&items)), format_list_slices(&items));
    assert_eq!(format_list(&owned(&items)), "é, ü, ß, ø, å, and ñ");
}

#[test]
fn read_string_trims_the_line() {
    assert_eq!(read_string("  input_string\n"), Ok("input_string".to_string()));
    assert_eq!(read_string("input_string"), Ok("input_string".to_string()));
    assert_eq!(read_string("\t a b \r\n"), Ok("a b".to_string()));
    assert_eq!(read_string("\u{3000}wide\u{a0}"), Ok("wide".to_string()));
}

#[test]
fn read_string_refuses_empty_input() {
    assert_eq!(read_string("\n"), Err(ReadError::EmptyInput));
    assert_eq!(read_string(""), Err(ReadError::EmptyInput));
    assert_eq!(read_string(" \t\r\n "), Err(ReadError::EmptyInput));
}

#[test]
fn test_read_input() {
    let content = "input_string";
    assert_eq!(read_string(content).unwrap(), content);
}
