use receipt_split::ledger::Data;
use receipt_split::receipt::parse_receipt;

fn lines(text: &[&str]) -> Vec<String> {
    text.iter().map(|l| l.to_string()).collect()
}

#[test]
fn parses_one_item() {
    let items = parse_receipt(&lines(&["    Bread", "    2", "    -1,00", "    2,48"]));
    assert_eq!(items.len(), 1);
    assert_eq!(items[0].description, "Bread");
    assert_eq!(items[0].quantity, 2);
    assert_eq!(items[0].price, 248);
    assert!(items[0].owners.is_empty());
}

#[test]
fn parses_several_items_and_skips_unindented_lines() {
    let items = parse_receipt(&lines(&[
        "RECEIPT",
        "    Bread",
        "    2",
        "    0,00",
        "    2,48",
        "",
        "    Milk 1L",
        "    1 un",
        "    -0,10",
        "    0,99 EUR",
    ]));
    assert_eq!(items.len(), 2);
    assert_eq!(items[1].description, "Milk 1L");
    assert_eq!(items[1].quantity, 1);
    assert_eq!(items[1].price, 99);
}

#[test]
fn cents_are_read_as_a_number() {
    let items = parse_receipt(&lines(&["    Cheese", "    1", "    0,0", "    3,5"]));
    assert_eq!(items[0].price, 305);
}

#[test]
fn quantity_mismatch_goes_back_to_description() {
    let items = parse_receipt(&lines(&["    Bread", "    two", "    Milk", "    3", "    0,00", "    1,00"]));
    assert_eq!(items.len(), 1);
    assert_eq!(items[0].description, "Milk");
    assert_eq!(items[0].quantity, 3);
    assert_eq!(items[0].price, 100);
}

#[test]
fn waits_for_a_discount_line() {
    let items = parse_receipt(&lines(&["    Bread", "    2", "    no discount", "x", "    -0,50", "    1,20"]));
    assert_eq!(items.len(), 1);
    assert_eq!(items[0].price, 120);
}

#[test]
fn malformed_price_drops_the_item() {
    let items = parse_receipt(&lines(&["    Bread", "    2", "    0,00", "    free", "    Milk", "    1", "    0,00", "    0,99"]));
    assert_eq!(items.len(), 1);
    assert_eq!(items[0].description, "Milk");
}

#[test]
fn zero_price_is_an_item() {
    let items = parse_receipt(&lines(&["    Bag", "    1", "    -0,00", "    0,00"]));
    assert_eq!(items.len(), 1);
    assert_eq!(items[0].description, "Bag");
    assert_eq!(items[0].quantity, 1);
    assert_eq!(items[0].price, 0);
    assert!(items[0].owners.is_empty());
}

#[test]
fn unfinished_item_is_dropped() {
    let items = parse_receipt(&lines(&["    Bread", "    2", "    0,00"]));
    assert!(items.is_empty());
}

#[test]
fn pattern_is_found_after_other_text() {
    let items = parse_receipt(&lines(&["x     Soap", "ab    4 units", "      0,00", "total    12,30"]));
    assert_eq!(items.len(), 1);
    assert_eq!(items[0].description, " Soap");
    assert_eq!(items[0].quantity, 4);
    assert_eq!(items[0].price, 1230);
}

#[test]
fn quantity_beyond_u32_is_a_mismatch() {
    let items = parse_receipt(&lines(&["    Bread", "    99999999999", "    0,00", "    1,00"]));
    assert!(items.is_empty());
}

#[test]
fn empty_input_has_no_items() {
    assert!(parse_receipt(&Vec::new()).is_empty());
}

#[test]
fn ledger_from_lines_has_one_person() {
    let data = Data::from_lines(&lines(&["    Bread", "    2", "    -1,00", "    2,48"]));
    assert_eq!(data.people, vec!["jojo".to_string()]);
    assert_eq!(data.items.len(), 1);
    assert_eq!(data.items[0].price, 248);
}
