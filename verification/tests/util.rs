#[test]
fn add_sums_two_numbers() {
    assert_eq!(hex_codec::add(1, 2), 3);
    assert_eq!(hex_codec::add(0, 0), 0);
    assert_eq!(hex_codec::add(usize::MAX - 1, 1), usize::MAX);
}

#[test]
fn documentation_anchors_run() {
    hex_codec::mermaid_test();
    hex_codec::p5doc_test();
}
