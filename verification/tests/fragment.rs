use executive::fragment::FragmentAccumulator;

#[test]
fn test_accumulate_fragments() {
    let mut acc = FragmentAccumulator::new();
    assert!(acc.is_empty());

    acc.push("Hello");
    acc.push(", ");
    acc.push("world!");

    assert_eq!(acc.fragment_count(), 3);
    assert_eq!(acc.content(), "Hello, world!");
    assert_eq!(acc.total_bytes(), 13);
}

#[test]
fn test_take_drains() {
    let mut acc = FragmentAccumulator::new();
    acc.push("aaa");
    acc.push("bbb");

    let result = acc.take();
    assert_eq!(result, "aaabbb");
    assert!(acc.is_empty());
    assert_eq!(acc.fragment_count(), 0);
    assert_eq!(acc.total_bytes(), 0);
}

#[test]
fn test_empty_content() {
    let acc = FragmentAccumulator::new();
    assert_eq!(acc.content(), "");
    assert_eq!(acc.total_bytes(), 0);
}

#[test]
fn default_accumulator_is_empty() {
    let acc = FragmentAccumulator::default();
    assert!(acc.is_empty());
    assert_eq!(acc.fragment_count(), 0);
}

#[test]
fn multibyte_fragments_count_bytes() {
    let mut acc = FragmentAccumulator::new();
    acc.push("\u{e9}");
    acc.push("\u{1f600}");
    assert_eq!(acc.total_bytes(), 6);
    assert_eq!(acc.content(), "\u{e9}\u{1f600}");
}
