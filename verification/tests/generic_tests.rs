use power_automate_api::generic::filter_by_exclusions;

fn strings(items: &[&str]) -> Vec<String> {
    items.iter().map(|s| s.to_string()).collect()
}

#[test]
fn removes_strings_containing_an_exclusion() {
    let result = filter_by_exclusions(
        strings(&["alpha", "beta", "alphabet", "gamma"]),
        strings(&["alpha"]),
    );
    assert_eq!(result, strings(&["beta", "gamma"]));
}

#[test]
fn empty_exclusions_keep_everything() {
    let result = filter_by_exclusions(strings(&["a", "b", "c"]), strings(&[]));
    assert_eq!(result, strings(&["a", "b", "c"]));
}

#[test]
fn empty_exclusion_string_removes_everything() {
    // The empty string is a substring of every string.
    let result = filter_by_exclusions(strings(&["a", "b"]), strings(&[""]));
    assert_eq!(result, Vec::<String>::new());
}

#[test]
fn preserves_input_order() {
    let result = filter_by_exclusions(
        strings(&["zebra", "drop-me", "apple", "drop-me-too", "mango"]),
        strings(&["drop"]),
    );
    assert_eq!(result, strings(&["zebra", "apple", "mango"]));
}

#[test]
fn filtering_twice_gives_the_same_result() {
    let exclusions = strings(&["ex", "spam"]);
    let once = filter_by_exclusions(
        strings(&["example", "keep", "spammy", "also kept"]),
        exclusions.clone(),
    );
    let twice = filter_by_exclusions(once.clone(), exclusions);
    assert_eq!(once, twice);
    assert_eq!(once, strings(&["keep", "also kept"]));
}

#[test]
fn exclusions_are_literal_text() {
    // Characters with special pattern meaning are still matched literally.
    let result = filter_by_exclusions(strings(&["a(", "b", "c(d)"]), strings(&["("]));
    assert_eq!(result, strings(&["b"]));
}

#[test]
fn multiple_exclusions_any_match_removes() {
    let result = filter_by_exclusions(
        strings(&["one", "two", "three", "four"]),
        strings(&["o", "t"]),
    );
    assert_eq!(result, Vec::<String>::new());
}
