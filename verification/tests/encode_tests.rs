use cmdgen::encode::encode_var;

#[test]
fn letters_keep_their_spelling() {
    assert_eq!(encode_var("abc"), "var_abc");
    assert_eq!(encode_var("XYZ"), "var_XYZ");
}

#[test]
fn empty_name_is_bare_prefix() {
    assert_eq!(encode_var(""), "var_");
}

#[test]
fn digit_becomes_reversed_hex_escape() {
    // '1' is U+0031; the nibbles come least significant first: 1, then 3.
    assert_eq!(encode_var("x1"), "var_x_13_");
}

#[test]
fn underscore_becomes_reversed_hex_escape() {
    // '_' is U+005F; the nibbles come least significant first: F, then 5.
    assert_eq!(encode_var("a_b"), "var_a_F5_b");
}

#[test]
fn nul_character_has_empty_digit_run() {
    // U+0000 contributes no hex digits at all, only the two underscores.
    assert_eq!(encode_var("a\0"), "var_a__");
}

#[test]
fn distinct_names_encode_distinctly() {
    let samples = [
        "a", "b", "A", "_", "-", "ab", "a_b", "a-b", "a b", "x1", "1x", "{", "}", "%", "=", "(",
        ")", ",", "a_", "_a", "var_a", "a\0", "a\u{7f}",
    ];
    let encoded: Vec<String> = samples.iter().map(|s| encode_var(s)).collect();
    for i in 0..encoded.len() {
        for j in 0..encoded.len() {
            if i != j {
                assert_ne!(encoded[i], encoded[j], "collision for {:?} and {:?}", samples[i], samples[j]);
            }
        }
    }
}
