use termifind::utils::string::{add_padding_to_center_string, make_repeated_char_string, truncate_text};

#[test]
fn utils_make_repeated_char_string_test() {
    assert_eq!(String::from("======="), make_repeated_char_string('=', 7));
}

#[test]
fn utils_add_padding_to_center_string_even_text_even_required_length() {
    assert_eq!(
        String::from("  even  "),
        add_padding_to_center_string("even", 8)
    );
}

#[test]
fn utils_add_padding_to_center_string_even_text_odd_required_length() {
    assert_eq!(
        String::from("  even   "),
        add_padding_to_center_string("even", 9)
    );
}

#[test]
fn utils_add_padding_to_center_string_odd_test_even_required_length() {
    assert_eq!(
        String::from("  odd   "),
        add_padding_to_center_string("odd", 8)
    );
}

#[test]
fn utils_add_padding_to_center_string_odd_test_odd_required_length() {
    assert_eq!(
        String::from("   odd   "),
        add_padding_to_center_string("odd", 9)
    );
}

#[test]
fn utils_truncate_text_shorter_file_name() {
    assert_eq!(
        truncate_text(String::from("Man"), 10, None),
        String::from("Man")
    )
}

#[test]
fn utils_truncate_text_longer_file_name() {
    assert_eq!(
        truncate_text(String::from("Man is scary!"), 8, None),
        String::from("Man is s")
    )
}

#[test]
fn utils_truncate_text_shorter_file_name_with_text_to_append() {
    assert_eq!(
        truncate_text(String::from("Dog"), 5, Some((String::from("..."), false))),
        String::from("Dog")
    )
}

#[test]
fn utils_truncate_text_longer_file_name_with_text_to_append_option() {
    assert_eq!(
        truncate_text(
            String::from("Dog is super cool!"),
            5,
            Some((String::from("..."), false)),
        ),
        String::from("Dog i...")
    )
}

#[test]
fn string_make_repeated_char_string_test() {
    assert_eq!(String::from("======="), make_repeated_char_string('=', 7));
}

#[test]
fn string_add_padding_to_center_string_even_text_even_required_length() {
    assert_eq!(
        String::from("  even  "),
        add_padding_to_center_string("even", 8)
    );
}

#[test]
fn string_add_padding_to_center_string_even_text_odd_required_length() {
    assert_eq!(
        String::from("  even   "),
        add_padding_to_center_string("even", 9)
    );
}

#[test]
fn string_add_padding_to_center_string_odd_test_even_required_length() {
    assert_eq!(
        String::from("  odd   "),
        add_padding_to_center_string("odd", 8)
    );
}

#[test]
fn string_add_padding_to_center_string_odd_test_odd_required_length() {
    assert_eq!(
        String::from("   odd   "),
        add_padding_to_center_string("odd", 9)
    );
}

#[test]
fn string_truncate_text_shorter_file_name() {
    assert_eq!(
        truncate_text(String::from("Man"), 10, None),
        String::from("Man")
    )
}

#[test]
fn string_truncate_text_longer_file_name() {
    assert_eq!(
        truncate_text(String::from("Man is scary!"), 8, None),
        String::from("Man is s")
    )
}

#[test]
fn string_truncate_text_shorter_file_name_with_text_to_append() {
    assert_eq!(
        truncate_text(String::from("Dog"), 5, Some((String::from("..."), false))),
        String::from("Dog")
    )
}

#[test]
fn string_truncate_text_longer_file_name_with_text_to_append_option() {
    assert_eq!(
        truncate_text(
            String::from("Dog is super cool!"),
            5,
            Some((String::from("..."), false)),
        ),
        String::from("Dog i...")
    )
}

#[test]
fn truncate_text_shorter_file_name_include_appended_text() {
    assert_eq!(
        truncate_text(String::from("Man"), 10, None),
        String::from("Man")
    )
}

#[test]
fn truncate_text_longer_file_name_include_appended_text() {
    assert_eq!(
        truncate_text(String::from("Man is scary!"), 8, None),
        String::from("Man is s")
    )
}

#[test]
fn truncate_text_shorter_file_name_with_text_to_append_include_appended_text() {
    assert_eq!(
        truncate_text(String::from("Dog"), 5, Some((String::from("..."), true))),
        String::from("Dog")
    )
}

#[test]
fn truncate_text_longer_file_name_with_text_to_append_option_include_appended_text_1() {
    assert_eq!(
        truncate_text(
            String::from("Dog is super cool!"),
            4,
            Some((String::from("..."), true)),
        ),
        String::from("D...")
    )
}

#[test]
fn truncate_text_longer_file_name_with_text_to_append_option_include_appended_text_2() {
    assert_eq!(
        truncate_text(
            String::from("Dog is super cool!"),
            3,
            Some((String::from("..."), true)),
        ),
        String::from("...")
    )
}

#[test]
fn truncate_text_longer_file_name_with_text_to_append_option_include_appended_text_3() {
    assert_eq!(
        truncate_text(
            String::from("Dog is super cool!"),
            2,
            Some((String::from("..."), true)),
        ),
        String::from("..")
    )
}

#[test]
fn truncate_text_longer_file_name_with_text_to_append_option_include_appended_text_4() {
    assert_eq!(
        truncate_text(
            String::from("Dog is super cool!"),
            1,
            Some((String::from("..."), true)),
        ),
        String::from(".")
    )
}

#[test]
fn truncate_text_longer_file_name_with_text_to_append_option_include_appended_text_5() {
    assert_eq!(
        truncate_text(
            String::from("Dog is super cool!"),
            0,
            Some((String::from("..."), true)),
        ),
        String::from("")
    )
}

#[test]
fn truncate_text_counts_characters_not_bytes() {
    assert_eq!(
        truncate_text(String::from("héllo wörld"), 5, None),
        String::from("héllo")
    );
}

#[test]
fn truncate_text_indicator_counted_with_room_left() {
    assert_eq!(
        truncate_text(
            String::from("Dog is super cool!"),
            8,
            Some((String::from("..."), true)),
        ),
        String::from("Dog i...")
    );
}

#[test]
fn make_repeated_char_string_empty() {
    assert_eq!(String::new(), make_repeated_char_string('x', 0));
}

#[test]
fn add_padding_to_center_string_exact_fit() {
    assert_eq!(String::from("snug"), add_padding_to_center_string("snug", 4));
}
