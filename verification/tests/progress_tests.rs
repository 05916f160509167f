use checkni::progress::{get_digits, get_padding};

#[test]
fn digit_counts() {
    assert_eq!(get_digits(0), 0);
    assert_eq!(get_digits(7), 1);
    assert_eq!(get_digits(10), 2);
    assert_eq!(get_digits(99), 2);
    assert_eq!(get_digits(100), 3);
    assert_eq!(get_digits(-5), 0);
}

#[test]
fn padding_is_spaces_up_to_total_width() {
    assert_eq!(get_padding(7, 100), "  ");
    assert_eq!(get_padding(42, 100), " ");
    assert_eq!(get_padding(100, 100), "");
}

#[test]
fn padded_labels_share_one_width() {
    // Among 100 items, item 7 is padded to the same width as item 100.
    let label_7 = format!("{}{}", get_padding(7, 100), 7);
    let label_100 = format!("{}{}", get_padding(100, 100), 100);
    assert_eq!(label_7.len(), label_100.len());
    assert_eq!(label_7, "  7");
}

#[test]
fn padding_never_negative() {
    assert_eq!(get_padding(100, 7), "");
}
