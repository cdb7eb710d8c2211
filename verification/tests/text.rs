use unpalm::text::{is_white_space, split_fields, split_words};

#[test]
fn white_space_is_that_of_unicode() {
    for code in 0..0x11_0000u32 {
        if let Some(c) = char::from_u32(code) {
            assert_eq!(is_white_space(c), c.is_whitespace());
        }
    }
}

#[test]
fn words_are_split_at_white_space() {
    for s in ["", "  ", "a", " a  bc\t\nd ", "x\u{3000}y\u{a0}z", "0,0 1,1"] {
        let expected: Vec<String> = s.split_whitespace().map(|w| w.to_string()).collect();
        assert_eq!(split_words(s), expected);
    }
}

#[test]
fn fields_are_split_at_commas() {
    for s in ["", ",", "a", "a,b", ",a,,b,", "é,ü"] {
        let expected: Vec<String> = s.split(',').map(|w| w.to_string()).collect();
        assert_eq!(split_fields(s), expected);
        assert_eq!(split_fields(s).join(","), s);
    }
}
