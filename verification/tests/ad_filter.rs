use tgfeed::ad_filter::is_ad;

#[test]
fn test_ad_pattern_hashtag_lowercase() {
    assert!(is_ad("#реклама"));
}

#[test]
fn test_ad_pattern_hashtag_uppercase() {
    assert!(is_ad("#РЕКЛАМА"));
}

#[test]
fn test_ad_pattern_hashtag_mixed_case() {
    assert!(is_ad("#Реклама"));
}

#[test]
fn test_ad_pattern_hashtag_in_text() {
    assert!(is_ad("Это рекламный пост #реклама"));
}

#[test]
fn test_ad_pattern_erid_space() {
    assert!(is_ad("erid LjN8KXck9"));
}

#[test]
fn test_ad_pattern_erid_colon() {
    assert!(is_ad("erid: 2VtzqvQXYfG"));
}

#[test]
fn test_ad_pattern_erid_equals() {
    assert!(is_ad("erid=abc123def"));
}

#[test]
fn test_ad_pattern_erid_uppercase() {
    assert!(is_ad("ERID: LjN8K123"));
}

#[test]
fn test_ad_pattern_erid_mixed_case() {
    assert!(is_ad("Erid: 2VtzqvQXYfG"));
}

#[test]
fn test_ad_pattern_erid_with_slash() {
    assert!(is_ad("https://example.com/erid=LjN8KXck9"));
}

#[test]
fn test_ad_pattern_erid_with_backslash() {
    assert!(is_ad("path\\erid:2VtzqvQXYfG"));
}

#[test]
fn test_ad_pattern_erid_with_question_mark() {
    assert!(is_ad("https://example.com?erid=LjN8KXck9"));
}

#[test]
fn test_ad_pattern_erid_with_ampersand() {
    assert!(is_ad("https://example.com?foo=bar&erid=LjN8K1234"));
}

#[test]
fn test_ad_pattern_erid_at_start() {
    assert!(is_ad("erid:LjN8KXck9 some text"));
}

#[test]
fn test_ad_pattern_erid_multiline() {
    assert!(is_ad("Some text\nerid: LjN8KXck9\nmore text"));
}

#[test]
fn test_ad_pattern_no_match_erid_in_word() {
    assert!(!is_ad("administered the test"));
    assert!(!is_ad("inheridance is important"));
}

#[test]
fn test_ad_pattern_no_match_erid_without_token() {
    // These should not match because there's no alphanumeric token after erid
    assert!(!is_ad("erid is a new standard"));
    assert!(!is_ad("What is erid?"));
    assert!(!is_ad("erid: "));
    assert!(!is_ad("erid= "));
}

#[test]
fn test_ad_pattern_no_match_random_text() {
    assert!(!is_ad("This is just a regular message"));
    assert!(!is_ad("No ads here!"));
}

#[test]
fn test_ad_pattern_real_world_example_1() {
    let text = "Скидка 50% на все товары!\n\n#реклама\nООО \"Компания\"";
    assert!(is_ad(text));
}

#[test]
fn test_ad_pattern_real_world_example_2() {
    let text = "Реклама. erid: 2VtzqvQXYfG\nПокупайте наш продукт!";
    assert!(is_ad(text));
}

#[test]
fn test_ad_pattern_real_world_example_3() {
    let text = "Супер предложение! https://example.com?erid=LjN8KXck9";
    assert!(is_ad(text));
}

#[test]
fn test_ad_pattern_short_token_not_matched() {
    // a token of fewer than eight characters is not a disclosure id
    assert!(!is_ad("erid: abc1234"));
    assert!(is_ad("erid: abc12345"));
}
