use tgfeed::entities::{EntityKind, SourceEntity, convert_entities};

#[test]
fn test_convert_empty_entities() {
    let result = convert_entities(None);
    assert!(result.is_empty());

    let result = convert_entities(Some(&vec![]));
    assert!(result.is_empty());
}

#[test]
fn test_convert_bold() {
    let entities = vec![SourceEntity::Bold { offset: 0, length: 4 }];

    let result = convert_entities(Some(&entities));

    assert_eq!(result.len(), 1);
    assert_eq!(result[0].offset, 0);
    assert_eq!(result[0].length, 4);
    assert!(matches!(result[0].kind, EntityKind::Bold));
}

#[test]
fn test_convert_italic() {
    let entities = vec![SourceEntity::Italic { offset: 5, length: 6 }];

    let result = convert_entities(Some(&entities));

    assert_eq!(result.len(), 1);
    assert_eq!(result[0].offset, 5);
    assert_eq!(result[0].length, 6);
    assert!(matches!(result[0].kind, EntityKind::Italic));
}

#[test]
fn test_convert_multiple_entities() {
    let entities = vec![
        SourceEntity::Bold { offset: 0, length: 4 },
        SourceEntity::Italic { offset: 5, length: 6 },
        SourceEntity::Code { offset: 12, length: 8 },
    ];

    let result = convert_entities(Some(&entities));

    assert_eq!(result.len(), 3);
    assert!(matches!(result[0].kind, EntityKind::Bold));
    assert!(matches!(result[1].kind, EntityKind::Italic));
    assert!(matches!(result[2].kind, EntityKind::Code));
}

#[test]
fn test_convert_text_url() {
    let entities = vec![SourceEntity::TextUrl {
        offset: 0,
        length: 4,
        url: "https://example.com".to_string(),
    }];

    let result = convert_entities(Some(&entities));

    assert_eq!(result.len(), 1);
    assert!(matches!(result[0].kind, EntityKind::TextLink { .. }));
}

#[test]
fn test_convert_invalid_url_skipped() {
    let entities = vec![SourceEntity::TextUrl {
        offset: 0,
        length: 4,
        url: "not a valid url".to_string(),
    }];

    let result = convert_entities(Some(&entities));

    assert!(result.is_empty()); // Invalid URL should be skipped
}

#[test]
fn test_convert_unknown_entity_skipped() {
    let entities = vec![SourceEntity::Other];

    let result = convert_entities(Some(&entities));

    assert!(result.is_empty()); // unsupported kinds are not relayed
}

#[test]
fn test_convert_text_url_normalized() {
    // the parser normalizes the URL text rather than echoing its input
    let entities = vec![SourceEntity::TextUrl {
        offset: 0,
        length: 4,
        url: "HTTPS://Example.COM".to_string(),
    }];

    let result = convert_entities(Some(&entities));

    assert_eq!(result.len(), 1);
    match &result[0].kind {
        EntityKind::TextLink { url } => assert_eq!(url.as_str(), "https://example.com/"),
        _ => panic!("expected a link"),
    }
}

#[test]
fn test_convert_pre_language() {
    let entities = vec![
        SourceEntity::Pre { offset: 0, length: 4, language: "rust".to_string() },
        SourceEntity::Pre { offset: 5, length: 4, language: "".to_string() },
    ];

    let result = convert_entities(Some(&entities));

    assert_eq!(result.len(), 2);
    match &result[0].kind {
        EntityKind::Pre { language } => assert_eq!(language.as_deref(), Some("rust")),
        _ => panic!("expected pre"),
    }
    match &result[1].kind {
        EntityKind::Pre { language } => assert!(language.is_none()),
        _ => panic!("expected pre"),
    }
}

#[test]
fn test_convert_negative_range_skipped() {
    let entities = vec![SourceEntity::Bold { offset: -1, length: 4 }];
    let result = convert_entities(Some(&entities));
    assert!(result.is_empty());
}
