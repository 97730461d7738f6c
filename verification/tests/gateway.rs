use tgfeed::gateway::{BotCommand, normalize_handle, parse_bot_command, parse_command};
use tgfeed::response;

#[test]
fn test_parse_command_basic() {
    assert_eq!(parse_command("/subscribe @chan"), Some(("subscribe", "@chan")));
    assert_eq!(parse_command("/list"), Some(("list", "")));
    assert_eq!(parse_command("  /help  "), Some(("help", "")));
}

#[test]
fn test_parse_command_keeps_rest_as_args() {
    assert_eq!(parse_command("/subscribe a b c"), Some(("subscribe", "a b c")));
}

#[test]
fn test_parse_command_strips_leading_slashes() {
    assert_eq!(parse_command("//x"), Some(("x", "")));
}

#[test]
fn test_parse_command_rejects_non_commands() {
    assert_eq!(parse_command("hello"), None);
    assert_eq!(parse_command(""), None);
    assert_eq!(parse_command("   "), None);
}

#[test]
fn test_normalize_handle() {
    assert_eq!(normalize_handle(" @chan "), "chan");
    assert_eq!(normalize_handle("@@chan"), "chan");
    assert_eq!(normalize_handle("chan"), "chan");
    assert_eq!(normalize_handle("  "), "");
}

#[test]
fn test_parse_bot_command_variants() {
    assert!(matches!(parse_bot_command("/help", "mybot"), Some(BotCommand::Help)));
    assert!(matches!(parse_bot_command("/start", "mybot"), Some(BotCommand::Start)));
    assert!(matches!(parse_bot_command("/list", "mybot"), Some(BotCommand::List)));
    assert!(matches!(parse_bot_command("/summarize", "mybot"), Some(BotCommand::Summarize)));
    match parse_bot_command("/subscribe @chan", "mybot") {
        Some(BotCommand::Subscribe(args)) => assert_eq!(args, "@chan"),
        _ => panic!("expected subscribe"),
    }
    match parse_bot_command("/unsubscribe chan", "mybot") {
        Some(BotCommand::Unsubscribe(args)) => assert_eq!(args, "chan"),
        _ => panic!("expected unsubscribe"),
    }
}

#[test]
fn test_parse_bot_command_mention() {
    assert!(matches!(parse_bot_command("/list@mybot", "mybot"), Some(BotCommand::List)));
    assert!(matches!(parse_bot_command("/list@MyBot", "mybot"), Some(BotCommand::List)));
    assert!(parse_bot_command("/list@otherbot", "mybot").is_none());
}

#[test]
fn test_parse_bot_command_rejects() {
    assert!(parse_bot_command("list", "mybot").is_none());
    assert!(parse_bot_command("", "mybot").is_none());
    assert!(parse_bot_command("/unknown", "mybot").is_none());
    // commands without arguments refuse trailing text
    assert!(parse_bot_command("/list please", "mybot").is_none());
}

#[test]
fn test_response_texts() {
    assert_eq!(response::usage(), "Usage: /unsubscribe @channelname");
    assert_eq!(response::unknown_command(), "❌ Unknown command");
    assert_eq!(response::internal_server_error(), "❌ Internal server error");
    assert_eq!(response::throttled(), "⏳ Please wait a moment");
    assert_eq!(response::summarize_throttled(), "⏳ /summarize is limited to once per hour");
    assert!(response::start().contains("/help"));
    assert!(response::help().starts_with("Available commands:"));
    assert!(response::help().contains("/summarize"));
}

#[test]
fn test_render_subscribe_results() {
    assert_eq!(
        response::render_subscribe_result("chan", Ok(())),
        "✅ Subscribed to @chan"
    );
    assert_eq!(
        response::render_subscribe_result("chan", Err("Channel not found: @chan".to_string())),
        "❌ Failed to subscribe: Channel not found: @chan"
    );
    assert_eq!(
        response::render_unsubscribe_result("chan", Ok(())),
        "✅ Unsubscribed from @chan"
    );
    assert_eq!(
        response::render_unsubscribe_result("chan", Err("x".to_string())),
        "❌ Failed to unsubscribe: x"
    );
}

#[test]
fn test_render_list_results() {
    assert_eq!(
        response::render_list_result(Ok(vec![])),
        "No active subscriptions"
    );
    assert_eq!(
        response::render_list_result(Ok(vec!["a".to_string(), "b".to_string()])),
        "📋 Active subscriptions (2):\n• @a\n• @b\n"
    );
    assert_eq!(
        response::render_list_result(Err("boom".to_string())),
        "❌ Failed to list subscriptions: boom"
    );
    assert_eq!(
        response::render_summarize_error("quota"),
        "❌ Failed to summarize: quota"
    );
}

#[test]
fn test_deep_link_rendering() {
    assert_eq!(tgfeed::format::build_deep_link(123456, 42), "https://t.me/c/123456/42");
    assert_eq!(tgfeed::format::build_deep_link(0, 0), "https://t.me/c/0/0");
    assert_eq!(tgfeed::format::u64_to_string(9007199254740993), "9007199254740993");
    assert_eq!(tgfeed::format::i64_to_string(-12030), "-12030");
    assert_eq!(tgfeed::format::i64_to_string(i64::MIN), "-9223372036854775808");
}
