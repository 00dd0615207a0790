use aide::models::format_chat_prompt;
use aide::session::{
    choose_output_name, classify_chat_line, clear_menu, history_from_pairs, needs_setup_after,
    parse_model_choice, parse_slash_command, parse_usize, plan_clear, record_turn,
    suggested_image_name, ChatCommand, ChatLine, ClearAction, ClearArg, ClearPlan, ClearTarget,
    SlashCommand, StoreCounts,
};

#[test]
fn blank_line_is_skipped() {
    assert!(matches!(classify_chat_line("   \t "), ChatLine::Skip));
}

#[test]
fn exit_and_quit_end_the_session() {
    assert!(matches!(classify_chat_line("exit"), ChatLine::Quit));
    assert!(matches!(classify_chat_line("  quit \n"), ChatLine::Quit));
    assert!(matches!(classify_chat_line("Exit"), ChatLine::Message(_)));
}

#[test]
fn in_chat_commands_match_whole_line() {
    assert!(matches!(classify_chat_line(" /clear "), ChatLine::Command(ChatCommand::Clear)));
    assert!(matches!(classify_chat_line("/memory"), ChatLine::Command(ChatCommand::Memory)));
    assert!(matches!(classify_chat_line("/models"), ChatLine::Command(ChatCommand::Models)));
    assert!(matches!(classify_chat_line("/system"), ChatLine::Command(ChatCommand::System)));
    assert!(matches!(classify_chat_line("/theme"), ChatLine::Command(ChatCommand::Theme)));
    assert!(matches!(classify_chat_line("/help"), ChatLine::Command(ChatCommand::Help)));
    assert!(matches!(classify_chat_line("/clear all"), ChatLine::Command(ChatCommand::Unknown)));
}

#[test]
fn messages_are_trimmed() {
    match classify_chat_line("  hello there  ") {
        ChatLine::Message(m) => assert_eq!(m, "hello there"),
        _ => panic!("expected a message"),
    }
}

#[test]
fn slash_commands_by_first_word() {
    assert!(matches!(parse_slash_command("/exit"), SlashCommand::Exit));
    assert!(matches!(parse_slash_command("/help me"), SlashCommand::Help));
    assert!(matches!(parse_slash_command("/bug"), SlashCommand::Bug));
    assert!(matches!(parse_slash_command("/memory"), SlashCommand::Memory));
    assert!(matches!(parse_slash_command("/models"), SlashCommand::Models));
    assert!(matches!(parse_slash_command("/system"), SlashCommand::System));
    assert!(matches!(parse_slash_command("/nope"), SlashCommand::Unknown));
}

#[test]
fn clear_sub_commands() {
    assert!(matches!(parse_slash_command("/clear"), SlashCommand::Clear(ClearArg::Missing)));
    assert!(matches!(
        parse_slash_command("/clear   all"),
        SlashCommand::Clear(ClearArg::Target(ClearTarget::All))
    ));
    assert!(matches!(
        parse_slash_command("/clear chat"),
        SlashCommand::Clear(ClearArg::Target(ClearTarget::Chat))
    ));
    assert!(matches!(
        parse_slash_command("/clear profile"),
        SlashCommand::Clear(ClearArg::Target(ClearTarget::Profile))
    ));
    assert!(matches!(
        parse_slash_command("/clear models"),
        SlashCommand::Clear(ClearArg::Target(ClearTarget::Models))
    ));
    assert!(matches!(
        parse_slash_command("/clear config extra"),
        SlashCommand::Clear(ClearArg::Target(ClearTarget::Config))
    ));
    assert!(matches!(parse_slash_command("/clear everything"), SlashCommand::Clear(ClearArg::Unknown)));
}

#[test]
fn theme_command_with_and_without_name() {
    assert!(matches!(parse_slash_command("/theme"), SlashCommand::Theme(None)));
    match parse_slash_command("/theme  nord") {
        SlashCommand::Theme(Some(n)) => assert_eq!(n, "nord"),
        _ => panic!("expected a theme switch"),
    }
}

#[test]
fn parse_usize_like_std() {
    let c = |s: &str| parse_usize(&s.chars().collect::<Vec<char>>());
    assert_eq!(c("42"), Some(42));
    assert_eq!(c("+7"), Some(7));
    assert_eq!(c("007"), Some(7));
    assert_eq!(c(""), None);
    assert_eq!(c("+"), None);
    assert_eq!(c("-1"), None);
    assert_eq!(c("1a"), None);
    assert_eq!(c(" 1"), None);
    assert_eq!(c("99999999999999999999999"), None);
    assert_eq!(c(&usize::MAX.to_string()), Some(usize::MAX));
    for s in ["0", "12", "+3", "x", "", "18446744073709551616"] {
        assert_eq!(c(s), s.parse::<usize>().ok());
    }
}

#[test]
fn model_choice_is_one_based() {
    assert_eq!(parse_model_choice(" 2 \n", 3), Some(1));
    assert_eq!(parse_model_choice("1", 3), Some(0));
    assert_eq!(parse_model_choice("3", 3), Some(2));
    assert_eq!(parse_model_choice("0", 3), None);
    assert_eq!(parse_model_choice("4", 3), None);
    assert_eq!(parse_model_choice("two", 3), None);
}

#[test]
fn clear_menu_lists_what_exists() {
    let m = clear_menu(Some(StoreCounts { turns: 5, profile_entries: 0, remembered: 2 }), 2, true);
    assert!(m == vec![
        ClearAction::Conversations,
        ClearAction::RememberedFacts,
        ClearAction::Model(0),
        ClearAction::Model(1),
        ClearAction::Config,
        ClearAction::Everything,
    ]);
    let m2 = clear_menu(None, 0, false);
    assert!(m2 == vec![ClearAction::Everything]);
}

#[test]
fn clear_plan_cases() {
    let menu = clear_menu(Some(StoreCounts { turns: 1, profile_entries: 1, remembered: 1 }), 1, true);
    assert!(matches!(plan_clear(&menu, &[]), ClearPlan::Cancelled));
    assert!(matches!(plan_clear(&menu, &[0, 5]), ClearPlan::WipeAll));
    match plan_clear(&menu, &[4, 1]) {
        ClearPlan::Steps(s) => assert!(s == vec![ClearAction::Config, ClearAction::Profile]),
        _ => panic!("expected steps"),
    }
}

#[test]
fn setup_needed_after_config_or_active_model() {
    assert!(needs_setup_after(&[ClearAction::Profile, ClearAction::Config], None));
    assert!(needs_setup_after(&[ClearAction::Model(1)], Some(1)));
    assert!(!needs_setup_after(&[ClearAction::Model(0)], Some(1)));
    assert!(!needs_setup_after(&[ClearAction::Conversations], None));
}

#[test]
fn record_turn_appends_user_and_assistant() {
    let mut h = vec!["User: a".to_string()];
    record_turn(&mut h, "hi", "hello");
    assert_eq!(h, vec!["User: a", "User: hi", "Assistant: hello"]);
}

#[test]
fn history_from_pairs_in_order() {
    let h = history_from_pairs(&[("q1".to_string(), "a1".to_string()), ("q2".to_string(), "a2".to_string())]);
    assert_eq!(h, vec!["User: q1", "Assistant: a1", "User: q2", "Assistant: a2"]);
}

#[test]
fn recorded_turn_reaches_the_prompt() {
    let mut h = Vec::new();
    record_turn(&mut h, "hi", "yo");
    let p = format_chat_prompt("chatml", &h, "next", "sys");
    assert_eq!(
        p,
        "<|im_start|>system\nsys<|im_end|>\n<|im_start|>user\nhi<|im_end|>\n<|im_start|>assistant\nyo<|im_end|>\n<|im_start|>user\nnext<|im_end|>\n<|im_start|>assistant\n"
    );
}

#[test]
fn suggested_image_name_format() {
    assert_eq!(suggested_image_name(1700000000, 0, "png"), "aide-image-1700000000-1.png");
    assert_eq!(suggested_image_name(0, 9, "svg"), "aide-image-0-10.svg");
}

#[test]
fn output_name_falls_back_to_offer() {
    assert_eq!(choose_output_name("  pic.png ", "x.png"), "pic.png");
    assert_eq!(choose_output_name("   ", "x.png"), "x.png");
}

#[test]
fn command_lines_always_parse() {
    for input in ["  /theme nord ", "/x", "\t/clear\n"] {
        assert!(matches!(classify_chat_line(input), ChatLine::Command(_)));
        let _ = parse_slash_command(input.trim());
    }
}
