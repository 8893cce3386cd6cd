use flint::commands::{
    commands, echoed_input, switch_to, thinking_word, web_port, ArgFrom, CommandHelp, Field,
    HelpSection, OnPage, PageArg,
};

#[test]
fn a_key_typed_into_a_command_is_echoed_as_the_bare_command() {
    assert_eq!(echoed_input("/provider key sk-123"), "/provider key");
    assert_eq!(echoed_input("/provider key  sk 123"), "/provider key");
}

#[test]
fn every_other_line_is_echoed_as_it_was_typed() {
    assert_eq!(echoed_input("/provider key"), "/provider key");
    assert_eq!(echoed_input("/provider keys x"), "/provider keys x");
    assert_eq!(echoed_input("/provider add a http://x m"), "/provider add a http://x m");
    assert_eq!(echoed_input("hello /provider key sk"), "hello /provider key sk");
    assert_eq!(echoed_input(""), "");
}

#[test]
fn the_table_lists_every_command_once_in_help_order() {
    let table = commands();
    assert_eq!(table.len(), 41);
    assert_eq!(table[0].label, "/help");
    assert_eq!(table[40].send, "/stop");
    assert!(table[40].section == HelpSection::Working);
    assert!(table[..40].iter().all(|row| row.section == HelpSection::Commands));
    let secret: Vec<&str> = table
        .iter()
        .filter(|row| row.args.iter().any(|a| a.field == Field::Password))
        .map(|row| row.send)
        .collect();
    assert_eq!(secret, vec!["/provider key"]);
}

#[test]
fn the_add_row_asks_for_three_answers_the_last_optional() {
    let table = commands();
    let add = table.iter().find(|row| row.send == "/provider add").unwrap();
    assert!(add.on_page == OnPage::Form);
    let names: Vec<(&str, bool)> = add.args.iter().map(|a| (a.name, a.optional)).collect();
    assert_eq!(names, vec![("name", false), ("base_url", false), ("model", true)]);
    let rm = table.iter().find(|row| row.send == "/provider rm").unwrap();
    assert!(rm.on_page == OnPage::Danger && rm.from == Some(ArgFrom::Providers) && rm.args.is_empty());
}

#[test]
fn the_words_a_page_is_told() {
    assert_eq!(OnPage::Panel.class(), Some("panel"));
    assert_eq!(OnPage::Button.class(), Some("button"));
    assert_eq!(OnPage::Selector.class(), Some("selector"));
    assert_eq!(OnPage::Form.class(), Some("form"));
    assert_eq!(OnPage::Danger.class(), Some("danger"));
    assert_eq!(OnPage::Toggles.class(), None);
    assert_eq!(OnPage::Terminal.class(), None);
    assert_eq!(ArgFrom::Sessions.word(), "sessions");
    assert_eq!(ArgFrom::Providers.word(), "providers");
    assert_eq!(ArgFrom::Jobs.word(), "jobs");
    assert_eq!(Field::Text.word(), "text");
    assert_eq!(Field::Password.word(), "password");
}

#[test]
fn the_row_builders_fill_in_what_they_do_not_take() {
    let r = CommandHelp::row("/x", "/x", "h", HelpSection::Commands, OnPage::Button);
    assert!(r.args.is_empty() && r.from.is_none());
    let r = CommandHelp::destroying("/d <n>", "/d", "h", ArgFrom::Sessions);
    assert!(r.on_page == OnPage::Danger && r.from == Some(ArgFrom::Sessions));
    let r = CommandHelp::form_row("/f", "/f", "h", vec![PageArg::required("a", Field::Text)]);
    assert!(r.on_page == OnPage::Form && r.section == HelpSection::Commands && r.args.len() == 1);
    let r = CommandHelp::field_row(
        "/k <key>",
        "/k",
        "h",
        HelpSection::Commands,
        OnPage::Form,
        vec![PageArg::optional("key", Field::Password)],
    );
    assert!(r.args[0].optional && r.args[0].field == Field::Password);
}

#[test]
fn the_web_port_is_a_number_or_nothing() {
    assert_eq!(web_port(""), Ok(0));
    assert_eq!(web_port("3080"), Ok(3080));
    assert_eq!(web_port("+80"), Ok(80));
    assert_eq!(
        web_port("70000").unwrap_err(),
        "/web takes a port number or nothing \u{2014} got \"70000\""
    );
    assert!(web_port("x").is_err());
}

#[test]
fn a_switch_takes_on_off_or_flips() {
    assert_eq!(switch_to("on", false, false), Ok(true));
    assert_eq!(switch_to("off", true, false), Ok(false));
    assert_eq!(switch_to("", true, false), Ok(false));
    assert_eq!(switch_to("", false, false), Ok(true));
    assert_eq!(switch_to("full", false, false).unwrap_err(), "expected on|off, got 'full'");
    assert_eq!(switch_to("full", false, true), Ok(true));
    assert_eq!(switch_to("quiet", true, true), Ok(false));
}

#[test]
fn a_thinking_word_is_a_level_or_nothing() {
    assert_eq!(thinking_word("  "), Ok(None));
    assert_eq!(thinking_word(" high "), Ok(Some("high".to_string())));
    assert_eq!(
        thinking_word("max").unwrap_err(),
        "expected one of off, low, medium, high, got 'max'"
    );
}
