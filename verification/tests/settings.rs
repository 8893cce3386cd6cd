use flint::settings::{remove_provider, set_config_key, Settings};

#[test]
fn config_set_takes_the_wizard_settings_and_refuses_the_rest() {
    let mut cfg = Settings {
        shell: "sh".to_string(),
        shell_args: vec!["-c".to_string()],
        max_steps: 50,
        proxy: None,
    };

    assert_eq!(
        set_config_key(&mut cfg, "shell", "bash").expect("shell"),
        "shell = bash"
    );
    assert_eq!(cfg.shell, "bash");

    assert_eq!(
        set_config_key(&mut cfg, "shell_args", " -S /C ").expect("shell_args"),
        "shell_args = [\"-S\", \"/C\"]"
    );
    assert_eq!(cfg.shell_args, vec!["-S".to_string(), "/C".to_string()]);

    assert_eq!(
        set_config_key(&mut cfg, "max_steps", "7").expect("max_steps"),
        "max_steps = 7"
    );
    assert_eq!(cfg.max_steps, 7);

    assert_eq!(
        set_config_key(&mut cfg, "proxy", "socks5h://127.0.0.1:10808").expect("proxy"),
        "proxy = socks5h://127.0.0.1:10808"
    );
    assert_eq!(
        set_config_key(&mut cfg, "proxy", "").expect("proxy off"),
        "proxy = (none)"
    );
    assert_eq!(cfg.proxy, None, "a blank proxy did not clear it");

    let why = set_config_key(&mut cfg, "shells", "bash").expect_err("a typo is not a setting");
    assert!(why.contains("\"shells\""), "{why}");
    for key in ["shell", "shell_args", "max_steps", "proxy"] {
        assert!(why.contains(key), "{why}");
    }

    for (key, value) in [("shell", "   "), ("max_steps", "0"), ("max_steps", "many")] {
        assert!(
            set_config_key(&mut cfg, key, value).is_err(),
            "/config set {key} {value:?} was accepted"
        );
    }
    assert_eq!(cfg.shell, "bash", "a refused value wrote the setting anyway");
    assert_eq!(cfg.max_steps, 7, "a refused value wrote the setting anyway");
}

#[test]
fn each_refused_setting_says_why() {
    let mut cfg = Settings {
        shell: "sh".to_string(),
        shell_args: Vec::new(),
        max_steps: 3,
        proxy: Some("http://p".to_string()),
    };
    assert_eq!(
        set_config_key(&mut cfg, "shell", " \t"),
        Err("shell cannot be empty — it is the program commands are run with".to_string())
    );
    assert_eq!(
        set_config_key(&mut cfg, "max_steps", "0"),
        Err("max_steps cannot be 0 — it is the guard against a loop that never ends".to_string())
    );
    assert_eq!(
        set_config_key(&mut cfg, "max_steps", "many"),
        Err("max_steps takes a whole number, not \"many\"".to_string())
    );
    assert_eq!(
        set_config_key(&mut cfg, "colour", "on"),
        Err("no setting called \"colour\" — /config set takes shell, shell_args, max_steps, proxy"
            .to_string())
    );
    assert_eq!(set_config_key(&mut cfg, "max_steps", " +12 "), Ok("max_steps = 12".to_string()));
    assert_eq!(cfg.proxy.as_deref(), Some("http://p"));
}

#[test]
fn the_last_provider_is_never_removed() {
    let one = vec!["deepseek".to_string()];
    assert_eq!(
        remove_provider(&one, "deepseek", "deepseek", "deepseek").unwrap_err(),
        "refusing to delete the last provider \u{2014} there would be nothing left to talk to"
    );
    let two = vec!["deepseek".to_string(), "local".to_string()];
    assert_eq!(remove_provider(&two, "deepseek", "local", "").unwrap_err(), "usage: /provider rm <name>");
    assert_eq!(remove_provider(&two, "deepseek", "local", "nope").unwrap_err(), "unknown provider 'nope'");
    let rm = remove_provider(&two, "deepseek", "deepseek", "deepseek").unwrap();
    assert_eq!(rm.remaining, vec!["local".to_string()]);
    assert_eq!(rm.default_provider, "local");
    assert_eq!(rm.switch_to.as_deref(), Some("local"));
    let rm = remove_provider(&two, "deepseek", "deepseek", "local").unwrap();
    assert_eq!(rm.remaining, vec!["deepseek".to_string()]);
    assert_eq!(rm.default_provider, "deepseek");
    assert_eq!(rm.switch_to, None);
}
