use nausicaa::json::{get_member, parse, Json};
use nausicaa::keyed::Keyed;
use nausicaa::options::{api_key, argument_value, Arguments, Options};

fn args(text: &str) -> Vec<String> {
    text.split_whitespace().map(str::to_owned).collect()
}

fn environment(entries: &[(&str, &str)]) -> Keyed<String> {
    let mut map: Keyed<String> = Keyed::new();
    for (name, value) in entries {
        map.insert((*name).to_owned(), (*value).to_owned());
    }
    map
}

fn temperature(text: &str) -> Option<Json> {
    let value: f64 = text.parse().ok()?;
    if !value.is_finite() || !(0.0..=2.0).contains(&value) {
        return None;
    }
    parse(&format!("{value:?}")).ok()
}

fn options(text: &str, entries: &[(&str, &str)]) -> Result<Options, String> {
    let environment = environment(entries);
    let arguments = Arguments::read(&args(text))?;
    let wanted = arguments.temperature(&environment);
    let value = wanted.as_deref().and_then(temperature);
    Options::parse(&arguments, &environment, value)
}

#[test]
fn cli_overrides_environment_and_maps_exact_request_settings() {
    let options = options(
        "--model chosen --request-timeout 240 --max-output-tokens 2048 --temperature 0 --max-model-iterations 8 --history-groups 20",
        &[("HARNESS_MODEL", "environment-model"), ("HARNESS_REQUEST_TIMEOUT", "60")],
    )
    .unwrap();
    let config = options.provider_config(None);
    assert_eq!(config.model, "chosen");
    assert_eq!(config.timeout_seconds, 240);
    assert_eq!(
        get_member(&config.extra_body, "max_completion_tokens"),
        Some(&Json::Unsigned(2048))
    );
    assert_eq!(get_member(&config.extra_body, "temperature").unwrap().to_text(), "0.0");
    assert_eq!(options.max_model_iterations, 8);
    assert_eq!(options.history_groups, 20);
}

#[test]
fn defaults_are_bounded_and_bad_configuration_fails_before_terminal_or_network() {
    let defaults = options("--demo", &[]).unwrap();
    assert_eq!(defaults.request_timeout, 120);
    assert_eq!(defaults.max_output_tokens, 4096);
    assert!(get_member(&defaults.provider_config(None).extra_body, "temperature").is_none());
    for bad in [
        "--request-timeout 0",
        "--request-timeout 601",
        "--temperature NaN",
        "--temperature inf",
        "--temperature -1",
        "--max-output-tokens 0",
        "--history-groups 2001",
        "--max-model-iterations 129",
        "--model",
        "--model x --model y",
        "--surprise",
        "--request-timeout --temperature 1",
    ] {
        assert!(options(&format!("--demo {bad}"), &[]).is_err(), "{bad}");
    }
    assert!(options("--demo", &[("HARNESS_MAX_OUTPUT_TOKENS", "bad")]).is_err());
}

#[test]
fn refused_settings_are_named() {
    assert_eq!(
        options("--demo --request-timeout 601", &[]).unwrap_err(),
        "--request-timeout must be between 1 and 600"
    );
    assert_eq!(
        options("--demo --history-groups x", &[]).unwrap_err(),
        "--history-groups must be an integer"
    );
    assert_eq!(options("--demo --demo", &[]).unwrap_err(), "duplicate option: --demo");
    assert_eq!(options("--surprise", &[]).unwrap_err(), "unknown option: --surprise");
    assert_eq!(options("--model", &[]).unwrap_err(), "missing value for --model");
    assert_eq!(options("", &[]).unwrap_err(), "set --model, HARNESS_MODEL, or use --demo");
    assert_eq!(
        options("--demo --temperature 3", &[]).unwrap_err(),
        "--temperature must be finite and between 0 and 2"
    );
    assert_eq!(options("", &[("HARNESS_MODEL", "m")]).unwrap().model.unwrap(), "m");
    let demo = options("--demo", &[]).unwrap();
    assert_eq!(demo.endpoint, "https://api.openai.com/v1/chat/completions");
    assert_eq!((demo.max_model_iterations, demo.history_groups), (32, 200));
    assert_eq!(demo.provider_config(Some("k".to_owned())).model, "demo");
}

#[test]
fn keys_are_trimmed_and_the_first_variable_counts() {
    let both = environment(&[("HARNESS_API_KEY", " a\n"), ("OPENAI_API_KEY", "b")]);
    assert_eq!(api_key(&both).unwrap(), "a");
    assert_eq!(api_key(&environment(&[("OPENAI_API_KEY", "b ")])).unwrap(), "b");
    assert!(api_key(&environment(&[])).is_none());
}

#[test]
fn an_argument_is_followed_by_its_value() {
    let arguments = args("--a 1 --b 2");
    assert_eq!(argument_value(&arguments, "--b").unwrap(), "2");
    assert!(argument_value(&arguments, "--c").is_none());
    assert!(argument_value(&args("--a"), "--a").is_none());
}
