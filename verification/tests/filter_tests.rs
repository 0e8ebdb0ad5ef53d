use symbaker::filter::{parse_csv, parse_module_rules, wildcard_match, ModuleRules, RuleArg};

fn arg(key: &str, value: &str) -> RuleArg {
    RuleArg { key: key.to_string(), value: Some(value.to_string()) }
}

fn rules(args: &[RuleArg]) -> ModuleRules {
    let v: Vec<RuleArg> = args.iter().map(|a| RuleArg { key: a.key.clone(), value: a.value.clone() }).collect();
    parse_module_rules(&v).unwrap()
}

#[test]
fn csv_items_are_trimmed_and_non_empty() {
    assert_eq!(parse_csv("a, b ,,c"), vec!["a", "b", "c"]);
    assert_eq!(parse_csv(" keep_* ,\tspecial "), vec!["keep_*", "special"]);
    assert!(parse_csv("").is_empty());
    assert!(parse_csv(" , ,").is_empty());
    assert_eq!(parse_csv("one"), vec!["one"]);
}

#[test]
fn wildcards() {
    assert!(wildcard_match("", ""));
    assert!(!wildcard_match("", "a"));
    assert!(wildcard_match("*", ""));
    assert!(wildcard_match("*", "anything"));
    assert!(wildcard_match("keep_*", "keep_one"));
    assert!(!wildcard_match("keep_*", "skip_one"));
    assert!(wildcard_match("*_skip", "keep_skip"));
    assert!(wildcard_match("a?c", "abc"));
    assert!(!wildcard_match("a?c", "ac"));
    assert!(wildcard_match("a*b*c", "a__b__b__c"));
    assert!(!wildcard_match("a*b*c", "a__b__b__"));
    assert!(wildcard_match("exports::*", "exports::keep_one"));
    assert!(wildcard_match("a**", "a"));
    assert!(!wildcard_match("abc", "abcd"));
    assert!(!wildcard_match("abcd", "abc"));
}

#[test]
fn default_rules_prefix_everything() {
    let r = ModuleRules::default();
    assert!(r.should_prefix("exports", "anything"));
    assert_eq!(r.render_export_name("hdr", "__", "exports", "run"), "hdr__run");
}

#[test]
fn globs_select_by_name_or_path() {
    let r = rules(&[arg("include_glob", "keep_*, exports::special"), arg("exclude_glob", "*_skip")]);
    assert!(r.should_prefix("exports", "keep_one"));
    assert!(r.should_prefix("exports", "special"));
    assert!(!r.should_prefix("other", "special"));
    assert!(!r.should_prefix("exports", "keep_skip"));
    assert!(!r.should_prefix("exports", "other"));
}

#[test]
fn regular_expressions_select_by_match_anywhere() {
    let r = rules(&[arg("include_regex", "^keep_, other$"), arg("exclude_regex", "secret")]);
    assert!(r.should_prefix("exports", "keep_one"));
    assert!(r.should_prefix("exports", "another"));
    assert!(!r.should_prefix("exports", "keep_secret"));
    assert!(!r.should_prefix("exports", "plain"));
    assert!(!r.should_prefix("secret_mod", "keep_one"));
}

#[test]
fn both_kinds_of_include_rules_must_let_a_name_in() {
    let r = rules(&[arg("include_regex", "one$"), arg("include_glob", "keep_*")]);
    assert!(r.should_prefix("m", "keep_one"));
    assert!(!r.should_prefix("m", "keep_two"));
    assert!(!r.should_prefix("m", "drop_one"));
}

#[test]
fn lists_of_one_key_are_joined() {
    let r = rules(&[arg("include_glob", "a"), arg("suffix", "_x"), arg("include_glob", "b,c"), arg("suffix", "_y")]);
    assert_eq!(r.include_glob, vec!["a", "b", "c"]);
    assert_eq!(r.suffix, Some("_y".to_string()));
    assert_eq!(r.template, None);
    assert!(r.include_regex.is_empty());
}

#[test]
fn templates_and_suffixes() {
    let r = rules(&[arg("suffix", "_x")]);
    assert_eq!(r.render_export_name("rules_app", "__", "exports", "keep_one"), "rules_app__keep_one_x");
    let r = rules(&[arg("template", "{prefix}{sep}{module}_{name}{suffix}"), arg("suffix", "_x")]);
    assert_eq!(r.render_export_name("rules_app", "__", "exports", "keep_one"), "rules_app__exports_keep_one_x");
    let r = rules(&[arg("template", "{name}-{name}-{nam}-{prefix")]);
    assert_eq!(r.render_export_name("p", "__", "m", "n"), "n-n-{nam}-{prefix");
    let r = rules(&[arg("template", "{prefix}")]);
    assert_eq!(r.render_export_name("{sep}", "!", "m", "n"), "!");
}

#[test]
fn a_pattern_that_does_not_compile_is_reported_at_its_argument() {
    let args = vec![arg("suffix", "_x"), arg("exclude_regex", "ok, (")];
    let e = parse_module_rules(&args).unwrap_err();
    assert_eq!(e.arg, 1);
    assert!(e.message.starts_with("symbaker_module: invalid exclude regex '(': "), "{}", e.message);
    assert!(e.message.len() > "symbaker_module: invalid exclude regex '(': ".len());
    let args = vec![arg("include_regex", "[")];
    let e = parse_module_rules(&args).unwrap_err();
    assert_eq!(e.arg, 0);
    assert!(e.message.starts_with("symbaker_module: invalid include regex '[': "));
}

#[test]
fn a_glob_with_brackets_is_reported_at_the_first_argument_of_its_key() {
    let args = vec![arg("include_glob", "fine"), arg("exclude_regex", "("), arg("include_glob", "a[bc]")];
    let e = parse_module_rules(&args).unwrap_err();
    assert_eq!(e.arg, 0);
    assert_eq!(e.message, "symbaker_module: unsupported include glob 'a[bc]' (use only '*' and '?')");
    let args = vec![arg("exclude_glob", "x{y}")];
    let e = parse_module_rules(&args).unwrap_err();
    assert_eq!(e.message, "symbaker_module: unsupported exclude glob 'x{y}' (use only '*' and '?')");
}

#[test]
fn an_argument_without_text_still_has_its_list_checked() {
    let args = vec![RuleArg { key: "include_regex".to_string(), value: None }, arg("include_regex", "(")];
    let e = parse_module_rules(&args).unwrap_err();
    assert_eq!(e.arg, 0);
    let args = vec![RuleArg { key: "include_regex".to_string(), value: None }, arg("unknown", "(")];
    let r = parse_module_rules(&args).unwrap();
    assert!(r.include_regex.is_empty());
}

#[test]
fn expressions_match_case_as_written() {
    let r = rules(&[arg("include_regex", "^Keep")]);
    assert!(r.should_prefix("m", "Keep_one"));
    assert!(!r.should_prefix("m", "keep_one"));
}
