use std::collections::HashMap;

use discord_issue_bot::config::{
    collect_guild_repos, num, optional, parse_guild_repos, parse_id_list, require, Config,
    ConfigError, Limits, Repo,
};
use discord_issue_bot::number::NumberError;

fn vars(pairs: &[(&str, &str)]) -> Vec<(String, String)> {
    pairs.iter().map(|(k, v)| (k.to_string(), v.to_string())).collect()
}

fn enough() -> Vec<(&'static str, &'static str)> {
    vec![
        ("DISCORD_TOKEN", "d"),
        ("OPENAI_API_KEY", "o"),
        ("GITHUB_TOKEN", "g"),
        ("GITHUB_REPO", "octocat/hello"),
    ]
}

fn with(more: &[(&'static str, &'static str)]) -> Result<Config, ConfigError> {
    let mut all = enough();
    all.extend_from_slice(more);
    Config::from_env(&vars(&all))
}

#[test]
fn parses_repo_forms() {
    assert_eq!("a/b".parse::<Repo>().unwrap().to_string(), "a/b");
    assert_eq!(
        "https://github.com/a/b".parse::<Repo>().unwrap().to_string(),
        "a/b"
    );
    assert!("nope".parse::<Repo>().is_err());
    assert!("a/b/c".parse::<Repo>().is_err());
    assert!("/b".parse::<Repo>().is_err());
}

#[test]
fn guild_map_falls_back_to_default() {
    let cfg = Config {
        discord_token: String::new(),
        openai_api_key: String::new(),
        openai_model: String::new(),
        openai_base_url: String::new(),
        github_token: String::new(),
        default_repo: Some("d/efault".parse().unwrap()),
        guild_repos: parse_guild_repos(Some(r#"{"42": "o/verride"}"#)).unwrap(),
        allowed_role_ids: vec![],
        limits: Limits::default(),
        port: 8080,
    };
    assert_eq!(cfg.repo_for_guild(42).unwrap().to_string(), "o/verride");
    assert_eq!(cfg.repo_for_guild(7).unwrap().to_string(), "d/efault");
}

#[test]
fn parses_role_lists() {
    assert_eq!(parse_id_list(Some("1, 2,3")).unwrap(), vec![1, 2, 3]);
    assert!(parse_id_list(None).unwrap().is_empty());
    assert!(parse_id_list(Some("abc")).is_err());
}

#[test]
fn repos_are_read_past_what_does_not_count() {
    let repo = Repo::parse("  https://github.com/octocat/hello//  ").unwrap();
    assert_eq!((repo.owner.as_str(), repo.name.as_str()), ("octocat", "hello"));
    assert_eq!(Repo::parse(&repo.to_string()).unwrap(), repo);
    assert!(repo.same(&repo.clone()));
    assert!(!repo.same(&Repo::parse("octocat/other").unwrap()));
    assert_eq!(
        Repo::parse(" a/b/c/ ").unwrap_err().to_string(),
        "expected `owner/repo`, got `a/b/c`"
    );
    assert_eq!(
        Repo::parse("a/").unwrap_err().to_string(),
        "expected `owner/repo`, got `a`"
    );
}

#[test]
fn blank_variables_are_as_good_as_none() {
    let env = vars(&[("A", "  x "), ("B", "   "), ("A", "second")]);
    assert_eq!(optional(&env, "A"), Some("x".to_owned()));
    assert_eq!(optional(&env, "B"), None);
    assert_eq!(optional(&env, "C"), None);
    assert_eq!(require(&env, "A").unwrap(), "x");
    assert_eq!(require(&env, "B").unwrap_err().to_string(), "B is required but unset");
    assert_eq!(num(&env, "B", 7, 10).unwrap(), 7);
}

#[test]
fn a_full_environment_sets_everything() {
    let cfg = with(&[
        ("OPENAI_MODEL", "m"),
        ("OPENAI_BASE_URL", "http://host/v1//"),
        ("GITHUB_REPO_MAP", r#"{"1": "a/b", "2": "https://github.com/c/d"}"#),
        ("ALLOWED_ROLE_IDS", "10,,20"),
        ("MAX_THREAD_MESSAGES", "1"),
        ("MAX_MESSAGE_CHARS", "2"),
        ("MAX_LLM_CHARS", "3"),
        ("MAX_BODY_CHARS", "4"),
        ("MAX_ATTACHMENTS", "5"),
        ("USER_COOLDOWN_SECS", "+6"),
        ("PORT", "65535"),
    ])
    .unwrap();
    assert_eq!(cfg.discord_token, "d");
    assert_eq!(cfg.openai_api_key, "o");
    assert_eq!(cfg.github_token, "g");
    assert_eq!(cfg.openai_model, "m");
    assert_eq!(cfg.openai_base_url, "http://host/v1");
    assert_eq!(cfg.guild_repos.len(), 2);
    assert_eq!(cfg.repo_for_guild(2).unwrap().to_string(), "c/d");
    assert_eq!(cfg.allowed_role_ids, vec![10, 20]);
    assert_eq!(cfg.limits.max_messages, 1);
    assert_eq!(cfg.limits.max_message_chars, 2);
    assert_eq!(cfg.limits.max_llm_chars, 3);
    assert_eq!(cfg.limits.max_body_chars, 4);
    assert_eq!(cfg.limits.max_attachments, 5);
    assert_eq!(cfg.limits.user_cooldown_secs, 6);
    assert_eq!(cfg.port, 65535);
    assert_eq!(cfg.clone().repo_for_guild(1).unwrap().to_string(), "a/b");
}

#[test]
fn a_bare_environment_gets_the_defaults() {
    let cfg = with(&[]).unwrap();
    assert_eq!(cfg.openai_model, "gpt-4o-mini");
    assert_eq!(cfg.openai_base_url, "https://api.openai.com/v1");
    assert!(cfg.guild_repos.is_empty());
    assert!(cfg.allowed_role_ids.is_empty());
    assert_eq!(cfg.limits.max_messages, 200);
    assert_eq!(cfg.limits.max_message_chars, 2_000);
    assert_eq!(cfg.limits.max_llm_chars, 24_000);
    assert_eq!(cfg.limits.max_body_chars, 60_000);
    assert_eq!(cfg.limits.max_attachments, 20);
    assert_eq!(cfg.limits.user_cooldown_secs, 20);
    assert_eq!(cfg.port, 8080);
}

#[test]
fn the_body_limit_stays_below_what_github_takes() {
    assert_eq!(with(&[("MAX_BODY_CHARS", "70000")]).unwrap().limits.max_body_chars, 65_000);
    assert_eq!(with(&[("MAX_BODY_CHARS", "64999")]).unwrap().limits.max_body_chars, 64_999);
}

#[test]
fn missing_variables_are_named_in_order() {
    let e = Config::from_env(&[]).unwrap_err();
    assert_eq!(e.to_string(), "DISCORD_TOKEN is required but unset");
    let e = Config::from_env(&vars(&[("DISCORD_TOKEN", "d")])).unwrap_err();
    assert_eq!(e.to_string(), "OPENAI_API_KEY is required but unset");
    let e = Config::from_env(&vars(&[("DISCORD_TOKEN", "d"), ("OPENAI_API_KEY", "o")])).unwrap_err();
    assert!(matches!(e, ConfigError::Unset { ref key } if key == "GITHUB_TOKEN"));
}

#[test]
fn nowhere_to_file_is_an_error() {
    let env = vars(&[("DISCORD_TOKEN", "d"), ("OPENAI_API_KEY", "o"), ("GITHUB_TOKEN", "g")]);
    let e = Config::from_env(&env).unwrap_err();
    assert!(matches!(e, ConfigError::NoRepo));
    assert_eq!(
        e.to_string(),
        "set GITHUB_REPO (e.g. `owner/repo`) or GITHUB_REPO_MAP, otherwise the bot has nowhere to file issues"
    );
    // A guild map will do.
    let guilds: HashMap<u64, Repo> = HashMap::from([(5, "a/b".parse().unwrap())]);
    let cfg = Config::from_settings(&env, Ok(guilds)).unwrap();
    assert!(cfg.default_repo.is_none());
    assert_eq!(cfg.repo_for_guild(5).unwrap().to_string(), "a/b");
    assert!(cfg.repo_for_guild(6).is_none());
}

#[test]
fn bad_settings_say_what_is_wrong() {
    let e = with(&[("PORT", "65536")]).unwrap_err();
    assert_eq!(e.to_string(), "PORT: number too large to fit in target type");
    let e = with(&[("MAX_LLM_CHARS", "many")]).unwrap_err();
    assert_eq!(e.chain(), vec!["MAX_LLM_CHARS: invalid digit found in string"]);
    let e = with(&[("ALLOWED_ROLE_IDS", "1, x ")]).unwrap_err();
    assert_eq!(
        e.chain(),
        vec!["ALLOWED_ROLE_IDS", "`x` is not an id", "invalid digit found in string"]
    );
    let mut all = enough();
    all[3] = ("GITHUB_REPO", "nope");
    let e = Config::from_env(&vars(&all)).unwrap_err();
    assert_eq!(e.chain(), vec!["GITHUB_REPO", "expected `owner/repo`, got `nope`"]);
}

#[test]
fn guild_maps_must_be_json_objects_of_strings() {
    let e = parse_guild_repos(Some("nope")).unwrap_err();
    assert_eq!(
        e.chain(),
        vec![
            "GITHUB_REPO_MAP must be JSON like {\"<guild id>\": \"owner/repo\"}",
            "expected ident at line 1 column 2",
        ]
    );
    assert!(matches!(
        parse_guild_repos(Some(r#"{"1": 2}"#)),
        Err(ConfigError::MapSyntax { .. })
    ));
    assert!(parse_guild_repos(None).unwrap().is_empty());
    assert!(parse_guild_repos(Some("{}")).unwrap().is_empty());
}

#[test]
fn guild_maps_must_hold_guilds_and_repos() {
    let e = parse_guild_repos(Some(r#"{"x": "a/b"}"#)).unwrap_err();
    assert_eq!(
        e.chain(),
        vec!["GITHUB_REPO_MAP key `x` is not a guild id", "invalid digit found in string"]
    );
    let e = parse_guild_repos(Some(r#"{"": "a/b"}"#)).unwrap_err();
    assert!(matches!(e, ConfigError::MapGuild { why: NumberError::Empty, .. }));
    let e = parse_guild_repos(Some(r#"{"1": "a"}"#)).unwrap_err();
    assert_eq!(e.chain(), vec!["expected `owner/repo`, got `a`"]);
}

#[test]
fn guild_maps_are_read_in_order() {
    // The first fault counts, and of two entries on one guild the later.
    let e = collect_guild_repos(&vars(&[("1", "a/b"), ("2", "bad"), ("x", "a/b")])).unwrap_err();
    assert!(matches!(e, ConfigError::MapRepo { ref got } if got == "bad"));
    let m = collect_guild_repos(&vars(&[("1", "a/b"), ("+1", "c/d")])).unwrap();
    assert_eq!(m.len(), 1);
    assert_eq!(m[&1].to_string(), "c/d");
}

#[test]
fn guild_map_order_does_not_matter() {
    let one = collect_guild_repos(&vars(&[("1", "a/b"), ("2", "c/d")])).unwrap();
    let other = collect_guild_repos(&vars(&[("2", "c/d"), ("1", "a/b")])).unwrap();
    assert_eq!(one, other);
}

#[test]
fn a_faulty_guild_map_comes_before_faulty_roles() {
    let e = with(&[("ALLOWED_ROLE_IDS", "x"), ("GITHUB_REPO_MAP", "[]")]).unwrap_err();
    assert!(matches!(e, ConfigError::MapSyntax { .. }));
    let e = with(&[("ALLOWED_ROLE_IDS", "x"), ("PORT", "y")]).unwrap_err();
    assert!(matches!(e, ConfigError::Role { .. }));
}

#[test]
fn every_form_of_a_repo_reads_the_same() {
    let repo = Repo::parse("octocat/hello-world").unwrap();
    for before in ["", " ", "\t\n "] {
        for address in ["", "https://github.com/"] {
            for slashes in ["", "/", "///"] {
                for after in ["", "  ", "\r\n"] {
                    let written = format!("{before}{address}octocat/hello-world{slashes}{after}");
                    assert_eq!(Repo::parse(&written).unwrap(), repo);
                }
            }
        }
    }
}
