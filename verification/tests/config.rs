//! Settings: the file, the environment, and the rules for prefixes and repositories.

use pitwall::config::{
    dedup_preserve, default_socket_path, env_nonempty, fold_implicit_first_repo, load_file,
    parse_env_prefix_entry, parse_pct, prefix_poll_seed, repo_field_to_vec, resolve,
    resolve_config_path, resolve_prefixes, resolve_thresholds, split_repos,
    unix_socket_from_docker_host, Config, ConfigPath, Env, FileConfig, FileRead, FileStep,
    PrefixEntry, PrefixField, PrefixRule, RepoField, GIB,
};
use pitwall::theme::Flavor;

const UID: u32 = 1000;

fn env(pairs: &[(&str, &str)]) -> Env {
    Env {
        vars: pairs
            .iter()
            .map(|(k, v)| (k.to_string(), v.to_string()))
            .collect(),
    }
}

fn approx(a: f64, b: f64) -> bool {
    (a - b).abs() < 1e-9
}

fn ratios(warn: Option<&str>, crit: Option<&str>) -> (f64, f64) {
    let (w, c) = resolve_thresholds(warn, crit);
    (w as f64 / 100.0, c as f64 / 100.0)
}

fn rule(prefix: &str, repo: Option<&str>) -> PrefixRule {
    PrefixRule {
        prefix: prefix.into(),
        repo: repo.map(String::from),
    }
}

fn resolve_for(file: FileConfig, pairs: &[(&str, &str)]) -> Config {
    resolve(file, &env(pairs), UID)
}

#[test]
fn thresholds_default_when_unset() {
    let (w, c) = ratios(None, None);
    assert!(approx(w, 0.85), "warn {w}");
    assert!(approx(c, 0.90), "crit {c}");
}

#[test]
fn thresholds_clamp_over_100() {
    let (w, c) = ratios(Some("150"), Some("200"));
    assert!(approx(w, 1.0) && approx(c, 1.0));
}

#[test]
fn thresholds_non_numeric_falls_back_to_default() {
    let (w, c) = ratios(Some("abc"), Some("xyz"));
    assert!(approx(w, 0.85) && approx(c, 0.90));
}

#[test]
fn thresholds_warn_pinned_to_crit_when_inverted() {
    let (w, c) = ratios(Some("95"), Some("80"));
    assert!(approx(w, 0.80) && approx(c, 0.80));
}

#[test]
fn thresholds_degenerate_crit_zero_pins_warn_zero() {
    let (w, c) = ratios(Some("50"), Some("0"));
    assert!(approx(w, 0.0) && approx(c, 0.0));
}

#[test]
fn percentages_are_trimmed_and_may_carry_a_plus_sign() {
    assert_eq!(parse_pct(Some("  42\n"), 7), 42);
    assert_eq!(parse_pct(Some("+42"), 7), 42);
    assert_eq!(parse_pct(Some("-42"), 7), 7);
    assert_eq!(parse_pct(Some(""), 7), 7);
    assert_eq!(parse_pct(Some("101"), 7), 100);
    assert_eq!(parse_pct(Some("18446744073709551615"), 7), 100);
    assert_eq!(parse_pct(Some("18446744073709551616"), 85), 100);
    assert_eq!(parse_pct(Some("+00000000000000000000042"), 7), 42);
    assert_eq!(parse_pct(Some("18446744073709551616x"), 7), 7);
    assert_eq!(parse_pct(None, 700), 100);
}

#[test]
fn split_repos_trims_and_drops_empties() {
    assert_eq!(split_repos("a/b, c/d"), vec!["a/b", "c/d"]);
    assert_eq!(split_repos("  x/y  "), vec!["x/y"]);
    assert_eq!(split_repos("a/b,,c/d,"), vec!["a/b", "c/d"]);
    assert!(split_repos("").is_empty());
    assert!(split_repos("  ,  ").is_empty());
}

#[test]
fn dedup_preserve_keeps_first_occurrence_order() {
    assert_eq!(
        dedup_preserve(vec!["a/b".into(), "c/d".into(), "a/b".into(), "e/f".into()]),
        vec!["a/b", "c/d", "e/f"]
    );
}

#[test]
fn resolve_comma_env_yields_multiple_repos() {
    let c = resolve_for(FileConfig::default(), &[("PITWALL_REPO", "a/b, c/d")]);
    assert_eq!(c.configured_repos, vec!["a/b", "c/d"]);
}

#[test]
fn resolve_toml_array_yields_multiple_repos() {
    let file = FileConfig {
        repo: Some(RepoField::Many(vec!["a/b".into(), "c/d".into()])),
        ..Default::default()
    };
    let c = resolve_for(file, &[]);
    assert_eq!(c.configured_repos, vec!["a/b", "c/d"]);
}

#[test]
fn resolve_toml_string_with_comma_splits() {
    let file = FileConfig {
        repo: Some(RepoField::One("a/b,c/d".into())),
        ..Default::default()
    };
    let c = resolve_for(file, &[]);
    assert_eq!(c.configured_repos, vec!["a/b", "c/d"]);
}

#[test]
fn resolve_dedups_repeated_repos() {
    let c = resolve_for(FileConfig::default(), &[("PITWALL_REPO", "a/b,a/b,c/d")]);
    assert_eq!(c.configured_repos, vec!["a/b", "c/d"]);
}

#[test]
fn repo_lists_are_flattened_in_order() {
    assert_eq!(
        repo_field_to_vec(Some(RepoField::Many(vec![
            "a/b, c/d".into(),
            " ".into(),
            "e/f".into()
        ]))),
        vec!["a/b", "c/d", "e/f"]
    );
    assert!(repo_field_to_vec(None).is_empty());
}

#[test]
fn parse_env_prefix_entry_maps_and_trims() {
    assert_eq!(
        parse_env_prefix_entry("  pulse- = a/b "),
        Some(rule("pulse-", Some("a/b")))
    );
    assert_eq!(parse_env_prefix_entry("pulse-"), Some(rule("pulse-", None)));
    assert_eq!(
        parse_env_prefix_entry("pulse-="),
        Some(rule("pulse-", None))
    );
    assert_eq!(parse_env_prefix_entry("  "), None);
    assert_eq!(parse_env_prefix_entry("=a/b"), None);
}

#[test]
fn resolve_env_prefix_multi_with_mapping() {
    let c = resolve_for(
        FileConfig::default(),
        &[(
            "PITWALL_PREFIX",
            "pulse-ci-runner-=erwins-enkel/pulse,flowagent-ci-runner-=ltdovr/flowagent",
        )],
    );
    assert_eq!(
        c.prefixes,
        vec![
            rule("pulse-ci-runner-", Some("erwins-enkel/pulse")),
            rule("flowagent-ci-runner-", Some("ltdovr/flowagent")),
        ]
    );
}

#[test]
fn resolve_toml_prefix_table_form() {
    let file = FileConfig {
        prefix: Some(PrefixField::Many(vec![
            PrefixEntry {
                prefix: "pulse-ci-runner-".into(),
                repo: Some("erwins-enkel/pulse".into()),
            },
            PrefixEntry {
                prefix: "flowagent-ci-runner-".into(),
                repo: Some("ltdovr/flowagent".into()),
            },
        ])),
        ..Default::default()
    };
    let c = resolve_for(file, &[]);
    assert_eq!(
        c.prefixes,
        vec![
            rule("pulse-ci-runner-", Some("erwins-enkel/pulse")),
            rule("flowagent-ci-runner-", Some("ltdovr/flowagent")),
        ]
    );
}

#[test]
fn fold_implicit_first_repo_only_first_unmapped_rule() {
    let mut rules = vec![
        rule("pulse-ci-runner-", None),
        rule("flowagent-ci-runner-", None),
    ];
    fold_implicit_first_repo(&mut rules, &["erwins-enkel/pulse".to_string()]);
    assert_eq!(
        rules,
        vec![
            rule("pulse-ci-runner-", Some("erwins-enkel/pulse")),
            rule("flowagent-ci-runner-", None),
        ]
    );
}

#[test]
fn fold_implicit_first_repo_noop_when_first_mapped_or_no_repo() {
    let mut mapped = vec![rule("pulse-", Some("a/b"))];
    fold_implicit_first_repo(&mut mapped, &["c/d".to_string()]);
    assert_eq!(mapped, vec![rule("pulse-", Some("a/b"))]);
    let mut unmapped = vec![rule("pulse-", None)];
    fold_implicit_first_repo(&mut unmapped, &[]);
    assert_eq!(unmapped, vec![rule("pulse-", None)]);
}

#[test]
fn resolve_two_unmapped_prefixes_folds_first_only() {
    let file = FileConfig {
        repo: Some(RepoField::One("erwins-enkel/pulse".into())),
        prefix: Some(PrefixField::Many(vec![
            PrefixEntry {
                prefix: "pulse-ci-runner-".into(),
                repo: None,
            },
            PrefixEntry {
                prefix: "flowagent-ci-runner-".into(),
                repo: None,
            },
        ])),
        ..Default::default()
    };
    let c = resolve_for(file, &[]);
    assert_eq!(
        c.prefixes,
        vec![
            rule("pulse-ci-runner-", Some("erwins-enkel/pulse")),
            rule("flowagent-ci-runner-", None),
        ]
    );
}

#[test]
fn blank_prefixes_fall_back_to_the_built_in_one() {
    let blank = resolve_prefixes(None, Some(PrefixField::One("   ".into())));
    assert_eq!(blank, vec![rule("ci-runner-", None)]);
    let entries = resolve_prefixes(
        None,
        Some(PrefixField::Many(vec![
            PrefixEntry {
                prefix: " ".into(),
                repo: Some("a/b".into()),
            },
            PrefixEntry {
                prefix: " px- ".into(),
                repo: Some("  ".into()),
            },
        ])),
    );
    assert_eq!(entries, vec![rule("px-", None)]);
    let env_wins = resolve_prefixes(Some(",=x/y,".into()), Some(PrefixField::One("px-".into())));
    assert_eq!(env_wins, vec![rule("ci-runner-", None)]);
}

#[test]
fn prefix_poll_seed_merges_mapped_repos_deduped() {
    let configured = vec!["erwins-enkel/pulse".to_string()];
    let prefixes = vec![
        rule("pulse-ci-runner-", Some("erwins-enkel/pulse")),
        rule("flowagent-ci-runner-", Some("ltdovr/flowagent")),
        rule("misc-", None),
    ];
    assert_eq!(
        prefix_poll_seed(&configured, &prefixes),
        vec!["erwins-enkel/pulse", "ltdovr/flowagent"]
    );
}

#[test]
fn defaults_when_env_and_file_empty() {
    let c = resolve_for(FileConfig::default(), &[]);
    assert!(c.configured_repos.is_empty());
    assert_eq!(c.prefixes, vec![rule("ci-runner-", None)]);
    assert_eq!(c.slice_cap_bytes, 24 * GIB);
    assert_eq!(c.socket_path, default_socket_path(UID));
    assert_eq!(c.socket_path, "/run/user/1000/docker.sock");
    assert_eq!(c.flavor, Flavor::Mocha);
    assert!(c.orgs.is_empty());
    assert_eq!((c.warn_pct, c.crit_pct), (85, 90));
}

#[test]
fn file_values_used_when_env_unset() {
    let file = FileConfig {
        socket: Some("/file.sock".into()),
        repo: Some(RepoField::One("o/r".into())),
        prefix: Some(PrefixField::One("px-".into())),
        slice_cap_gib: Some(8),
        theme: Some("latte".into()),
    };
    let c = resolve_for(file, &[]);
    assert_eq!(c.socket_path, "/file.sock");
    assert_eq!(c.configured_repos, vec!["o/r"]);
    assert_eq!(c.prefixes, vec![rule("px-", Some("o/r"))]);
    assert_eq!(c.slice_cap_bytes, 8 * GIB);
    assert_eq!(c.flavor, Flavor::Latte);
}

#[test]
fn env_overrides_file() {
    let file = FileConfig {
        socket: Some("/file.sock".into()),
        repo: Some(RepoField::One("file/repo".into())),
        prefix: Some(PrefixField::One("file-".into())),
        slice_cap_gib: Some(8),
        theme: Some("latte".into()),
    };
    let c = resolve_for(
        file,
        &[
            ("PITWALL_SOCKET", "/env.sock"),
            ("PITWALL_REPO", "env/repo"),
            ("PITWALL_PREFIX", "env-"),
            ("PITWALL_SLICE_CAP_GIB", "16"),
            ("PITWALL_THEME", "frappe"),
        ],
    );
    assert_eq!(c.socket_path, "/env.sock");
    assert_eq!(c.configured_repos, vec!["env/repo"]);
    assert_eq!(c.prefixes, vec![rule("env-", Some("env/repo"))]);
    assert_eq!(c.slice_cap_bytes, 16 * GIB);
    assert_eq!(c.flavor, Flavor::Frappe);
}

#[test]
fn garbage_cap_env_falls_through_to_file() {
    let file = FileConfig {
        slice_cap_gib: Some(12),
        ..Default::default()
    };
    let c = resolve_for(file, &[("PITWALL_SLICE_CAP_GIB", "notanumber")]);
    assert_eq!(c.slice_cap_bytes, 12 * GIB);
}

#[test]
fn a_cap_with_whitespace_is_no_number() {
    let c = resolve_for(FileConfig::default(), &[("PITWALL_SLICE_CAP_GIB", " 16")]);
    assert_eq!(c.slice_cap_bytes, 24 * GIB);
}

#[test]
fn empty_env_treated_as_unset() {
    let file = FileConfig {
        socket: Some("/file.sock".into()),
        repo: Some(RepoField::One("file/repo".into())),
        ..Default::default()
    };
    let c = resolve_for(file, &[("PITWALL_SOCKET", ""), ("PITWALL_REPO", "")]);
    assert_eq!(c.socket_path, "/file.sock");
    assert_eq!(c.configured_repos, vec!["file/repo"]);
}

#[test]
fn socket_file_beats_docker_host() {
    let file = FileConfig {
        socket: Some("/file.sock".into()),
        ..Default::default()
    };
    let c = resolve_for(file, &[("DOCKER_HOST", "unix:///dh.sock")]);
    assert_eq!(c.socket_path, "/file.sock");
}

#[test]
fn socket_pitwall_env_beats_file() {
    let file = FileConfig {
        socket: Some("/file.sock".into()),
        ..Default::default()
    };
    let c = resolve_for(file, &[("PITWALL_SOCKET", "/env.sock")]);
    assert_eq!(c.socket_path, "/env.sock");
}

#[test]
fn socket_docker_host_used_when_no_pitwall_or_file() {
    let c = resolve_for(
        FileConfig::default(),
        &[("DOCKER_HOST", "unix:///dh.sock")],
    );
    assert_eq!(c.socket_path, "/dh.sock");
}

#[test]
fn an_unusable_docker_host_leaves_the_default_socket() {
    let c = resolve_for(FileConfig::default(), &[("DOCKER_HOST", "tcp://host:2375")]);
    assert_eq!(c.socket_path, "/run/user/1000/docker.sock");
}

#[test]
fn cap_gib_saturates_instead_of_overflowing() {
    let file = FileConfig {
        slice_cap_gib: Some(u64::MAX),
        ..Default::default()
    };
    let c = resolve_for(file, &[]);
    assert_eq!(c.slice_cap_bytes, u64::MAX);
}

#[test]
fn path_explicit_from_pitwall_config() {
    let cp = resolve_config_path(&env(&[("PITWALL_CONFIG", "/x/y.toml")]));
    assert_eq!(cp, ConfigPath::Explicit("/x/y.toml".into()));
}

#[test]
fn path_empty_pitwall_config_falls_through() {
    let cp = resolve_config_path(&env(&[("PITWALL_CONFIG", ""), ("XDG_CONFIG_HOME", "/cfg")]));
    assert_eq!(cp, ConfigPath::Default("/cfg/pitwall/config.toml".into()));
}

#[test]
fn path_xdg_preferred_over_home() {
    let cp = resolve_config_path(&env(&[("XDG_CONFIG_HOME", "/cfg"), ("HOME", "/home/u")]));
    assert_eq!(cp, ConfigPath::Default("/cfg/pitwall/config.toml".into()));
}

#[test]
fn path_home_fallback() {
    let cp = resolve_config_path(&env(&[("HOME", "/home/u")]));
    assert_eq!(
        cp,
        ConfigPath::Default("/home/u/.config/pitwall/config.toml".into())
    );
}

#[test]
fn path_none_when_nothing_set() {
    assert_eq!(resolve_config_path(&env(&[])), ConfigPath::Nowhere);
}

#[test]
fn paths_join_as_std_paths_do() {
    for dir in ["/cfg", "/cfg/", "cfg", "/", "a//"] {
        let std_path = std::path::PathBuf::from(dir)
            .join("pitwall")
            .join("config.toml");
        let cp = resolve_config_path(&env(&[("XDG_CONFIG_HOME", dir)]));
        assert_eq!(
            cp,
            ConfigPath::Default(std_path.to_str().unwrap().to_string())
        );
    }
}

#[test]
fn load_none_is_none() {
    let step = load_file(ConfigPath::Nowhere, FileRead::Failed("unused".into()));
    assert!(matches!(step, FileStep::NoFile));
}

#[test]
fn missing_files_fail_only_where_they_were_named() {
    let absent = load_file(
        ConfigPath::Default("/d.toml".into()),
        FileRead::NotFound("absent".into()),
    );
    assert!(matches!(absent, FileStep::NoFile));
    match load_file(
        ConfigPath::Explicit("/e.toml".into()),
        FileRead::NotFound("absent".into()),
    ) {
        FileStep::Fail { context, cause } => {
            assert_eq!(context, "reading config file /e.toml");
            assert_eq!(cause, "absent");
        }
        other => panic!("expected Fail, got {other:?}"),
    }
}

#[test]
fn unreadable_files_fail_and_texts_are_parsed() {
    match load_file(
        ConfigPath::Default("/d.toml".into()),
        FileRead::Failed("denied".into()),
    ) {
        FileStep::Fail { context, cause } => {
            assert_eq!(context, "reading config file /d.toml");
            assert_eq!(cause, "denied");
        }
        other => panic!("expected Fail, got {other:?}"),
    }
    match load_file(
        ConfigPath::Default("/d.toml".into()),
        FileRead::Text("repo = 1".into()),
    ) {
        FileStep::Parse { text, context } => {
            assert_eq!(text, "repo = 1");
            assert_eq!(context, "parsing config file /d.toml");
        }
        other => panic!("expected Parse, got {other:?}"),
    }
}

#[test]
fn docker_host_unix_paths_parsed_non_unix_ignored() {
    assert_eq!(
        unix_socket_from_docker_host("unix:///run/user/1000/docker.sock").as_deref(),
        Some("/run/user/1000/docker.sock")
    );
    assert_eq!(
        unix_socket_from_docker_host("/var/run/docker.sock").as_deref(),
        Some("/var/run/docker.sock")
    );
    assert_eq!(unix_socket_from_docker_host("tcp://host:2375"), None);
    assert_eq!(unix_socket_from_docker_host("ssh://user@host"), None);
}

#[test]
fn the_first_of_two_equal_variables_counts() {
    let e = env(&[("A", "1"), ("A", "2"), ("B", "")]);
    assert_eq!(env_nonempty(&e, "A").as_deref(), Some("1"));
    assert_eq!(env_nonempty(&e, "B"), None);
    assert_eq!(env_nonempty(&e, "C"), None);
}

#[test]
fn a_cloned_config_is_the_same() {
    let c = resolve_for(
        FileConfig::default(),
        &[("PITWALL_REPO", "a/b"), ("PITWALL_PREFIX", "x-,y-=c/d")],
    );
    let d = c.clone();
    assert_eq!(d.prefixes, c.prefixes);
    assert_eq!(d.repos, c.repos);
    assert_eq!(d.socket_path, c.socket_path);
}
