use cartridge::{
    anonymize, find_config_file, BulkSummary, Config, Error, Game, GameBackup, SaveLocation,
    Scope, Variable,
};

fn s(x: &str) -> String {
    x.to_string()
}

fn scope_of(pairs: &[(&str, &str)]) -> Scope {
    let mut sc = Scope::new();
    for (k, v) in pairs {
        sc.insert(s(k), s(v));
    }
    sc
}

fn config_one_game(vars: &[(&str, &str)], game: Game) -> Config {
    Config {
        variables: vars
            .iter()
            .map(|(k, v)| Variable { name: s(k), value: s(v) })
            .collect(),
        games: vec![game],
    }
}

#[test]
fn expansion_identity_on_plain_strings() {
    let sc = scope_of(&[("a", "1")]);
    let once = cartridge::expand_str("plain/path/no-refs", &sc).unwrap();
    assert_eq!(once, "plain/path/no-refs");
    let twice = cartridge::expand_str(&once, &sc).unwrap();
    assert_eq!(twice, once);
}

#[test]
fn expansion_substitutes_in_document_order() {
    let sc = scope_of(&[("home", "/home/alice"), ("saves", "/home/alice/.saves")]);
    let r = cartridge::expand_str("${saves}/slot", &sc).unwrap();
    assert_eq!(r, "/home/alice/.saves/slot");
    let r2 = cartridge::expand_str("${home}/${saves}", &sc).unwrap();
    assert_eq!(r2, "/home/alice//home/alice/.saves");
}

#[test]
fn undefined_variable_is_reported_by_name() {
    let sc = scope_of(&[]);
    let e = cartridge::expand_str("${nope}", &sc).unwrap_err();
    assert!(matches!(e, Error::UndefinedVariable(n) if n == "nope"));
}

#[test]
fn empty_reference_fails_as_undefined_empty_name() {
    let sc = scope_of(&[("a", "1")]);
    let e = cartridge::expand_str("${}", &sc).unwrap_err();
    assert!(matches!(e, Error::UndefinedVariable(n) if n.is_empty()));
}

#[test]
fn unterminated_reference_consumes_the_tail() {
    let sc = scope_of(&[("a", "1")]);
    let e = cartridge::expand_str("x${abc", &sc).unwrap_err();
    assert!(matches!(e, Error::UndefinedVariable(n) if n == "abc"));
}

#[test]
fn ten_passes_are_permitted() {
    // v = "$": each pass rebuilds one `${v}` token out of the spliced
    // braces, so `${v}` followed by nine `{v}` needs exactly ten passes.
    let sc = scope_of(&[("v", "$")]);
    let mut input = s("${v}");
    for _ in 0..9 {
        input.push_str("{v}");
    }
    let r = cartridge::expand_str(&input, &sc).unwrap();
    assert_eq!(r, "$");
}

#[test]
fn eleven_passes_fail_as_circular() {
    let sc = scope_of(&[("v", "$")]);
    let mut input = s("${v}");
    for _ in 0..10 {
        input.push_str("{v}");
    }
    let e = cartridge::expand_str(&input, &sc).unwrap_err();
    assert!(matches!(e, Error::CircularVariableReference));
}

#[test]
fn mutually_referential_variables_fail_at_load() {
    // `a` refers to `b` before `b` is bound: resolution sees only what
    // was inserted earlier, so this fails as an undefined reference.
    let cfg = config_one_game(
        &[("a", "${b}"), ("b", "${a}")],
        Game { name: s("G"), enabled: true, saves: vec![] },
    );
    let e = GameBackup::from_parts(cfg, s("root/backup"), None, None).unwrap_err();
    assert!(matches!(e, Error::UndefinedVariable(n) if n == "b"));
}

#[test]
fn reserved_home_is_rejected() {
    let cfg = config_one_game(
        &[("home", "/tmp/x")],
        Game { name: s("G"), enabled: true, saves: vec![] },
    );
    let e = GameBackup::from_parts(cfg, s("root/backup"), Some(s("/home/a")), None).unwrap_err();
    assert!(matches!(e, Error::ReservedVariableName(n) if n == "home"));
}

#[test]
fn reserved_config_is_rejected() {
    let cfg = config_one_game(
        &[("config", "/tmp/x")],
        Game { name: s("G"), enabled: true, saves: vec![] },
    );
    let e = GameBackup::from_parts(cfg, s("root/backup"), None, None).unwrap_err();
    assert!(matches!(e, Error::ReservedVariableName(n) if n == "config"));
}

#[test]
fn posix_home_path_is_anonymized_under_user_home() {
    let home = Some(s("/home/alice"));
    let comps = anonymize("/home/alice/.local/share/GameA", &home);
    assert_eq!(comps, vec![s("user_home"), s(".local"), s("share"), s("GameA")]);
}

#[test]
fn posix_path_outside_home_loses_only_the_root() {
    let home = Some(s("/home/alice"));
    assert_eq!(anonymize("/var/data/saves", &home), vec![s("var"), s("data"), s("saves")]);
}

#[test]
fn relative_posix_path_is_unchanged() {
    let home = Some(s("/home/alice"));
    assert_eq!(anonymize("saves/slot1", &home), vec![s("saves"), s("slot1")]);
}

#[test]
fn dot_entries_are_dropped() {
    assert_eq!(anonymize("/a/./b/../c", &None), vec![s("a"), s("b"), s("c")]);
}

#[test]
fn windows_drive_path_is_anonymized() {
    let comps = anonymize("C:\\Users\\alice\\Saved Games\\GameB\\profile.dat", &None);
    assert_eq!(
        comps,
        vec![
            s("drive_c"),
            s("Users"),
            s("user_home"),
            s("Saved Games"),
            s("GameB"),
            s("profile.dat")
        ]
    );
}

#[test]
fn anonymization_is_stable_on_its_own_output() {
    let home = Some(s("/home/alice"));
    let first = anonymize("/home/alice/.local/share/GameA", &home);
    let rejoined = first.join("/");
    let second = anonymize(&rejoined, &home);
    assert_eq!(second, first);
}

#[test]
fn simple_home_relative_backup_plan() {
    let cfg = config_one_game(
        &[("saves", "${home}/.local/share/GameA")],
        Game {
            name: s("GameA"),
            enabled: true,
            saves: vec![SaveLocation { path: s("${saves}"), files: vec![] }],
        },
    );
    let gb = GameBackup::from_parts(cfg, s("cfgdir/backup"), Some(s("/home/alice")), None)
        .unwrap();
    let plan = gb.plan_game("GameA").unwrap().unwrap();
    assert_eq!(plan.game_dir, "cfgdir/backup/GameA");
    assert_eq!(plan.saves.len(), 1);
    assert_eq!(plan.saves[0].source, "/home/alice/.local/share/GameA");
    assert_eq!(
        plan.saves[0].backup_dir,
        "cfgdir/backup/GameA/user_home/.local/share/GameA"
    );
    assert!(plan.saves[0].patterns.is_empty());
}

#[test]
fn windows_drive_backup_plan() {
    let cfg = config_one_game(
        &[],
        Game {
            name: s("GameB"),
            enabled: true,
            saves: vec![SaveLocation {
                path: s("C:\\Users\\alice\\Saved Games\\GameB\\profile.dat"),
                files: vec![],
            }],
        },
    );
    let gb = GameBackup::from_parts(cfg, s("cfgdir/backup"), None, None).unwrap();
    let plan = gb.plan_game("GameB").unwrap().unwrap();
    assert_eq!(
        plan.saves[0].backup_dir,
        "cfgdir/backup/GameB/drive_c/Users/user_home/Saved Games/GameB/profile.dat"
    );
}

#[test]
fn pattern_mode_keeps_patterns_in_order() {
    let cfg = config_one_game(
        &[],
        Game {
            name: s("G"),
            enabled: true,
            saves: vec![SaveLocation {
                path: s("/home/alice/docs"),
                files: vec![s("*.sav"), s("backup_*.dat")],
            }],
        },
    );
    let gb = GameBackup::from_parts(cfg, s("r/backup"), Some(s("/home/alice")), None).unwrap();
    let plan = gb.plan_game("G").unwrap().unwrap();
    assert_eq!(plan.saves[0].patterns, vec![s("*.sav"), s("backup_*.dat")]);
    assert_eq!(plan.saves[0].backup_dir, "r/backup/G/user_home/docs");
}

#[test]
fn disabled_game_is_inert() {
    let cfg = config_one_game(
        &[],
        Game {
            name: s("GameC"),
            enabled: false,
            saves: vec![SaveLocation { path: s("/x"), files: vec![] }],
        },
    );
    let gb = GameBackup::from_parts(cfg, s("r/backup"), None, None).unwrap();
    assert!(gb.plan_game("GameC").unwrap().is_none());
    assert!(gb.list_games().is_empty());
}

#[test]
fn list_keeps_enabled_games_in_document_order() {
    let cfg = Config {
        variables: vec![],
        games: vec![
            Game { name: s("A"), enabled: true, saves: vec![] },
            Game { name: s("B"), enabled: false, saves: vec![] },
            Game { name: s("C"), enabled: true, saves: vec![] },
        ],
    };
    let gb = GameBackup::from_parts(cfg, s("r/backup"), None, None).unwrap();
    let names: Vec<String> = gb.list_games().iter().map(|g| g.name.clone()).collect();
    assert_eq!(names, vec![s("A"), s("C")]);
}

#[test]
fn unknown_game_is_not_found() {
    let cfg = config_one_game(&[], Game { name: s("G"), enabled: true, saves: vec![] });
    let gb = GameBackup::from_parts(cfg, s("r/backup"), None, None).unwrap();
    let e = gb.plan_game("Missing").unwrap_err();
    assert!(matches!(e, Error::GameNotFound(n) if n == "Missing"));
}

#[test]
fn undefined_variable_in_save_path_fails_the_plan() {
    let cfg = config_one_game(
        &[],
        Game {
            name: s("G"),
            enabled: true,
            saves: vec![SaveLocation { path: s("${nowhere}"), files: vec![] }],
        },
    );
    let gb = GameBackup::from_parts(cfg, s("r/backup"), None, None).unwrap();
    let e = gb.plan_game("G").unwrap_err();
    assert!(matches!(e, Error::UndefinedVariable(n) if n == "nowhere"));
}

fn config_n_games(n: usize) -> Config {
    Config {
        variables: vec![],
        games: (0..n)
            .map(|i| Game { name: format!("G{}", i), enabled: true, saves: vec![] })
            .collect(),
    }
}

#[test]
fn bulk_accounting_on_partial_failure() {
    let gb = GameBackup::from_parts(config_n_games(2), s("r/backup"), None, None).unwrap();
    let e = gb.backup_all_games(&vec![false, true]).unwrap_err();
    assert!(matches!(e, Error::AggregateFailure(1)));
    let ok = gb.backup_all_games(&vec![true, true]).unwrap();
    assert_eq!(ok, BulkSummary { succeeded: 2, failed: 0 });
}

#[test]
fn bulk_accounting_covers_every_enabled_game() {
    let gb = GameBackup::from_parts(config_n_games(3), s("r/backup"), None, None).unwrap();
    let r = gb.restore_all_games(&vec![true, false, false]).unwrap_err();
    assert!(matches!(r, Error::AggregateFailure(2)));
    let gb0 = GameBackup::from_parts(config_n_games(0), s("r/backup"), None, None).unwrap();
    let empty = gb0.restore_all_games(&vec![]).unwrap();
    assert_eq!(empty, BulkSummary { succeeded: 0, failed: 0 });
}

#[test]
fn explicit_config_path_wins_when_present() {
    let r = find_config_file(Some(s("games.toml")), true, vec![]).unwrap();
    assert_eq!(r, "games.toml");
}

#[test]
fn explicit_config_path_must_exist() {
    let e = find_config_file(Some(s("gone.toml")), false, vec![]).unwrap_err();
    assert!(matches!(e, Error::ConfigNotFound(p) if p == "gone.toml"));
}

#[test]
fn no_candidate_config_is_an_error() {
    let e = find_config_file(None, false, vec![]).unwrap_err();
    assert!(matches!(e, Error::NoConfig));
}

#[test]
fn single_candidate_config_is_chosen() {
    let r = find_config_file(None, false, vec![s("only.toml")]).unwrap();
    assert_eq!(r, "only.toml");
}

#[test]
fn two_candidate_configs_are_ambiguous() {
    let e = find_config_file(None, false, vec![s("a.toml"), s("b.toml")]).unwrap_err();
    assert!(matches!(e, Error::AmbiguousConfig(fs) if fs == vec![s("a.toml"), s("b.toml")]));
}

#[test]
fn variables_expand_against_earlier_bindings() {
    let cfg = Config {
        variables: vec![
            Variable { name: s("base"), value: s("${home}/games") },
            Variable { name: s("deep"), value: s("${base}/deep") },
        ],
        games: vec![Game {
            name: s("G"),
            enabled: true,
            saves: vec![SaveLocation { path: s("${deep}"), files: vec![] }],
        }],
    };
    let gb = GameBackup::from_parts(cfg, s("r/backup"), Some(s("/home/bob")), None).unwrap();
    let plan = gb.plan_game("G").unwrap().unwrap();
    assert_eq!(plan.saves[0].source, "/home/bob/games/deep");
}

#[test]
fn missing_home_makes_home_undefined() {
    let cfg = config_one_game(
        &[("p", "${home}/x")],
        Game { name: s("G"), enabled: true, saves: vec![] },
    );
    let e = GameBackup::from_parts(cfg, s("r/backup"), None, None).unwrap_err();
    assert!(matches!(e, Error::UndefinedVariable(n) if n == "home"));
}

#[test]
fn game_backup_dir_joins_root_and_name() {
    let cfg = config_one_game(&[], Game { name: s("G"), enabled: true, saves: vec![] });
    let gb = GameBackup::from_parts(cfg, s("cfg/backup"), None, None).unwrap();
    assert_eq!(gb.game_backup_dir("G"), "cfg/backup/G");
}

#[test]
fn new_asks_the_platform_for_system_directories() {
    // No variable references `home` or `config`, so construction succeeds
    // whatever the platform answers.
    let cfg = Config { variables: vec![], games: vec![] };
    let gb = GameBackup::new(cfg, s("r/backup")).unwrap();
    assert!(gb.list_games().is_empty());
}

#[test]
fn long_variable_chains_resolve_within_the_pass_bound() {
    // Each value is fully expanded before it is bound, so a chain of any
    // depth costs one pass per definition, never tripping the bound.
    let mut vars: Vec<(String, String)> = vec![(s("x0"), s("base"))];
    for i in 1..13 {
        vars.push((format!("x{}", i), format!("${{x{}}}/{}", i - 1, i)));
    }
    let cfg = Config {
        variables: vars
            .into_iter()
            .map(|(name, value)| Variable { name, value })
            .collect(),
        games: vec![Game {
            name: s("G"),
            enabled: true,
            saves: vec![SaveLocation { path: s("${x12}"), files: vec![] }],
        }],
    };
    let gb = GameBackup::from_parts(cfg, s("r/backup"), None, None).unwrap();
    let plan = gb.plan_game("G").unwrap().unwrap();
    assert_eq!(plan.saves[0].source, "base/1/2/3/4/5/6/7/8/9/10/11/12");
}

#[test]
fn second_users_segment_is_also_collapsed() {
    let comps = anonymize("D:/Users/bob/Users/shared/save.dat", &None);
    assert_eq!(
        comps,
        vec![
            s("drive_d"),
            s("Users"),
            s("user_home"),
            s("Users"),
            s("user_home"),
            s("save.dat")
        ]
    );
}

#[test]
fn expand_variables_uses_the_resolved_scope() {
    let cfg = config_one_game(
        &[("saves", "${home}/s")],
        Game { name: s("G"), enabled: true, saves: vec![] },
    );
    let gb = GameBackup::from_parts(cfg, s("r/backup"), Some(s("/home/alice")), None).unwrap();
    assert_eq!(gb.expand_variables("${saves}/slot1.sav").unwrap(), "/home/alice/s/slot1.sav");
}
