use themewalker::config::{
    apply_theme_to_content, has_conf_extension, has_theme_section, parse_current_theme,
    resolve_config_path, Fragment, SddmConfig, NEW_FRAGMENT, SDDM_CONF, SDDM_CONF_D,
};

// --- parse_current_theme ---

#[test]
fn parses_theme_in_section() {
    let cfg = "[General]\nFoo=bar\n\n[Theme]\nCurrent=breeze\n";
    assert_eq!(parse_current_theme(cfg).as_deref(), Some("breeze"));
}

#[test]
fn parses_theme_first_section() {
    let cfg = "[Theme]\nCurrent=maya\n\n[Users]\nMinimumUid=1000\n";
    assert_eq!(parse_current_theme(cfg).as_deref(), Some("maya"));
}

#[test]
fn returns_none_when_no_theme_section() {
    let cfg = "[General]\nFoo=bar\n";
    assert!(parse_current_theme(cfg).is_none());
}

#[test]
fn returns_none_when_current_missing() {
    let cfg = "[Theme]\nFontSize=12\n";
    assert!(parse_current_theme(cfg).is_none());
}

#[test]
fn ignores_current_outside_theme_section() {
    let cfg = "[General]\nCurrent=breeze\n[Theme]\n";
    assert!(parse_current_theme(cfg).is_none());
}

// --- apply_theme_to_content ---

#[test]
fn replaces_existing_current() {
    let cfg = "[Theme]\nCurrent=old\n";
    let out = apply_theme_to_content(cfg, "new");
    assert!(out.contains("Current=new"));
    assert!(!out.contains("Current=old"));
}

#[test]
fn inserts_current_into_existing_theme_section() {
    let cfg = "[Theme]\nFontSize=12\n\n[General]\nFoo=bar\n";
    let out = apply_theme_to_content(cfg, "breeze");
    assert!(out.contains("Current=breeze"));
    // Key must appear before [General]
    let pos_key = out.find("Current=breeze").unwrap();
    let pos_general = out.find("[General]").unwrap();
    assert!(pos_key < pos_general);
}

#[test]
fn appends_theme_section_when_absent() {
    let cfg = "[General]\nHaltCommand=/usr/bin/systemctl poweroff\n";
    let out = apply_theme_to_content(cfg, "sugar-candy");
    assert!(out.contains("[Theme]"));
    assert!(out.contains("Current=sugar-candy"));
}

#[test]
fn handles_empty_content() {
    let out = apply_theme_to_content("", "aerial");
    assert!(out.contains("[Theme]"));
    assert!(out.contains("Current=aerial"));
}

#[test]
fn roundtrip_preserves_other_sections() {
    let cfg = "[General]\nNumlock=on\n\n[Theme]\nCurrent=breeze\n\n[Users]\nMinimumUid=1000\n";
    let out = apply_theme_to_content(cfg, "maya");
    assert!(out.contains("Numlock=on"));
    assert!(out.contains("MinimumUid=1000"));
    assert!(out.contains("Current=maya"));
    assert!(!out.contains("Current=breeze"));
}

// --- exact results ---

#[test]
fn patch_replaces_in_place() {
    let cfg = "# head\n[General]\nNumlock=on\n\n[Theme]\n# c\n  Current = x\nCurrent=breeze\nFont=1\n\n[Users]\nCurrent=u\n";
    assert_eq!(
        apply_theme_to_content(cfg, "maya"),
        "# head\n[General]\nNumlock=on\n\n[Theme]\n# c\n  Current = x\nCurrent=maya\nFont=1\n\n[Users]\nCurrent=u\n"
    );
}

#[test]
fn patch_replaces_an_indented_key_line() {
    assert_eq!(apply_theme_to_content("[Theme]\n\t Current=old  \n", "new"), "[Theme]\nCurrent=new\n");
}

#[test]
fn patch_inserts_before_the_next_header() {
    assert_eq!(
        apply_theme_to_content("[Theme]\nFontSize=12\n\n[General]\nFoo=bar\n", "breeze"),
        "[Theme]\nFontSize=12\n\nCurrent=breeze\n[General]\nFoo=bar\n"
    );
}

#[test]
fn patch_inserts_at_the_end_of_a_last_section() {
    assert_eq!(
        apply_theme_to_content("[General]\nA=1\n[Theme]\nFontSize=12", "breeze"),
        "[General]\nA=1\n[Theme]\nFontSize=12\nCurrent=breeze\n"
    );
    assert_eq!(apply_theme_to_content("[Theme]", "b"), "[Theme]\nCurrent=b\n");
}

#[test]
fn patch_appends_a_section() {
    assert_eq!(
        apply_theme_to_content("[General]\nFoo=bar\n", "sugar-candy"),
        "[General]\nFoo=bar\n\n[Theme]\nCurrent=sugar-candy\n"
    );
    assert_eq!(
        apply_theme_to_content("Current=loose", "x"),
        "Current=loose\n\n[Theme]\nCurrent=x\n"
    );
    assert_eq!(apply_theme_to_content("\n", "x"), "\n\n[Theme]\nCurrent=x\n");
}

#[test]
fn patch_of_an_empty_document_is_minimal() {
    assert_eq!(apply_theme_to_content("", "aerial"), "[Theme]\nCurrent=aerial\n");
}

#[test]
fn patch_touches_the_first_key_only() {
    assert_eq!(
        apply_theme_to_content("[Theme]\nCurrent=a\nCurrent=b\n[X]\n[Theme]\nCurrent=c\n", "n"),
        "[Theme]\nCurrent=n\nCurrent=b\n[X]\n[Theme]\nCurrent=c\n"
    );
    assert_eq!(
        apply_theme_to_content("[Theme]\n[X]\n[Theme]\nCurrent=c\n", "n"),
        "[Theme]\nCurrent=n\n[X]\n[Theme]\nCurrent=c\n"
    );
    assert_eq!(
        apply_theme_to_content("[Theme]\n[Theme]\nCurrent=c\n", "n"),
        "[Theme]\nCurrent=n\n[Theme]\nCurrent=c\n"
    );
}

#[test]
fn patch_is_case_sensitive() {
    assert_eq!(
        apply_theme_to_content("[theme]\ncurrent=a\n", "n"),
        "[theme]\ncurrent=a\n\n[Theme]\nCurrent=n\n"
    );
    assert_eq!(
        apply_theme_to_content("[Theme]\ncurrent=a\n", "n"),
        "[Theme]\ncurrent=a\nCurrent=n\n"
    );
    assert_eq!(
        apply_theme_to_content("[Theme] \n[ Theme ]\nCurrent=z\n", "n"),
        "[Theme] \nCurrent=n\n[ Theme ]\nCurrent=z\n"
    );
}

#[test]
fn patch_ends_lines_with_a_line_feed() {
    assert_eq!(
        apply_theme_to_content("[General]\r\nA=1\r\n[Theme]\r\nCurrent=a\r\n", "n"),
        "[General]\nA=1\n[Theme]\nCurrent=n\n"
    );
    assert_eq!(apply_theme_to_content("a\r", "n"), "a\r\n\n[Theme]\nCurrent=n\n");
}

// --- reading ---

#[test]
fn parse_trims_the_value() {
    assert_eq!(parse_current_theme(" [Theme] \n  Current =x\n Current=  breeze \t\n").as_deref(), Some("breeze"));
    assert_eq!(parse_current_theme("[Theme]\r\nCurrent=maya\r\n").as_deref(), Some("maya"));
    assert_eq!(parse_current_theme("[Theme]\nCurrent=a b\u{a0}\n").as_deref(), Some("a b"));
    assert_eq!(parse_current_theme("[Theme]\nCurrent=x").as_deref(), Some("x"));
}

#[test]
fn parse_takes_the_first_key_line() {
    assert_eq!(parse_current_theme("[Theme]\nCurrent=a\nCurrent=b\n").as_deref(), Some("a"));
    assert_eq!(parse_current_theme("[Theme]\n[X]\nCurrent=x\n[Theme]\nCurrent=b\n").as_deref(), Some("b"));
    assert!(parse_current_theme("[Theme]\nCurrent=\nCurrent=b\n").is_none());
    assert!(parse_current_theme("[Theme]\nCurrent=   \n").is_none());
    assert!(parse_current_theme("").is_none());
}

#[test]
fn theme_section_detection() {
    assert!(has_theme_section("[Theme]\nCurrent=x\n"));
    assert!(has_theme_section("[Theme]\nCurrent=\n"));
    assert!(has_theme_section("[A]\n[Theme]\n#\nCurrent=x"));
    assert!(!has_theme_section("[Theme]\n[A]\nCurrent=x\n"));
    assert!(!has_theme_section("Current=x\n[Theme]\n"));
    assert!(!has_theme_section("[Theme]\nFont=1\n"));
    assert!(!has_theme_section(""));
}

// --- laws on given values ---

const DOCS: [&str; 12] = [
    "",
    "\n",
    "[Theme]",
    "[Theme]\nCurrent=old\n",
    "[Theme]\nFont=1\n[X]\nA=1\n",
    "[General]\nFoo=bar\n",
    "[General]\r\nFoo=bar\r\n[Theme]\r\n",
    "# only a comment",
    "[Theme]\nCurrent=\nCurrent=b\n",
    "[Theme]\n[Theme]\nCurrent=c\n",
    "Current=loose\n[A]\n[Theme]\n  Current = spaced\n",
    "[Theme]\nCurrent=a\r",
];

#[test]
fn reading_after_patching_gives_the_value() {
    for doc in DOCS {
        for v in ["new", "sugar-candy", "a b", "x", "[Theme]", "Current=", "é\u{1F600}"] {
            let out = apply_theme_to_content(doc, v);
            assert_eq!(parse_current_theme(&out).as_deref(), Some(v), "doc {:?}", doc);
            assert!(has_theme_section(&out));
        }
    }
    assert_eq!(parse_current_theme(&apply_theme_to_content("a\r", "v")).as_deref(), Some("v"));
}

#[test]
fn patching_twice_changes_nothing_more() {
    for doc in DOCS {
        for v in ["new", "", " padded ", "a\rb", "tail\r"] {
            let once = apply_theme_to_content(doc, v);
            let twice = apply_theme_to_content(&once, v);
            assert_eq!(twice, once, "doc {:?} value {:?}", doc, v);
            assert_eq!(apply_theme_to_content(&twice, v), once);
        }
    }
}

#[test]
fn patching_keeps_the_other_lines() {
    for doc in DOCS {
        let out = apply_theme_to_content(doc, "v");
        let before: Vec<&str> = doc.lines().collect();
        let after: Vec<&str> = out.lines().collect();
        let kept: Vec<&str> = after.iter().copied().filter(|l| *l != "Current=v").collect();
        assert_eq!(after.len() - kept.len(), 1);
        if after.len() == before.len() {
            let differing = (0..before.len()).filter(|i| before[*i] != after[*i]).count();
            assert!(differing <= 1);
        } else if after.len() == before.len() + 1 {
            assert_eq!(kept, before);
        } else if before.is_empty() {
            assert_eq!(after, vec!["[Theme]", "Current=v"]);
        } else {
            assert_eq!(after.len(), before.len() + 3);
            assert_eq!(&after[..before.len()], &before[..]);
            assert_eq!(&after[before.len()..], &["", "[Theme]", "Current=v"]);
        }
    }
}

// --- the loaded configuration ---

#[test]
fn empty_config() {
    let config = SddmConfig::empty();
    assert_eq!(config.path, "/etc/sddm.conf");
    assert_eq!(config.path, SDDM_CONF);
    assert!(config.current_theme.is_none());
    assert_eq!(config.raw_content, "");
    let request = config.write_theme("aerial");
    assert_eq!(request.path, "/etc/sddm.conf");
    assert_eq!(request.content, "[Theme]\nCurrent=aerial\n");
}

#[test]
fn loaded_config() {
    let text = "[General]\nA=1\n[Theme]\nCurrent=breeze\n";
    let config = SddmConfig::load("/etc/sddm.conf.d/kde.conf".to_string(), Some(text.to_string()));
    assert_eq!(config.path, "/etc/sddm.conf.d/kde.conf");
    assert_eq!(config.current_theme.as_deref(), Some("breeze"));
    assert_eq!(config.raw_content, text);
    let request = config.write_theme("maya");
    assert_eq!(request.path, "/etc/sddm.conf.d/kde.conf");
    assert_eq!(request.content, "[General]\nA=1\n[Theme]\nCurrent=maya\n");
    assert_eq!(config.raw_content, text);
    let missing = SddmConfig::load("/etc/sddm.conf".to_string(), None);
    assert!(missing.current_theme.is_none());
    assert_eq!(missing.raw_content, "");
}

// --- choosing the file ---

fn fragment(name: &str, content: Option<&str>) -> Fragment {
    Fragment { name: name.to_string(), content: content.map(|c| c.to_string()) }
}

const WITH_KEY: &str = "[Theme]\nCurrent=x\n";
const WITHOUT_KEY: &str = "[Theme]\nFont=1\n";

#[test]
fn resolve_prefers_the_single_file() {
    let fragments = vec![fragment("a.conf", Some(WITH_KEY))];
    assert_eq!(
        resolve_config_path(SDDM_CONF, Some(WITH_KEY), SDDM_CONF_D, Some(&fragments)),
        "/etc/sddm.conf"
    );
}

#[test]
fn resolve_takes_the_first_matching_fragment() {
    let fragments = vec![
        fragment("z.conf", Some(WITH_KEY)),
        fragment("b.conf", Some(WITH_KEY)),
        fragment("a.conf", Some(WITHOUT_KEY)),
        fragment("0.conf", None),
        fragment("a.txt", Some(WITH_KEY)),
        fragment(".conf", Some(WITH_KEY)),
        fragment("c.conf", Some(WITH_KEY)),
    ];
    assert_eq!(
        resolve_config_path(SDDM_CONF, Some(WITHOUT_KEY), SDDM_CONF_D, Some(&fragments)),
        "/etc/sddm.conf.d/b.conf"
    );
    assert_eq!(
        resolve_config_path(SDDM_CONF, None, "/d", Some(&fragments)),
        "/d/b.conf"
    );
}

#[test]
fn resolve_creates_a_fragment_when_none_matches() {
    let fragments = vec![fragment("a.conf", Some(WITHOUT_KEY)), fragment("b.conf", None)];
    assert_eq!(
        resolve_config_path(SDDM_CONF, Some(""), SDDM_CONF_D, Some(&fragments)),
        "/etc/sddm.conf.d/theme.conf"
    );
    assert_eq!(
        resolve_config_path(SDDM_CONF, None, SDDM_CONF_D, Some(&Vec::new())),
        "/etc/sddm.conf.d/theme.conf"
    );
    assert_eq!(NEW_FRAGMENT, "theme.conf");
}

#[test]
fn resolve_falls_back_to_the_single_file() {
    assert_eq!(resolve_config_path(SDDM_CONF, None, SDDM_CONF_D, None), "/etc/sddm.conf");
    assert_eq!(resolve_config_path("/x/y.conf", Some(WITHOUT_KEY), "/d", None), "/x/y.conf");
}

#[test]
fn conf_extension() {
    assert!(has_conf_extension("a.conf"));
    assert!(has_conf_extension("10-theme.conf"));
    assert!(has_conf_extension("..conf"));
    assert!(has_conf_extension("é.conf"));
    assert!(!has_conf_extension(".conf"));
    assert!(!has_conf_extension("conf"));
    assert!(!has_conf_extension("a.conf.bak"));
    assert!(!has_conf_extension("a.CONF"));
    assert!(!has_conf_extension(""));
    for name in ["a.conf", ".conf", "..conf", "a.b.conf", "conf", "a.confx", "a."] {
        let std_says = std::path::Path::new(name).extension().map_or(false, |x| x == "conf");
        assert_eq!(has_conf_extension(name), std_says, "name {:?}", name);
    }
}
