use gdam::config::{Addon, Config};
use gdam::error::Error;
use gdam::plugin::parse_plugin_cfg;
use gdam::sync::{
    cache_key_for, ensure_in_godot_project, ignore_entry, install_source, prepare_install,
    uninstall, FoundAddon,
};
use gdam::upgrade::{apply_upgrades, select_for_upgrade, upgrade_step, Revision, UpgradeStep};

fn found(name: &str, version: &str) -> FoundAddon {
    FoundAddon { name: name.to_string(), version: version.to_string() }
}

fn addon(name: &str, version: &str, source: &str, checksum: &str) -> Addon {
    Addon {
        name: name.to_string(),
        version: version.to_string(),
        source: source.to_string(),
        checksum: checksum.to_string(),
    }
}

const SRC: &str = "https://example.com/foo/bar.git";

#[test]
fn install_two_addons_from_one_source() {
    let mut c = Config::new();
    let entries = install_source(&mut c, &SRC.to_string(), &"c1".to_string(), &vec![found("A", "1.0"), found("B", "")]);
    assert_eq!(c.addons.len(), 2);
    assert_eq!(c.addons[0], addon("A", "1.0", SRC, "c1"));
    assert_eq!(c.addons[1], addon("B", "", SRC, "c1"));
    assert_ne!(c.addons[0].name, c.addons[1].name);
    assert_eq!(entries, vec!["addons/A".to_string(), "addons/B".to_string()]);
}

#[test]
fn install_same_source_twice_replaces() {
    let mut c = Config::new();
    c.addons.push(addon("other", "", "https://h/o", "z"));
    let f = vec![found("A", "1.0"), found("B", "2.0")];
    install_source(&mut c, &SRC.to_string(), &"c1".to_string(), &f);
    install_source(&mut c, &SRC.to_string(), &"c2".to_string(), &f);
    assert_eq!(
        c.addons,
        vec![addon("other", "", "https://h/o", "z"), addon("A", "1.0", SRC, "c2"), addon("B", "2.0", SRC, "c2")]
    );
    assert!(c.has_unique_names());
}

#[test]
fn prepare_install_gives_cache_key() {
    assert_eq!(prepare_install(&SRC.to_string()), Ok("bar".to_string()));
    assert_eq!(prepare_install(&"git@example.com:foo/baz".to_string()), Ok("baz".to_string()));
}

#[test]
fn prepare_install_rejects_bad_urls() {
    assert_eq!(prepare_install(&"ftp://x/y".to_string()), Err(Error::InvalidUrl("ftp://x/y".to_string())));
    assert_eq!(
        prepare_install(&"https://example.com/.git".to_string()),
        Err(Error::InvalidUrl("https://example.com/.git".to_string()))
    );
}

#[test]
fn cache_key_of_entry() {
    assert_eq!(cache_key_for(&addon("A", "", SRC, "c")), Ok("bar".to_string()));
    assert_eq!(cache_key_for(&addon("A", "", "", "c")), Err(Error::InvalidUrl(String::new())));
}

#[test]
fn ignore_entry_prefixes_addons_dir() {
    assert_eq!(ignore_entry(&"X".to_string()), "addons/X");
}

#[test]
fn project_marker_required() {
    assert_eq!(ensure_in_godot_project(true), Ok(()));
    assert_eq!(ensure_in_godot_project(false), Err(Error::NotInProject));
}

#[test]
fn uninstall_missing_name_fails_and_changes_nothing() {
    let mut c = Config::new();
    c.addons = vec![addon("A", "1", SRC, "c1")];
    let before = c.clone();
    assert_eq!(uninstall(&mut c, &"Z".to_string()), Err(Error::AddonNotFound("Z".to_string())));
    assert_eq!(c, before);
}

#[test]
fn uninstall_by_name_or_source() {
    let mut c = Config::new();
    c.addons = vec![addon("A", "1", SRC, "c1"), addon("B", "1", SRC, "c1"), addon("C", "1", "https://h/c", "c3")];
    assert_eq!(uninstall(&mut c, &"B".to_string()), Ok("B".to_string()));
    assert_eq!(c.addons, vec![addon("A", "1", SRC, "c1"), addon("C", "1", "https://h/c", "c3")]);
    assert_eq!(uninstall(&mut c, &SRC.to_string()), Ok("A".to_string()));
    assert_eq!(c.addons, vec![addon("C", "1", "https://h/c", "c3")]);
}

#[test]
fn upgrade_steps() {
    let c1 = "c1".to_string();
    let c2 = "c2".to_string();
    assert_eq!(upgrade_step(&c1, &c1, true), UpgradeStep::UpToDate);
    assert_eq!(upgrade_step(&c1, &c1, false), UpgradeStep::UpToDate);
    assert_eq!(upgrade_step(&c1, &c2, false), UpgradeStep::Missing);
    assert_eq!(upgrade_step(&c1, &c2, true), UpgradeStep::Update);
}

#[test]
fn upgrade_pinned_addon_to_new_commit() {
    let mut c = Config::new();
    c.addons = vec![addon("A", "1.0", SRC, "c1"), addon("B", "3", "https://h/b", "b1")];
    let sel = select_for_upgrade(&c, &Some("A".to_string())).unwrap();
    assert_eq!(sel, vec![0]);
    let step = upgrade_step(&c.addons[0].checksum, &"c2".to_string(), true);
    assert_eq!(step, UpgradeStep::Update);
    let info = parse_plugin_cfg("[plugin]\nname=\"A\"\nversion=\"1.1\"\n");
    let staged = vec![Revision {
        name: "A".to_string(),
        checksum: "c2".to_string(),
        version: info.version.unwrap_or_default(),
    }];
    assert!(apply_upgrades(&mut c, &staged));
    assert_eq!(c.addons, vec![addon("A", "1.1", SRC, "c2"), addon("B", "3", "https://h/b", "b1")]);
}

#[test]
fn upgrade_twice_does_nothing_the_second_time() {
    let mut c = Config::new();
    c.addons = vec![addon("A", "1.0", SRC, "c1")];
    let staged = vec![Revision { name: "A".to_string(), checksum: "c2".to_string(), version: "1.1".to_string() }];
    assert!(apply_upgrades(&mut c, &staged));
    let after = c.clone();
    assert_eq!(upgrade_step(&c.addons[0].checksum, &"c2".to_string(), true), UpgradeStep::UpToDate);
    assert!(!apply_upgrades(&mut c, &Vec::new()));
    assert_eq!(c, after);
}

#[test]
fn select_for_upgrade_cases() {
    let mut c = Config::new();
    assert_eq!(select_for_upgrade(&c, &Some("A".to_string())), Ok(vec![]));
    c.addons = vec![addon("A", "", SRC, "1"), addon("B", "", SRC, "1"), addon("C", "", SRC, "1")];
    assert_eq!(select_for_upgrade(&c, &None), Ok(vec![0, 1, 2]));
    assert_eq!(select_for_upgrade(&c, &Some("C".to_string())), Ok(vec![2]));
    assert_eq!(select_for_upgrade(&c, &Some("D".to_string())), Err(Error::AddonNotFound("D".to_string())));
}
