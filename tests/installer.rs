use std::collections::HashSet;

use mod_installer::extract::{plan_entry, InstallRecord};
use mod_installer::path::FsPath;
use mod_installer::release::{
    fetch_latest_release_zip, find_asset, get_install_path, install_mod, release_url,
    select_platform, text_contains, text_ends_with, Asset, InstallError, Mod, Platform,
};
use mod_installer::rollback::clean_install;

const STEAM_DIR: &str = "C:/Program Files (x86)/Steam/steamapps/common/Among Us";
const EPIC_DIR: &str = "C:/Program Files/Epic Games/AmongUs";

fn texts(v: &Vec<FsPath>) -> Vec<String> {
    v.iter().map(|p| p.to_text()).collect()
}

fn asset(name: &str, url: &str) -> Asset {
    Asset { name: name.to_string(), browser_download_url: url.to_string() }
}

/// A filesystem held as the set of its path texts.
struct Disk {
    entries: HashSet<String>,
}

impl Disk {
    fn with(paths: &[&str]) -> Disk {
        Disk { entries: paths.iter().map(|s| s.to_string()).collect() }
    }

    fn has(&self, p: &FsPath) -> bool {
        self.entries.contains(&p.to_text())
    }

    fn extract(&mut self, root: &FsPath, entries: &[(&str, bool)]) -> InstallRecord {
        let mut record = InstallRecord::new();
        for (name, is_dir) in entries {
            let plan = plan_entry(root, name, *is_dir);
            let existed: Vec<bool> = plan.dirs.iter().map(|d| self.has(d)).collect();
            for d in &plan.dirs {
                self.entries.insert(d.to_text());
            }
            if let Some(f) = &plan.file {
                self.entries.insert(f.to_text());
            }
            record.note_entry(&plan, &existed);
        }
        record
    }

    fn clean(&mut self, record: &InstallRecord, root: &FsPath) {
        let plan = clean_install(record, root);
        for f in &plan.files {
            self.entries.remove(&f.to_text());
        }
        for d in &plan.dirs {
            let t = d.to_text();
            let prefix = format!("{}/", t);
            if !self.entries.iter().any(|e| e.starts_with(&prefix)) {
                self.entries.remove(&t);
            }
        }
    }

    fn sorted(&self) -> Vec<String> {
        let mut v: Vec<String> = self.entries.iter().cloned().collect();
        v.sort();
        v
    }
}

#[test]
fn parse_and_print_paths() {
    let p = FsPath::parse("/tmp/R");
    assert_eq!(p.parts, vec!["".to_string(), "tmp".to_string(), "R".to_string()]);
    assert_eq!(p.to_text(), "/tmp/R");
    let q = FsPath::parse("C:/Games//Among Us/");
    assert_eq!(q.parts.len(), 3);
    assert_eq!(q.to_text(), "C:/Games/Among Us");
    assert_eq!(FsPath::parse("").parts.len(), 0);
}

#[test]
fn join_splits_entry_names() {
    let root = FsPath::parse("/tmp/R");
    assert_eq!(root.join("a/c/").to_text(), "/tmp/R/a/c");
    assert_eq!(root.join("a/b.txt").depth(), 5);
}

#[test]
fn strictly_under_compares_components() {
    let root = FsPath::parse("/a/b");
    assert!(FsPath::parse("/a/b/c").is_strictly_under(&root));
    assert!(!FsPath::parse("/a/bc").is_strictly_under(&root));
    assert!(!FsPath::parse("/a/b").is_strictly_under(&root));
    assert!(!FsPath::parse("/x/b/c").is_strictly_under(&root));
}

#[test]
fn steam_default_ignores_custom_path() {
    let r = get_install_path(true, false, false, "D:/Elsewhere");
    assert_eq!(r, Ok(STEAM_DIR.to_string()));
}

#[test]
fn epic_default_ignores_custom_path() {
    let r = get_install_path(false, true, false, "D:/Elsewhere");
    assert_eq!(r, Ok(EPIC_DIR.to_string()));
}

#[test]
fn custom_path_with_launcher() {
    assert_eq!(get_install_path(true, false, true, "D:/Games"), Ok("D:/Games".to_string()));
    assert_eq!(get_install_path(false, true, true, "E:/AU"), Ok("E:/AU".to_string()));
}

#[test]
fn no_launcher_uses_custom_path_verbatim() {
    let r = get_install_path(false, false, false, "Select a directory...");
    assert_eq!(r, Ok("Select a directory...".to_string()));
}

#[test]
fn platform_choice() {
    assert_eq!(select_platform(true, true), Ok(Platform::Steam));
    assert_eq!(select_platform(false, true), Ok(Platform::Epic));
    assert_eq!(select_platform(false, false), Err(InstallError::NoPlatformSelected));
    assert_eq!(Platform::Epic.keyword(), "epic");
}

#[test]
fn text_search() {
    assert!(text_ends_with("mod.zip", ".zip"));
    assert!(!text_ends_with("mod.zip.sig", ".zip"));
    assert!(text_contains("tdr-steam-x64", "steam"));
    assert!(!text_contains("tdr-epic", "steam"));
    assert!(text_contains("abc", ""));
}

#[test]
fn release_address() {
    assert_eq!(
        release_url("Gurge44/EndlessHostRoles"),
        "https://api.github.com/repos/Gurge44/EndlessHostRoles/releases/latest"
    );
}

#[test]
fn asset_match_is_case_insensitive() {
    let assets = vec![
        asset("TDR-Steam.zip.sha256", "u0"),
        asset("TDR-Epic.zip", "u1"),
        asset("TDR-STEAM.zip", "u2"),
        asset("tdr-steam.zip", "u3"),
    ];
    assert_eq!(find_asset(&assets, Platform::Steam), Ok("u2".to_string()));
    assert_eq!(find_asset(&assets, Platform::Epic), Ok("u1".to_string()));
}

#[test]
fn asset_missing() {
    let assets = vec![asset("TDR-Steam.tar.gz", "u0")];
    assert_eq!(find_asset(&assets, Platform::Steam), Err(InstallError::AssetNotFound));
    assert_eq!(fetch_latest_release_zip(&assets, false, false), Err(InstallError::NoPlatformSelected));
}

#[test]
fn install_target_for_placement() {
    let assets = vec![asset("Mod_epic.zip", "e"), asset("Mod_steam.zip", "s")];
    let t = install_mod(&assets, true, false, false, "ignored").unwrap();
    assert_eq!(t.url, "s");
    assert_eq!(t.root.to_text(), STEAM_DIR);
    let t = install_mod(&assets, false, true, true, "/games/au").unwrap();
    assert_eq!(t.url, "e");
    assert_eq!(t.root.to_text(), "/games/au");
    assert!(matches!(install_mod(&assets, false, false, false, "/x"), Err(InstallError::NoPlatformSelected)));
    let none: Vec<Asset> = Vec::new();
    assert!(matches!(install_mod(&none, true, false, false, "/x"), Err(InstallError::AssetNotFound)));
}

#[test]
fn plan_of_file_entry() {
    let root = FsPath::parse("/R");
    let plan = plan_entry(&root, "a/b/c.txt", false);
    assert_eq!(texts(&plan.dirs), vec!["/R", "/R/a", "/R/a/b"]);
    assert_eq!(plan.file.unwrap().to_text(), "/R/a/b/c.txt");
    let plan = plan_entry(&root, "a/c/", true);
    assert_eq!(texts(&plan.dirs), vec!["/R", "/R/a", "/R/a/c"]);
    assert!(plan.file.is_none());
}

#[test]
fn scenario_extract_then_rollback() {
    let root = FsPath::parse("/R");
    let mut disk = Disk::with(&["/R"]);
    let record = disk.extract(&root, &[("a/b.txt", false), ("a/c/", true)]);
    assert_eq!(texts(&record.installed_files), vec!["/R/a/b.txt"]);
    let mut dirs = texts(&record.created_dirs);
    dirs.sort();
    assert_eq!(dirs, vec!["/R/a", "/R/a/c"]);
    disk.clean(&record, &root);
    assert_eq!(disk.sorted(), vec!["/R"]);
}

#[test]
fn pre_existing_directories_are_not_recorded() {
    let root = FsPath::parse("/R");
    let mut disk = Disk::with(&["/R", "/R/BepInEx", "/R/BepInEx/config.cfg"]);
    let record = disk.extract(&root, &[("BepInEx/plugins/mod.dll", false)]);
    assert_eq!(texts(&record.created_dirs), vec!["/R/BepInEx/plugins"]);
    disk.clean(&record, &root);
    assert_eq!(disk.sorted(), vec!["/R", "/R/BepInEx", "/R/BepInEx/config.cfg"]);
}

#[test]
fn rollback_twice_changes_nothing_more() {
    let root = FsPath::parse("/R");
    let mut disk = Disk::with(&["/R", "/R/a", "/R/a/user.txt"]);
    let record = disk.extract(&root, &[("a/x/y.txt", false), ("a/z.txt", false)]);
    disk.clean(&record, &root);
    let once = disk.sorted();
    assert_eq!(once, vec!["/R", "/R/a", "/R/a/user.txt"]);
    disk.clean(&record, &root);
    assert_eq!(disk.sorted(), once);
}

#[test]
fn rollback_keeps_paths_outside_root() {
    let root = FsPath::parse("/R");
    let record = InstallRecord {
        installed_files: vec![FsPath::parse("/R/a.txt"), FsPath::parse("/etc/passwd"), FsPath::parse("/Rx/b")],
        created_dirs: vec![FsPath::parse("/other"), FsPath::parse("/R/d"), FsPath::parse("/")],
    };
    let plan = clean_install(&record, &root);
    assert_eq!(texts(&plan.files), vec!["/R/a.txt"]);
    assert_eq!(texts(&plan.dirs), vec!["/R/d"]);
}

#[test]
fn rollback_never_prunes_root() {
    let root = FsPath::parse("/R");
    let mut disk = Disk::with(&[]);
    let record = disk.extract(&root, &[("a/", true)]);
    assert_eq!(texts(&record.created_dirs), vec!["/R", "/R/a"]);
    let plan = clean_install(&record, &root);
    assert_eq!(texts(&plan.dirs), vec!["/R/a"]);
    disk.clean(&record, &root);
    assert_eq!(disk.sorted(), vec!["/R"]);
}

#[test]
fn prune_order_is_deepest_first() {
    let root = FsPath::parse("/R");
    let record = InstallRecord {
        installed_files: vec![],
        created_dirs: vec![FsPath::parse("/R/a"), FsPath::parse("/R/a/b/c"), FsPath::parse("/R/d"), FsPath::parse("/R/a/b")],
    };
    let plan = clean_install(&record, &root);
    assert_eq!(texts(&plan.dirs), vec!["/R/a/b/c", "/R/a/b", "/R/a", "/R/d"]);
}

#[test]
fn overwritten_file_is_recorded_once() {
    let root = FsPath::parse("/R");
    let mut disk = Disk::with(&["/R", "/R/a.txt"]);
    let record = disk.extract(&root, &[("a.txt", false), ("a.txt", false)]);
    assert_eq!(texts(&record.installed_files), vec!["/R/a.txt"]);
    assert!(record.created_dirs.is_empty());
}

#[test]
fn mod_repositories() {
    assert_eq!(Mod::dark_roles.github_repo(), "Project-Echo-Development/The-Dark-Roles");
    assert_eq!(Mod::toh_enhanced.github_repo(), "EnhancedNetwork/TownofHost-Enhanced");
}
