use rust_install::errors::Error;
use rust_install::manifest::{
    clone_components, contains, same_components, Component, Config, Manifest, Package,
    TargettedPackage,
};
use rust_install::manifestation::{
    build_update_component_lists, installer_names, Changes, Manifestation, UpdateStatus,
    CONFIG_FILE, DIST_MANIFEST,
};
use rust_install::components::Metadata;
use rust_install::prefix::{join_path, InstallPrefix};

const TRIPLE: &str = "x86_64-apple-darwin";

fn s(text: &str) -> String {
    text.to_string()
}

fn c(pkg: &str) -> Component {
    Component::new(pkg, TRIPLE)
}

fn target(components: Vec<Component>, extensions: Vec<Component>) -> TargettedPackage {
    TargettedPackage {
        available: true,
        url: s("http://dist/rust.tar.gz"),
        hash: s("00"),
        components,
        extensions,
    }
}

fn manifest(date: &str, rust: TargettedPackage) -> Manifest {
    let leaf = |name: &str| {
        (
            s(name),
            Package {
                version: s("1"),
                targets: vec![(
                    s(TRIPLE),
                    TargettedPackage {
                        available: true,
                        url: format!("http://dist/{}.tar.gz", name),
                        hash: format!("hash of {}", name),
                        components: vec![],
                        extensions: vec![],
                    },
                )],
            },
        )
    };
    Manifest {
        manifest_version: s("2"),
        date: s(date),
        root: s("http://dist"),
        packages: vec![
            (s("rust"), Package { version: s("1"), targets: vec![(s(TRIPLE), rust)] }),
            leaf("rustc"),
            leaf("cargo"),
            leaf("rust-docs"),
            leaf("rust-src"),
        ],
    }
}

fn config(components: Vec<Component>) -> Option<Config> {
    Some(Config { config_version: s("1"), components })
}

fn lists(
    new: &Manifest,
    old: &Option<Manifest>,
    config: &Option<Config>,
    changes: Changes,
    target: &TargettedPackage,
) -> (Vec<Component>, Vec<Component>, Vec<Component>) {
    assert!(changes.is_valid(target, config));
    build_update_component_lists(new, old, config, changes, target).unwrap()
}

#[test]
fn components_are_equal_by_package_and_target() {
    assert_eq!(c("rust"), Component { pkg: s("rust"), target: s(TRIPLE) });
    assert_ne!(c("rust"), c("cargo"));
    assert_ne!(c("rust"), Component::new("rust", "i686-pc-windows-gnu"));
    let list = vec![c("a"), c("b")];
    assert!(contains(&list, &c("b")));
    assert!(!contains(&list, &c("c")));
    assert!(same_components(&list, &clone_components(&list)));
    assert!(!same_components(&list, &vec![c("b"), c("a")]));
    assert!(!same_components(&list, &vec![c("a")]));
}

#[test]
fn manifests_are_equal_field_by_field() {
    let t = target(vec![c("rustc")], vec![c("rust-docs")]);
    let a = manifest("2016-01-01", t.clone());
    assert_eq!(a, a.clone());
    assert_ne!(a, manifest("2016-01-02", t.clone()));
    assert_ne!(a, manifest("2016-01-01", target(vec![c("rustc")], vec![])));
    let mut other = a.clone();
    other.packages[2].1.targets[0].1.hash = s("changed");
    assert_ne!(a, other);
    let mut other = a.clone();
    other.packages.pop();
    assert_ne!(a, other);
    let mut other = a.clone();
    other.packages[1].0 = s("renamed");
    assert_ne!(a, other);
    let mut other = a.clone();
    other.packages[0].1.targets[0].1.available = false;
    assert_ne!(a, other);
}

#[test]
fn packages_and_targets_are_found_by_name() {
    let m = manifest("2016-01-01", target(vec![c("rustc")], vec![]));
    let rust = m.get_package("rust").unwrap();
    assert_eq!(rust.get_target(TRIPLE).unwrap().components, vec![c("rustc")]);
    match m.get_package("nope") {
        Err(Error::PackageNotFound { name }) => assert_eq!(name, "nope"),
        other => panic!("{:?}", other),
    }
    match rust.get_target("nope") {
        Err(Error::TargetNotFound { target }) => assert_eq!(target, "nope"),
        other => panic!("{:?}", other),
    }
    assert_eq!(m.get_package("cargo").unwrap().get_target(TRIPLE).unwrap().hash, "hash of cargo");
}

#[test]
fn no_changes() {
    let none = Changes::none();
    assert!(none.add_extensions.is_empty());
    assert!(none.remove_extensions.is_empty());
}

#[test]
fn valid_changes() {
    let t = target(vec![c("rustc")], vec![c("rust-docs"), c("rust-src")]);
    let installed = config(vec![c("rustc"), c("rust-docs")]);
    let changes = |add: Vec<Component>, remove: Vec<Component>| Changes {
        add_extensions: add,
        remove_extensions: remove,
    };
    assert!(Changes::none().is_valid(&t, &None));
    assert!(changes(vec![c("rust-src")], vec![c("rust-docs")]).is_valid(&t, &installed));
    // An extension that the package does not declare.
    assert!(!changes(vec![c("cargo")], vec![]).is_valid(&t, &installed));
    assert!(!changes(vec![], vec![c("rustc")]).is_valid(&t, &installed));
    // Added and removed at once.
    assert!(!changes(vec![c("rust-docs")], vec![c("rust-docs")]).is_valid(&t, &installed));
    // Removed without being installed.
    assert!(!changes(vec![], vec![c("rust-src")]).is_valid(&t, &installed));
    assert!(!changes(vec![], vec![c("rust-docs")]).is_valid(&t, &None));
}

// No prior manifest or configuration; one required component; no extension
// asked for.
#[test]
fn lists_of_a_fresh_install() {
    let t = target(vec![c("rust")], vec![]);
    let new = manifest("2016-01-01", t.clone());
    let (uninstall, install, finals) = lists(&new, &None, &None, Changes::none(), &t);
    assert_eq!(uninstall, vec![]);
    assert_eq!(install, vec![c("rust")]);
    assert_eq!(finals, vec![c("rust")]);
}

// Installed are a required component and an extension; under the same
// manifest the extension is removed.
#[test]
fn lists_of_an_extension_removal() {
    let t = target(vec![c("rust")], vec![c("rust-docs")]);
    let new = manifest("2016-01-01", t.clone());
    let changes = Changes { add_extensions: vec![], remove_extensions: vec![c("rust-docs")] };
    let (uninstall, install, finals) = lists(
        &new,
        &Some(new.clone()),
        &config(vec![c("rust"), c("rust-docs")]),
        changes,
        &t,
    );
    assert_eq!(uninstall, vec![c("rust-docs")]);
    assert_eq!(install, vec![]);
    assert_eq!(finals, vec![c("rust")]);
}

#[test]
fn lists_of_an_extension_addition() {
    let t = target(vec![c("rustc"), c("cargo")], vec![c("rust-docs"), c("rust-src")]);
    let new = manifest("2016-01-01", t.clone());
    let changes = Changes { add_extensions: vec![c("rust-src")], remove_extensions: vec![] };
    let (uninstall, install, finals) = lists(
        &new,
        &Some(new.clone()),
        &config(vec![c("rustc"), c("cargo"), c("rust-docs")]),
        changes,
        &t,
    );
    assert_eq!(uninstall, vec![]);
    assert_eq!(install, vec![c("rust-src")]);
    assert_eq!(finals, vec![c("rustc"), c("cargo"), c("rust-src"), c("rust-docs")]);
}

#[test]
fn identical_manifest_and_no_changes_is_a_no_op() {
    let t = target(vec![c("rustc"), c("cargo")], vec![c("rust-docs")]);
    let new = manifest("2016-01-01", t.clone());
    for installed in [vec![c("rustc"), c("cargo")], vec![c("cargo"), c("rust-docs"), c("rustc")]] {
        let (uninstall, install, _) =
            lists(&new, &Some(new.clone()), &config(installed), Changes::none(), &t);
        assert_eq!(uninstall, vec![]);
        assert_eq!(install, vec![]);
    }
    // Not so where a required component is missing, or something is installed
    // that the package does not know.
    let (uninstall, install, _) =
        lists(&new, &Some(new.clone()), &config(vec![c("rustc")]), Changes::none(), &t);
    assert_eq!((uninstall, install), (vec![], vec![c("cargo")]));
    let (uninstall, install, _) = lists(
        &new,
        &Some(new.clone()),
        &config(vec![c("rustc"), c("cargo"), c("old-thing")]),
        Changes::none(),
        &t,
    );
    assert_eq!((uninstall, install), (vec![c("old-thing")], vec![]));
}

#[test]
fn a_new_manifest_is_a_full_reinstall() {
    let t = target(vec![c("rustc"), c("cargo")], vec![c("rust-docs")]);
    let old = manifest("2016-01-01", t.clone());
    let new = manifest("2016-01-02", t.clone());
    let installed = vec![c("rustc"), c("cargo"), c("rust-docs")];
    let (uninstall, install, finals) =
        lists(&new, &Some(old), &config(installed.clone()), Changes::none(), &t);
    // The same components are wanted as are installed, and still all go and
    // all come.
    assert_eq!(uninstall, installed);
    assert_eq!(install, installed);
    assert_eq!(finals, installed);
    // No installed manifest counts as a different one.
    let (uninstall, install, _) =
        lists(&new, &None, &config(installed.clone()), Changes::none(), &t);
    assert_eq!(uninstall, installed);
    assert_eq!(install, installed);
}

#[test]
fn installed_extensions_are_kept_once() {
    let t = target(vec![c("rustc")], vec![c("rust-docs"), c("rust-src")]);
    let new = manifest("2016-01-02", t.clone());
    let changes = Changes { add_extensions: vec![c("rust-src")], remove_extensions: vec![] };
    // Listed twice in the configuration; `rust-src` is installed and added.
    let installed = vec![c("rust-docs"), c("rustc"), c("rust-docs"), c("rust-src"), c("gone")];
    let (uninstall, install, finals) = lists(&new, &None, &config(installed.clone()), changes, &t);
    assert_eq!(finals, vec![c("rustc"), c("rust-src"), c("rust-docs")]);
    // What is installed goes, each component once.
    assert_eq!(uninstall, vec![c("rust-docs"), c("rustc"), c("rust-src"), c("gone")]);
    assert_eq!(install, finals);
}

// A component that the package both requires and offers as an extension,
// and that is asked for besides, is still one component.
#[test]
fn no_list_holds_a_component_twice() {
    let t = target(vec![c("rust")], vec![c("rust")]);
    let new = manifest("2016-01-02", t.clone());
    let changes = Changes { add_extensions: vec![c("rust")], remove_extensions: vec![] };
    let (uninstall, install, finals) = lists(&new, &None, &None, changes, &t);
    assert_eq!(finals, vec![c("rust")]);
    assert_eq!(install, vec![c("rust")]);
    assert_eq!(uninstall, vec![]);

    // Required twice, asked for twice, installed twice.
    let t = target(
        vec![c("rustc"), c("cargo"), c("rustc")],
        vec![c("rust-docs"), c("rust-src"), c("cargo")],
    );
    let new = manifest("2016-01-02", t.clone());
    let changes = Changes {
        add_extensions: vec![c("rust-src"), c("cargo"), c("rust-src")],
        remove_extensions: vec![],
    };
    let installed = config(vec![c("rust-docs"), c("rust-docs"), c("rustc")]);
    let (uninstall, install, finals) = lists(&new, &Some(new.clone()), &installed, changes, &t);
    assert_eq!(finals, vec![c("rustc"), c("cargo"), c("rust-src"), c("rust-docs")]);
    assert_eq!(install, vec![c("cargo"), c("rust-src")]);
    assert_eq!(uninstall, vec![]);
    let changes = Changes { add_extensions: vec![c("cargo")], remove_extensions: vec![] };
    let (uninstall, install, finals) = lists(&new, &None, &installed, changes, &t);
    assert_eq!(finals, vec![c("rustc"), c("cargo"), c("rust-docs")]);
    assert_eq!(install, finals);
    assert_eq!(uninstall, vec![c("rust-docs"), c("rustc")]);

    // So an update fetches each payload once.
    let t = target(vec![c("rustc")], vec![c("rustc")]);
    let changes = Changes { add_extensions: vec![c("rustc")], remove_extensions: vec![] };
    let update =
        open(TRIPLE).update(&manifest("2016-01-02", t), changes, &None, &None).unwrap();
    assert_eq!(update.final_list, vec![c("rustc")]);
    assert_eq!(update.downloads.len(), 1);
}

#[test]
fn an_unchanged_update_has_no_steps() {
    let t = target(vec![c("rustc")], vec![]);
    let new = manifest("2016-01-02", t);
    let metadata = Metadata {
        version: Some(s("3")),
        components: Some(s("rustc\n")),
        manifests: vec![(s("rustc"), s("file:bin/rustc\n"))],
    };
    let mut manifestation =
        Manifestation::open(InstallPrefix::from(s("/prefix")), TRIPLE, &metadata).unwrap();
    let update = manifestation
        .update(&new, Changes::none(), &Some(new.clone()), &config(vec![c("rustc")]))
        .unwrap();
    assert_eq!(update.status, UpdateStatus::Unchanged);
    let plan = manifestation.plan(&update, &vec![], s("manifest"), s("config")).unwrap();
    assert!(plan.steps.is_empty());
    assert!(plan.notes.is_empty());
    assert!(manifestation.installation().find("rustc").is_some());
    assert_eq!(manifestation.installation().list().len(), 1);
}

fn open(triple: &str) -> Manifestation {
    let metadata = Metadata { version: None, components: None, manifests: vec![] };
    Manifestation::open(InstallPrefix::from(s("/prefix")), triple, &metadata).unwrap()
}

#[test]
fn update_resolves_the_payloads() {
    let t = target(vec![c("rustc"), c("cargo")], vec![c("rust-docs")]);
    let new = manifest("2016-01-02", t);
    let changes = Changes { add_extensions: vec![c("rust-docs")], remove_extensions: vec![] };
    let update = open(TRIPLE).update(&new, changes, &None, &None).unwrap();
    assert_eq!(update.status, UpdateStatus::Changed);
    assert_eq!(update.to_uninstall, vec![]);
    assert_eq!(update.final_list, vec![c("rustc"), c("cargo"), c("rust-docs")]);
    let shown: Vec<(String, String, String)> = update
        .downloads
        .iter()
        .map(|d| (d.component.pkg.clone(), d.url.clone(), d.hash.clone()))
        .collect();
    assert_eq!(
        shown,
        vec![
            (s("rustc"), s("http://dist/rustc.tar.gz"), s("hash of rustc")),
            (s("cargo"), s("http://dist/cargo.tar.gz"), s("hash of cargo")),
            (s("rust-docs"), s("http://dist/rust-docs.tar.gz"), s("hash of rust-docs")),
        ]
    );
    assert_eq!(update.config().components, update.final_list);
}

#[test]
fn update_fails_without_the_package_or_the_target() {
    let t = target(vec![c("rustc")], vec![]);
    let new = manifest("2016-01-02", t);
    match open("i686-pc-windows-gnu").update(&new, Changes::none(), &None, &None) {
        Err(Error::TargetNotFound { target }) => assert_eq!(target, "i686-pc-windows-gnu"),
        other => panic!("{:?}", other),
    }
    let mut without = new.clone();
    without.packages.remove(0);
    match open(TRIPLE).update(&without, Changes::none(), &None, &None) {
        Err(Error::PackageNotFound { name }) => assert_eq!(name, "rust"),
        other => panic!("{:?}", other),
    }
    // A component whose package the manifest lacks.
    let t = target(vec![c("rustc"), c("missing"), c("also-missing")], vec![]);
    match open(TRIPLE).update(&manifest("2016-01-02", t), Changes::none(), &None, &None) {
        Err(Error::PackageNotFound { name }) => assert_eq!(name, "missing"),
        other => panic!("{:?}", other),
    }
    // A component for a target that its package lacks.
    let t = target(vec![Component::new("rustc", "other-target")], vec![]);
    match open(TRIPLE).update(&manifest("2016-01-02", t), Changes::none(), &None, &None) {
        Err(Error::TargetNotFound { target }) => assert_eq!(target, "other-target"),
        other => panic!("{:?}", other),
    }
}

#[test]
fn update_with_nothing_to_do_is_unchanged() {
    let t = target(vec![c("rustc")], vec![]);
    let new = manifest("2016-01-02", t);
    let update = open(TRIPLE)
        .update(&new, Changes::none(), &Some(new.clone()), &config(vec![c("rustc")]))
        .unwrap();
    assert_eq!(update.status, UpdateStatus::Unchanged);
    assert!(update.to_uninstall.is_empty());
    assert!(update.downloads.is_empty());
    assert_eq!(update.final_list, vec![c("rustc")]);
    // An empty update opens its transaction on nothing.
    let (tx, notes) = update.begin(&vec![]).unwrap();
    assert!(notes.is_empty());
    assert!(tx.commit().is_empty());
}

#[test]
fn names_under_which_a_component_is_installed() {
    let (long, short) = installer_names(&c("rust-docs"));
    assert_eq!(long, "rust-docs-x86_64-apple-darwin");
    assert_eq!(short, "rust-docs");
}

#[test]
fn metadata_files() {
    assert_eq!(DIST_MANIFEST, "multirust-dist.toml");
    assert_eq!(CONFIG_FILE, "multirust-config.toml");
    let prefix = InstallPrefix::from(s("/opt/rust"));
    assert_eq!(prefix.path(), "/opt/rust");
    assert_eq!(prefix.rel_manifest_file(CONFIG_FILE), "lib/rustlib/multirust-config.toml");
    assert_eq!(prefix.manifest_file(DIST_MANIFEST), "/opt/rust/lib/rustlib/multirust-dist.toml");
    assert_eq!(prefix.abs_path("bin/rustc"), "/opt/rust/bin/rustc");
    assert_eq!(join_path("a", "b/c"), "a/b/c");
    assert_eq!(Config::new().config_version, "1");
    assert!(Config::new().components.is_empty());
}

#[test]
fn packages_are_filed_by_name() {
    let mut m = Manifest::new(s("2"), s("2016-01-01"), s("http://dist"));
    assert!(m.packages.is_empty());
    let mut rust = Package::new(s("1.0"));
    rust.insert_target(s("a"), target(vec![c("one")], vec![]));
    rust.insert_target(s("b"), target(vec![c("two")], vec![]));
    // A target that is filed again takes the place of the one before.
    rust.insert_target(s("a"), target(vec![c("three")], vec![]));
    let names: Vec<&str> = rust.targets.iter().map(|(name, _)| name.as_str()).collect();
    assert_eq!(names, vec!["a", "b"]);
    assert_eq!(rust.get_target("a").unwrap().components, vec![c("three")]);
    assert_eq!(rust.get_target("b").unwrap().components, vec![c("two")]);
    m.insert_package(s("rust"), rust.clone());
    m.insert_package(s("cargo"), Package::new(s("0.9")));
    m.insert_package(s("rust"), Package::new(s("1.1")));
    let names: Vec<&str> = m.packages.iter().map(|(name, _)| name.as_str()).collect();
    assert_eq!(names, vec!["rust", "cargo"]);
    assert_eq!(m.get_package("rust").unwrap().version, "1.1");
    assert_eq!(m.get_package("cargo").unwrap().version, "0.9");
    assert_eq!((m.manifest_version.as_str(), m.date.as_str(), m.root.as_str()), ("2", "2016-01-01", "http://dist"));
}

#[test]
fn a_download_is_checked_against_its_hash() {
    let t = target(vec![c("rustc")], vec![]);
    let mut new = manifest("2016-01-02", t);
    new.packages[1].1.targets[0].1.hash = s("00ff10");
    let update = open(TRIPLE).update(&new, Changes::none(), &None, &None).unwrap();
    let download = &update.downloads[0];
    match download.check(&[0x00, 0xff, 0x10]) {
        Ok(rust_install::notify::Notification::ChecksumValid { url }) => {
            assert_eq!(url, "http://dist/rustc.tar.gz")
        }
        other => panic!("{:?}", other),
    }
    match download.check(&[0x00, 0xff, 0x11]) {
        Err(Error::ChecksumFailed { url, expected, calculated }) => {
            assert_eq!(url, "http://dist/rustc.tar.gz");
            assert_eq!(expected, "00ff10");
            assert_eq!(calculated, "00ff11");
        }
        other => panic!("{:?}", other),
    }
}

#[test]
fn the_order_of_packages_and_targets_does_not_count() {
    let t = target(vec![c("rustc")], vec![c("rust-docs")]);
    let a = manifest("2016-01-01", t.clone());
    let mut b = a.clone();
    b.packages.reverse();
    assert_eq!(a, b);
    assert_eq!(b, a);
    let mut one = Package::new(s("1"));
    one.insert_target(s("x"), t.clone());
    one.insert_target(s("y"), target(vec![], vec![]));
    let mut other = Package::new(s("1"));
    other.insert_target(s("y"), target(vec![], vec![]));
    other.insert_target(s("x"), t.clone());
    assert_eq!(one, other);
    other.insert_target(s("z"), t.clone());
    assert_ne!(one, other);
    assert_ne!(other, one);
    // Of two entries of one name the first counts.
    let mut twice = one.clone();
    twice.targets.push((s("x"), target(vec![], vec![])));
    assert_eq!(one, twice);
    assert_eq!(twice, one);
    let mut shadowed = one.clone();
    shadowed.targets.insert(0, (s("x"), target(vec![], vec![])));
    assert_ne!(one, shadowed);
    // The order of the components of a target does count.
    let two = target(vec![c("a"), c("b")], vec![]);
    let swapped = target(vec![c("b"), c("a")], vec![]);
    assert_ne!(two, swapped);
    // An update under the same manifest, listed in another order, changes
    // nothing.
    let update = open(TRIPLE)
        .update(&b, Changes::none(), &Some(a.clone()), &config(vec![c("rustc")]))
        .unwrap();
    assert_eq!(update.status, UpdateStatus::Unchanged);
}

#[test]
fn an_installation_with_unknown_metadata_is_not_opened() {
    let metadata = Metadata { version: Some(s("100\n")), components: None, manifests: vec![] };
    match Manifestation::open(InstallPrefix::from(s("/prefix")), TRIPLE, &metadata) {
        Err(Error::BadInstalledMetadataVersion { version }) => assert_eq!(version, "100"),
        other => panic!("{:?}", other),
    }
    let metadata = Metadata {
        version: Some(s("3")),
        components: Some(s("rustc\ncargo\n")),
        manifests: vec![(s("rustc"), s("file:bin/rustc\n"))],
    };
    let opened = Manifestation::open(InstallPrefix::from(s("/prefix")), TRIPLE, &metadata).unwrap();
    let names: Vec<String> =
        opened.installation().list().iter().map(|c| c.name().clone()).collect();
    assert_eq!(names, vec!["rustc", "cargo"]);
    assert_eq!(opened.installation().find("rustc").unwrap().parts().unwrap().len(), 1);
    assert!(opened.installation().find("cargo").unwrap().parts().is_err());
    assert!(opened.installation().find("rust").is_none());
}
