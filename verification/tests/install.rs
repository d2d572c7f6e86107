use rust_install::checksum::payload_digest;
use rust_install::components::{ComponentPart, Components, Metadata};
use rust_install::errors::Error;
use rust_install::manifest::{Component, Config, Manifest, Package, TargettedPackage};
use rust_install::manifestation::{Changes, Manifestation, UpdateStatus};
use rust_install::notify::Notification;
use rust_install::package::{file_mode, DirectoryPackage, PackageImage, DIRECTORY_MODE};
use rust_install::prefix::InstallPrefix;
use rust_install::text::lines;
use rust_install::transaction::{ChangedItem, Effect, PathState, Step, Transaction};
use std::collections::{BTreeMap, BTreeSet};

/// What a backup holds.
#[derive(Clone, Debug, PartialEq)]
enum Saved {
    File(String),
    Dir(BTreeMap<String, String>, BTreeSet<String>),
}

/// A directory tree in memory, which stands for the prefix on disk.
#[derive(Clone, Debug, PartialEq, Default)]
struct Disk {
    files: BTreeMap<String, String>,
    dirs: BTreeSet<String>,
    backups: BTreeMap<usize, Saved>,
}

impl Disk {
    fn new() -> Disk {
        Disk::default()
    }

    fn seen(&self, path: &str) -> PathState {
        let inside = format!("{}/", path);
        if self.files.contains_key(path) {
            PathState::File
        } else if self.dirs.contains(path) || self.files.keys().any(|k| k.starts_with(&inside)) {
            PathState::Directory
        } else {
            PathState::Absent
        }
    }

    fn path_exists(&self, path: &str) -> bool {
        self.seen(path) != PathState::Absent
    }

    fn is_file(&self, path: &str) -> bool {
        self.seen(path) == PathState::File
    }

    fn make_parents(&mut self, path: &str) {
        let mut at = path;
        while let Some(i) = at.rfind('/') {
            at = &at[..i];
            self.dirs.insert(at.to_string());
        }
    }

    fn create_dir_all(&mut self, path: &str) {
        self.make_parents(path);
        self.dirs.insert(path.to_string());
    }

    fn write(&mut self, path: &str, content: &str) {
        self.make_parents(path);
        self.files.insert(path.to_string(), content.to_string());
    }

    fn read(&self, path: &str) -> String {
        self.files[path].clone()
    }

    fn take_tree(&mut self, path: &str) -> Saved {
        let inside = format!("{}/", path);
        let files: Vec<String> =
            self.files.keys().filter(|k| k.starts_with(&inside)).cloned().collect();
        let dirs: Vec<String> =
            self.dirs.iter().filter(|k| k.starts_with(&inside)).cloned().collect();
        let mut saved_files = BTreeMap::new();
        for f in files {
            let content = self.files.remove(&f).unwrap();
            saved_files.insert(f[inside.len()..].to_string(), content);
        }
        let mut saved_dirs = BTreeSet::new();
        for d in dirs {
            self.dirs.remove(&d);
            saved_dirs.insert(d[inside.len()..].to_string());
        }
        self.dirs.remove(path);
        Saved::Dir(saved_files, saved_dirs)
    }

    fn put_tree(&mut self, path: &str, files: &BTreeMap<String, String>, dirs: &BTreeSet<String>) {
        self.create_dir_all(path);
        for d in dirs {
            self.dirs.insert(format!("{}/{}", path, d));
        }
        for (f, content) in files {
            self.files.insert(format!("{}/{}", path, f), content.clone());
        }
    }

    /// Carries out an effect. Copies are taken from `outside`.
    fn perform(&mut self, effect: &Effect, outside: &Disk) {
        match effect {
            Effect::CreateFile { path } => self.write(path, ""),
            Effect::CopyFile { path, src } => {
                let content = outside.read(src);
                self.write(path, &content);
            }
            Effect::CopyDir { path, src } => {
                let mut from = outside.clone();
                match from.take_tree(src) {
                    Saved::Dir(files, dirs) => {
                        self.make_parents(path);
                        self.put_tree(path, &files, &dirs);
                    }
                    Saved::File(_) => unreachable!(),
                }
            }
            Effect::WriteFile { path, content } => self.write(path, content),
            Effect::MoveFileToBackup { path, backup } => {
                let content = self.files.remove(path).unwrap();
                self.backups.insert(*backup, Saved::File(content));
            }
            Effect::MoveDirToBackup { path, backup } => {
                let tree = self.take_tree(path);
                self.backups.insert(*backup, tree);
            }
            Effect::CopyFileToBackup { path, backup } => {
                let content = self.read(path);
                self.backups.insert(*backup, Saved::File(content));
            }
            Effect::PrepareParent { path } => self.make_parents(path),
            Effect::Nothing => {}
        }
    }

    fn restore(&mut self, path: &str, backup: usize) -> Result<(), String> {
        match self.backups.get(&backup).cloned() {
            Some(Saved::File(content)) => {
                self.files.insert(path.to_string(), content);
                Ok(())
            }
            Some(Saved::Dir(files, dirs)) => {
                self.put_tree(path, &files, &dirs);
                Ok(())
            }
            None => Err(format!("no backup {} for {}", backup, path)),
        }
    }

    /// Undoes one record of a journal.
    fn undo(&mut self, item: &ChangedItem) -> Result<(), String> {
        match item {
            ChangedItem::AddedFile { path } => match self.files.remove(path) {
                Some(_) => Ok(()),
                None => Err(format!("no file {}", path)),
            },
            ChangedItem::AddedDir { path } => {
                if self.seen(path) == PathState::Directory {
                    self.take_tree(path);
                    Ok(())
                } else {
                    Err(format!("no directory {}", path))
                }
            }
            ChangedItem::RemovedFile { path, backup } => self.restore(path, *backup),
            ChangedItem::RemovedDir { path, backup } => self.restore(path, *backup),
            ChangedItem::ModifiedFile { path, saved: Some(backup) } => self.restore(path, *backup),
            ChangedItem::ModifiedFile { path, saved: None } => {
                if self.is_file(path) {
                    self.files.remove(path);
                }
                Ok(())
            }
        }
    }

    /// Rolls a transaction back, undoing what can be undone. Hands back what
    /// could not.
    fn roll_back(&mut self, tx: Transaction) -> Vec<String> {
        let mut failures = Vec::new();
        for item in tx.rollback() {
            if let Err(e) = self.undo(&item) {
                failures.push(e);
            }
        }
        failures
    }
}

fn s(text: &str) -> String {
    text.to_string()
}

/// Runs the steps of a plan through a transaction.
fn run(tx: &mut Transaction, prefix: &mut Disk, outside: &Disk, steps: &[Step]) -> Result<(), Error> {
    for step in steps {
        match step {
            Step::Stage { op } => {
                let effect = tx.stage(op, prefix.seen(op.path()))?;
                prefix.perform(&effect, outside);
            }
            Step::Write { path, content } => prefix.write(path, content),
        }
    }
    Ok(())
}


/// What a mock component installs: its name, the lines of its list, and its
/// files with their content.
struct MockComponent {
    name: &'static str,
    commands: Vec<(&'static str, &'static str)>,
    files: Vec<(&'static str, &'static str)>,
}

/// Builds a package image at `root` of the disk `outside`, and hands back what
/// a reader of the image finds.
fn build_mock(outside: &mut Disk, root: &str, components: &[MockComponent]) -> PackageImage {
    let mut names = String::new();
    let mut manifests = Vec::new();
    for c in components {
        names.push_str(c.name);
        names.push('\n');
        let mut manifest = String::new();
        for (kind, path) in &c.commands {
            manifest.push_str(&format!("{}:{}\n", kind, path));
        }
        outside.write(&format!("{}/{}/manifest.in", root, c.name), &manifest);
        manifests.push((c.name.to_string(), manifest));
        for (path, content) in &c.files {
            outside.write(&format!("{}/{}/{}", root, c.name, path), content);
        }
    }
    outside.write(&format!("{}/components", root), &names);
    outside.write(&format!("{}/rust-installer-version", root), "3\n");
    read_image(outside, root)
}

/// Reads a package image as the installer's caller does.
fn read_image(outside: &Disk, root: &str) -> PackageImage {
    let inside = format!("{}/", root);
    let components = outside.read(&format!("{}/components", root));
    let mut manifests = Vec::new();
    for name in lines(&components) {
        let path = format!("{}/{}/manifest.in", root, name);
        if outside.is_file(&path) {
            manifests.push((name, outside.read(&path)));
        }
    }
    PackageImage {
        version: outside.read(&format!("{}/rust-installer-version", root)),
        components,
        manifests,
        files: outside
            .files
            .keys()
            .filter(|k| k.starts_with(&inside))
            .map(|k| k[inside.len()..].to_string())
            .collect(),
        dirs: outside
            .dirs
            .iter()
            .filter(|k| k.starts_with(&inside))
            .map(|k| k[inside.len()..].to_string())
            .collect(),
    }
}

/// Reads the registry files of a prefix as the installer's caller does.
fn read_metadata(prefix: &Disk) -> Metadata {
    let file = |name: &str| {
        let path = format!("lib/rustlib/{}", name);
        if prefix.is_file(&path) {
            Some(prefix.read(&path))
        } else {
            None
        }
    };
    let components = file("components");
    let mut manifests = Vec::new();
    if let Some(text) = &components {
        for name in lines(text) {
            if let Some(manifest) = file(&format!("manifest-{}", name)) {
                manifests.push((name, manifest));
            }
        }
    }
    Metadata { version: file("rust-installer-version"), components, manifests }
}

fn open_components(prefix: &Disk) -> Components {
    Components::open(InstallPrefix::from(s("/prefix")), &read_metadata(prefix)).unwrap()
}

fn mycomponent() -> MockComponent {
    MockComponent {
        name: "mycomponent",
        commands: vec![("file", "bin/foo"), ("file", "lib/bar"), ("dir", "doc/stuff")],
        files: vec![
            ("bin/foo", "foo"),
            ("lib/bar", "bar"),
            ("doc/stuff/doc1", ""),
            ("doc/stuff/doc2", ""),
        ],
    }
}

// Just testing that the mocks work
#[test]
fn mock_smoke_test() {
    let mut outside = Disk::new();
    let image = build_mock(
        &mut outside,
        "pkg",
        &[
            mycomponent(),
            MockComponent {
                name: "mycomponent2",
                commands: vec![("file", "bin/quux")],
                files: vec![("bin/quux", "quux")],
            },
        ],
    );

    assert!(outside.path_exists("pkg/components"));
    assert!(outside.path_exists("pkg/mycomponent/manifest.in"));
    assert!(outside.path_exists("pkg/mycomponent/bin/foo"));
    assert!(outside.path_exists("pkg/mycomponent/lib/bar"));
    assert!(outside.path_exists("pkg/mycomponent/doc/stuff/doc1"));
    assert!(outside.path_exists("pkg/mycomponent/doc/stuff/doc2"));
    assert!(outside.path_exists("pkg/mycomponent2/manifest.in"));
    assert!(outside.path_exists("pkg/mycomponent2/bin/quux"));
    assert_eq!(image.components, "mycomponent\nmycomponent2\n");
    assert!(image.files.contains(&s("mycomponent/bin/foo")));
    assert!(image.dirs.contains(&s("mycomponent/doc/stuff")));
}

fn two_components() -> Vec<MockComponent> {
    vec![
        MockComponent {
            name: "mycomponent",
            commands: vec![("file", "bin/foo")],
            files: vec![("bin/foo", "foo")],
        },
        MockComponent {
            name: "mycomponent2",
            commands: vec![("file", "bin/bar")],
            files: vec![("bin/bar", "bar")],
        },
    ]
}

#[test]
fn package_contains() {
    let mut outside = Disk::new();
    let image = build_mock(&mut outside, "pkg", &two_components());

    let package = DirectoryPackage::new(s("pkg"), &image).unwrap();
    assert!(package.contains("mycomponent", None));
    assert!(package.contains("mycomponent2", None));
    assert!(!package.contains("mycomponent3", None));
    assert!(package.contains("mycomponent3", Some("mycomponent2")));
    assert!(!package.contains("mycomponent3", Some("mycomponent4")));
    assert_eq!(package.components(), vec![s("mycomponent"), s("mycomponent2")]);
}

#[test]
fn package_bad_version() {
    let mut outside = Disk::new();
    build_mock(&mut outside, "pkg", &two_components());

    outside.write("pkg/rust-installer-version", "100\n");
    let image = read_image(&outside, "pkg");

    match DirectoryPackage::new(s("pkg"), &image) {
        Err(Error::BadInstallerVersion { version }) => assert_eq!(version, "100"),
        other => panic!("{:?}", other),
    }
}

#[test]
fn package_versions_outside_the_supported_range() {
    let mut outside = Disk::new();
    build_mock(&mut outside, "pkg", &two_components());
    for (marker, seen) in [("2\n", "2"), ("4", "4"), ("three", "three"), ("", ""), ("3.0", "3.0")] {
        outside.write("pkg/rust-installer-version", marker);
        match DirectoryPackage::new(s("pkg"), &read_image(&outside, "pkg")) {
            Err(Error::BadInstallerVersion { version }) => assert_eq!(version, seen),
            other => panic!("{:?}", other),
        }
    }
    outside.write("pkg/rust-installer-version", " 3 \r\n");
    assert!(DirectoryPackage::new(s("pkg"), &read_image(&outside, "pkg")).is_ok());
}

#[test]
fn basic_install() {
    let mut outside = Disk::new();
    let image = build_mock(&mut outside, "pkg", &[mycomponent()]);

    let mut prefix = Disk::new();
    let mut tx = Transaction::new();

    let mut components = open_components(&prefix);

    let pkg = DirectoryPackage::new(s("pkg"), &image).unwrap();

    let steps = pkg.install(&mut components, "mycomponent", None).unwrap();
    run(&mut tx, &mut prefix, &outside, &steps).unwrap();
    tx.commit();

    assert!(prefix.path_exists("bin/foo"));
    assert!(prefix.path_exists("lib/bar"));
    assert!(prefix.path_exists("doc/stuff/doc1"));
    assert!(prefix.path_exists("doc/stuff/doc2"));
    assert_eq!(prefix.read("bin/foo"), "foo");

    assert!(components.find("mycomponent").is_some());
    // The registry on disk says the same.
    assert!(open_components(&prefix).find("mycomponent").is_some());
    assert_eq!(prefix.read("lib/rustlib/components"), "mycomponent\n");
    assert_eq!(
        prefix.read("lib/rustlib/manifest-mycomponent"),
        "file:bin/foo\nfile:lib/bar\ndir:doc/stuff\n"
    );
    assert_eq!(prefix.read("lib/rustlib/rust-installer-version"), "3");
}

#[test]
fn install_plans_copies_then_records() {
    let mut outside = Disk::new();
    let image = build_mock(&mut outside, "/tmp/pkg", &[mycomponent()]);
    let mut components = open_components(&Disk::new());
    let pkg = DirectoryPackage::new(s("/tmp/pkg"), &image).unwrap();
    let steps = pkg.install(&mut components, "mycomponent", None).unwrap();
    let shown: Vec<String> = steps.iter().map(|step| format!("{:?}", step)).collect();
    assert_eq!(
        shown,
        vec![
            r#"Stage { op: CopyFile { component: "mycomponent", path: "bin/foo", src: "/tmp/pkg/mycomponent/bin/foo" } }"#,
            r#"Stage { op: CopyFile { component: "mycomponent", path: "lib/bar", src: "/tmp/pkg/mycomponent/lib/bar" } }"#,
            r#"Stage { op: CopyDir { component: "mycomponent", path: "doc/stuff", src: "/tmp/pkg/mycomponent/doc/stuff" } }"#,
            r#"Stage { op: WriteFile { component: "mycomponent", path: "lib/rustlib/manifest-mycomponent", content: "file:bin/foo\nfile:lib/bar\ndir:doc/stuff\n" } }"#,
            r#"Stage { op: ModifyFile { path: "lib/rustlib/components" } }"#,
            r#"Write { path: "lib/rustlib/components", content: "mycomponent\n" }"#,
            r#"Stage { op: ModifyFile { path: "lib/rustlib/rust-installer-version" } }"#,
            r#"Write { path: "lib/rustlib/rust-installer-version", content: "3" }"#,
        ]
    );
}

#[test]
fn multiple_component_install() {
    let mut outside = Disk::new();
    let image = build_mock(
        &mut outside,
        "pkg",
        &[
            MockComponent {
                name: "mycomponent",
                commands: vec![("file", "bin/foo")],
                files: vec![("bin/foo", "foo")],
            },
            MockComponent {
                name: "mycomponent2",
                commands: vec![("file", "lib/bar")],
                files: vec![("lib/bar", "bar")],
            },
        ],
    );

    let mut prefix = Disk::new();
    let mut tx = Transaction::new();
    let mut components = open_components(&prefix);
    let pkg = DirectoryPackage::new(s("pkg"), &image).unwrap();

    let steps = pkg.install(&mut components, "mycomponent", None).unwrap();
    run(&mut tx, &mut prefix, &outside, &steps).unwrap();
    let steps = pkg.install(&mut components, "mycomponent2", None).unwrap();
    run(&mut tx, &mut prefix, &outside, &steps).unwrap();
    tx.commit();

    assert!(prefix.path_exists("bin/foo"));
    assert!(prefix.path_exists("lib/bar"));

    assert!(components.find("mycomponent").is_some());
    assert!(components.find("mycomponent2").is_some());
    let reopened = open_components(&prefix);
    assert!(reopened.find("mycomponent").is_some());
    assert!(reopened.find("mycomponent2").is_some());
    let names: Vec<String> = reopened.list().iter().map(|c| c.name().clone()).collect();
    assert_eq!(names, vec![s("mycomponent"), s("mycomponent2")]);
}

fn install_two(prefix: &mut Disk, outside: &mut Disk) -> Components {
    let image = build_mock(
        outside,
        "pkg",
        &[
            mycomponent(),
            MockComponent {
                name: "mycomponent2",
                commands: vec![("file", "lib/quux")],
                files: vec![("lib/quux", "quux")],
            },
        ],
    );
    let mut tx = Transaction::new();
    let mut components = open_components(prefix);
    let pkg = DirectoryPackage::new(s("pkg"), &image).unwrap();
    let steps = pkg.install(&mut components, "mycomponent", None).unwrap();
    run(&mut tx, prefix, outside, &steps).unwrap();
    let steps = pkg.install(&mut components, "mycomponent2", None).unwrap();
    run(&mut tx, prefix, outside, &steps).unwrap();
    tx.commit();
    components
}

#[test]
fn uninstall() {
    let mut outside = Disk::new();
    let mut prefix = Disk::new();
    let mut components = install_two(&mut prefix, &mut outside);

    // Now uninstall
    let mut tx = Transaction::new();
    for component in components.list() {
        let steps = component.uninstall(&mut components).unwrap();
        run(&mut tx, &mut prefix, &outside, &steps).unwrap();
    }
    tx.commit();

    assert!(!prefix.path_exists("bin/foo"));
    assert!(!prefix.path_exists("lib/bar"));
    assert!(!prefix.path_exists("doc/stuff/doc1"));
    assert!(!prefix.path_exists("doc/stuff/doc2"));
    assert!(!prefix.path_exists("doc/stuff"));
    assert!(components.find("mycomponent").is_none());
    assert!(components.find("mycomponent2").is_none());
    let reopened = open_components(&prefix);
    assert!(reopened.find("mycomponent").is_none());
    assert!(reopened.find("mycomponent2").is_none());
    assert!(reopened.list().is_empty());
}

#[test]
fn uninstall_then_rollback() {
    let mut outside = Disk::new();
    let mut prefix = Disk::new();
    let mut components = install_two(&mut prefix, &mut outside);
    let before = prefix.clone();

    let mut tx = Transaction::new();
    let component = components.find("mycomponent").unwrap();
    let steps = component.uninstall(&mut components).unwrap();
    run(&mut tx, &mut prefix, &outside, &steps).unwrap();
    assert!(!prefix.path_exists("bin/foo"));
    assert!(open_components(&prefix).find("mycomponent").is_none());
    assert!(open_components(&prefix).find("mycomponent2").is_some());
    assert!(prefix.roll_back(tx).is_empty());

    assert_eq!(prefix.files, before.files);
    assert!(open_components(&prefix).find("mycomponent").is_some());
}

#[test]
fn uninstall_removes_files_before_directories() {
    let mut prefix = Disk::new();
    prefix.write("lib/rustlib/components", "c\n");
    prefix.write("lib/rustlib/manifest-c", "file:a\ndir:d\nfile:d/inner\ndir:e\nfile:b\n");
    let mut components = open_components(&prefix);
    let component = components.find("c").unwrap();
    let parts = component.parts().unwrap();
    assert_eq!(parts.len(), 5);
    assert_eq!(parts[2].kind, "file");
    assert_eq!(parts[2].path, "d/inner");
    let steps = component.uninstall(&mut components).unwrap();
    let shown: Vec<String> = steps.iter().map(|step| format!("{:?}", step)).collect();
    assert_eq!(
        shown,
        vec![
            r#"Stage { op: ModifyFile { path: "lib/rustlib/components" } }"#,
            r#"Write { path: "lib/rustlib/components", content: "" }"#,
            r#"Stage { op: RemoveFile { component: "c", path: "b" } }"#,
            r#"Stage { op: RemoveFile { component: "c", path: "d/inner" } }"#,
            r#"Stage { op: RemoveFile { component: "c", path: "a" } }"#,
            r#"Stage { op: RemoveDir { component: "c", path: "e" } }"#,
            r#"Stage { op: RemoveDir { component: "c", path: "d" } }"#,
            r#"Stage { op: RemoveFile { component: "c", path: "lib/rustlib/manifest-c" } }"#,
        ]
    );
}

#[test]
fn uninstall_of_a_corrupt_component() {
    for manifest in ["file:a\nno colon here\n", "file:a\nlink:b\n"] {
        let mut prefix = Disk::new();
        prefix.write("lib/rustlib/components", "c\nd\n");
        prefix.write("lib/rustlib/manifest-c", manifest);
        let mut components = open_components(&prefix);
        let component = components.find("c").unwrap();
        match component.uninstall(&mut components) {
            Err(Error::CorruptComponent { package }) => assert_eq!(package, "c"),
            other => panic!("{:?}", other),
        }
        // The registry is as it was.
        assert!(components.find("c").is_some());
        assert!(components.find("d").is_some());
    }
    // A component without a list of what it owns.
    let mut prefix = Disk::new();
    prefix.write("lib/rustlib/components", "c\n");
    let mut components = open_components(&prefix);
    let component = components.find("c").unwrap();
    assert!(matches!(component.parts(), Err(Error::CorruptComponent { package }) if package == "c"));
    assert!(matches!(component.uninstall(&mut components), Err(Error::CorruptComponent { package }) if package == "c"));
}

#[test]
fn component_bad_version() {
    let mut outside = Disk::new();
    let image = build_mock(
        &mut outside,
        "pkg",
        &[MockComponent {
            name: "mycomponent",
            commands: vec![("file", "bin/foo")],
            files: vec![("bin/foo", "foo")],
        }],
    );

    let mut prefix = Disk::new();
    let mut tx = Transaction::new();
    let mut components = open_components(&prefix);
    let pkg = DirectoryPackage::new(s("pkg"), &image).unwrap();

    let steps = pkg.install(&mut components, "mycomponent", None).unwrap();
    run(&mut tx, &mut prefix, &outside, &steps).unwrap();
    tx.commit();

    // Write a bogus version to the component manifest directory
    prefix.write("lib/rustlib/rust-installer-version", "100\n");

    // Can't open components now
    let e = Components::open(InstallPrefix::from(s("/prefix")), &read_metadata(&prefix))
        .unwrap_err();
    if let Error::BadInstalledMetadataVersion { version } = e {
        assert_eq!(version, "100");
    } else {
        panic!()
    }
}

#[test]
fn installed_versions_that_are_understood() {
    for marker in ["3", "3\n", "2", "1", "0", " 03 "] {
        let metadata = Metadata { version: Some(s(marker)), components: None, manifests: vec![] };
        assert!(Components::open(InstallPrefix::from(s("/p")), &metadata).is_ok(), "{:?}", marker);
    }
    for (marker, seen) in [("4", "4"), ("100\n", "100"), ("", ""), ("v3", "v3"), ("99999999999999999999", "99999999999999999999")] {
        let metadata = Metadata { version: Some(s(marker)), components: None, manifests: vec![] };
        match Components::open(InstallPrefix::from(s("/p")), &metadata) {
            Err(Error::BadInstalledMetadataVersion { version }) => assert_eq!(version, seen),
            other => panic!("{:?}", other),
        }
    }
}

// Installing to a prefix that doesn't exist creates it automatically
#[test]
fn install_to_prefix_that_does_not_exist() {
    let mut outside = Disk::new();
    let image = build_mock(
        &mut outside,
        "pkg",
        &[MockComponent {
            name: "mycomponent",
            commands: vec![("file", "bin/foo")],
            files: vec![("bin/foo", "foo")],
        }],
    );

    // Nothing is there, not even the registry.
    let mut prefix = Disk::new();
    let metadata = read_metadata(&prefix);
    assert!(metadata.version.is_none() && metadata.components.is_none());
    let mut tx = Transaction::new();
    let mut components = Components::open(InstallPrefix::from(s("/super_not_real")), &metadata).unwrap();
    assert!(components.list().is_empty());
    assert_eq!(components.prefix().path(), "/super_not_real");

    let pkg = DirectoryPackage::new(s("pkg"), &image).unwrap();
    let steps = pkg.install(&mut components, "mycomponent", None).unwrap();
    run(&mut tx, &mut prefix, &outside, &steps).unwrap();
    tx.commit();

    assert!(prefix.path_exists("bin/foo"));
}

#[test]
fn install_under_the_short_name() {
    let mut outside = Disk::new();
    let image = build_mock(
        &mut outside,
        "pkg",
        &[MockComponent {
            name: "rustc",
            commands: vec![("file", "bin/rustc")],
            files: vec![("bin/rustc", "elf")],
        }],
    );
    let mut prefix = Disk::new();
    let mut tx = Transaction::new();
    let mut components = open_components(&prefix);
    let pkg = DirectoryPackage::new(s("pkg"), &image).unwrap();
    let steps = pkg.install(&mut components, "rustc-x86_64", Some("rustc")).unwrap();
    run(&mut tx, &mut prefix, &outside, &steps).unwrap();
    tx.commit();
    assert_eq!(prefix.read("bin/rustc"), "elf");
    // It is installed under the name that was asked for.
    assert!(components.find("rustc-x86_64").is_some());
    assert!(components.find("rustc").is_none());
    assert_eq!(prefix.read("lib/rustlib/manifest-rustc-x86_64"), "file:bin/rustc\n");
}

#[test]
fn install_of_a_corrupt_package() {
    let mut outside = Disk::new();
    build_mock(
        &mut outside,
        "pkg",
        &[MockComponent {
            name: "c",
            commands: vec![("file", "bin/foo"), ("dir", "doc")],
            files: vec![("bin/foo", "foo"), ("doc/x", "x")],
        }],
    );
    let good = read_image(&outside, "pkg");
    let try_install = |image: &PackageImage| {
        let mut components = open_components(&Disk::new());
        let pkg = DirectoryPackage::new(s("pkg"), image).unwrap();
        let res = pkg.install(&mut components, "c", None);
        assert_eq!(components.find("c").is_some(), res.is_ok());
        res
    };
    assert!(try_install(&good).is_ok());

    // A declared file that the image does not hold.
    let mut image = read_image(&outside, "pkg");
    image.files.retain(|f| f != "c/bin/foo");
    assert!(matches!(try_install(&image), Err(Error::CorruptComponent { package }) if package == "c"));

    // A declared directory that is a file in the image.
    let mut image = read_image(&outside, "pkg");
    image.dirs.retain(|f| f != "c/doc");
    image.files.push(s("c/doc"));
    assert!(matches!(try_install(&image), Err(Error::CorruptComponent { package }) if package == "c"));

    // A line that declares nothing, and a part of an unknown kind.
    for manifest in ["file:bin/foo\ndoc\n", "file:bin/foo\nlink:doc\n"] {
        let mut image = read_image(&outside, "pkg");
        image.manifests = vec![(s("c"), s(manifest))];
        assert!(matches!(try_install(&image), Err(Error::CorruptComponent { package }) if package == "c"));
    }

    // No list at all.
    let mut image = read_image(&outside, "pkg");
    image.manifests.clear();
    assert!(matches!(try_install(&image), Err(Error::CorruptComponent { package }) if package == "c"));
}

#[test]
fn installing_over_files_of_another_component_is_a_conflict() {
    let mut outside = Disk::new();
    let image = build_mock(&mut outside, "pkg", &[mycomponent()]);
    let mut prefix = Disk::new();
    prefix.write("lib/bar", "somebody else's");
    let before = prefix.clone();
    let mut tx = Transaction::new();
    let mut components = open_components(&prefix);
    let pkg = DirectoryPackage::new(s("pkg"), &image).unwrap();
    let steps = pkg.install(&mut components, "mycomponent", None).unwrap();
    match run(&mut tx, &mut prefix, &outside, &steps) {
        Err(Error::ComponentConflict { name, path }) => {
            assert_eq!(name, "mycomponent");
            assert_eq!(path, "lib/bar");
        }
        other => panic!("{:?}", other),
    }
    assert!(prefix.path_exists("bin/foo"));
    assert!(prefix.roll_back(tx).is_empty());
    assert_eq!(prefix.files, before.files);
}

#[test]
fn component_part_lines() {
    let part = ComponentPart { kind: s("file"), path: s("bin/foo") };
    assert_eq!(part.encode(), "file:bin/foo");
    let back = ComponentPart::decode("dir:doc/a:b").unwrap();
    assert_eq!(back.kind, "dir");
    assert_eq!(back.path, "doc/a:b");
    assert!(ComponentPart::decode("nothing").is_none());
    let round = ComponentPart::decode(&part.encode()).unwrap();
    assert_eq!((round.kind, round.path), (s("file"), s("bin/foo")));
}

const TRIPLE: &str = "x86_64-unknown-linux-gnu";

fn component(pkg: &str) -> Component {
    Component { pkg: s(pkg), target: s(TRIPLE) }
}

fn targeted(url: &str, payload: &[u8], components: Vec<Component>, extensions: Vec<Component>) -> TargettedPackage {
    TargettedPackage {
        available: true,
        url: s(url),
        hash: rust_install::checksum::to_hex(&payload_digest(payload)),
        components,
        extensions,
    }
}

fn package(version: &str, target: TargettedPackage) -> Package {
    Package { version: s(version), targets: vec![(s(TRIPLE), target)] }
}

/// A manifest with the package `rust`, which requires `rust` itself and
/// offers `rust-docs` as an extension. The payload of a package is its name.
fn manifest(date: &str) -> Manifest {
    Manifest {
        manifest_version: s("2"),
        date: s(date),
        root: s("http://dist"),
        packages: vec![
            (
                s("rust"),
                package(
                    "1.0",
                    targeted("http://dist/rust.tar.gz", b"rust", vec![component("rust")], vec![component("rust-docs")]),
                ),
            ),
            (s("rust-docs"), package("1.0", targeted("http://dist/rust-docs.tar.gz", b"rust-docs", vec![], vec![]))),
        ],
    }
}

/// The unpacked payload of the package `name`, which holds one component
/// under the name with the target in it.
fn unpack(outside: &mut Disk, name: &str) -> DirectoryPackage {
    let long: &'static str = Box::leak(format!("{}-{}", name, TRIPLE).into_boxed_str());
    let file: &'static str = Box::leak(format!("share/{}", name).into_boxed_str());
    let content: &'static str = Box::leak(format!("{} installed", name).into_boxed_str());
    let root = format!("unpacked/{}", name);
    let image = build_mock(
        outside,
        &root,
        &[MockComponent { name: long, commands: vec![("file", file)], files: vec![(file, content)] }],
    );
    DirectoryPackage::new(root, &image).unwrap()
}

fn open_manifestation(prefix: &Disk) -> Manifestation {
    Manifestation::open(InstallPrefix::from(s("/prefix")), TRIPLE, &read_metadata(prefix)).unwrap()
}

/// A whole update, as the installer's caller drives it. The manifest and
/// the configuration are kept on disk by their debug rendering.
fn update(prefix: &mut Disk, outside: &mut Disk, new_manifest: &Manifest, old_manifest: &Option<Manifest>, config: &Option<Config>, changes: Changes) -> Result<(UpdateStatus, Config), Error> {
    let mut manifestation = open_manifestation(prefix);
    let target = new_manifest.get_package("rust")?.get_target(TRIPLE)?;
    assert!(changes.is_valid(target, config));
    let update = manifestation.update(new_manifest, changes, old_manifest, config)?;
    if update.status == UpdateStatus::Unchanged {
        return Ok((UpdateStatus::Unchanged, update.config()));
    }
    let mut digests = Vec::new();
    let mut packages = Vec::new();
    for download in &update.downloads {
        // The payload of a package is its name.
        let payload = download.component.pkg.as_bytes();
        digests.push(payload_digest(payload));
    }
    let (mut tx, notes) = update.begin(&digests)?;
    assert_eq!(notes.len(), update.downloads.len());
    for download in &update.downloads {
        packages.push(unpack(outside, &download.component.pkg));
    }
    let plan = manifestation.plan(&update, &packages, format!("{:?}", new_manifest), format!("{:?}", update.config()))?;
    match run(&mut tx, prefix, outside, &plan.steps) {
        Ok(()) => {
            tx.commit();
            Ok((update.status, update.config()))
        }
        Err(e) => {
            assert!(prefix.roll_back(tx).is_empty());
            Err(e)
        }
    }
}

// No prior manifest or configuration; the target package requires one
// component and no extension is asked for.
#[test]
fn fresh_install() {
    let mut prefix = Disk::new();
    let mut outside = Disk::new();
    let new_manifest = manifest("2016-02-01");

    let manifestation = open_manifestation(&prefix);
    let planned = manifestation.update(&new_manifest, Changes::none(), &None, &None).unwrap();
    assert_eq!(planned.status, UpdateStatus::Changed);
    assert_eq!(planned.to_uninstall, vec![]);
    let to_install: Vec<Component> = planned.downloads.iter().map(|d| d.component.clone()).collect();
    assert_eq!(to_install, vec![component("rust")]);
    assert_eq!(planned.downloads[0].url, "http://dist/rust.tar.gz");
    assert_eq!(planned.final_list, vec![component("rust")]);

    let (status, config) = update(&mut prefix, &mut outside, &new_manifest, &None, &None, Changes::none()).unwrap();
    assert_eq!(status, UpdateStatus::Changed);
    assert_eq!(config.components, vec![component("rust")]);

    let registry = open_components(&prefix);
    let installed = registry.find(&format!("rust-{}", TRIPLE)).unwrap();
    // The component is found by what it is, whatever name it goes by.
    let found = open_manifestation(&prefix).find(&component("rust")).unwrap();
    assert_eq!(found.name(), installed.name());
    assert!(open_manifestation(&prefix).find(&component("rust-docs")).is_none());
    // It owns exactly the files that its package declares.
    let parts = installed.parts().unwrap();
    assert_eq!(parts.len(), 1);
    assert_eq!(parts[0].kind, "file");
    assert_eq!(parts[0].path, "share/rust");
    assert_eq!(prefix.read("share/rust"), "rust installed");
    assert_eq!(prefix.read("lib/rustlib/multirust-dist.toml"), format!("{:?}", new_manifest));
    assert_eq!(prefix.read("lib/rustlib/multirust-config.toml"), format!("{:?}", config));
}

// Installed are the required `rust` and the extension `rust-docs`; under
// the same manifest the extension is removed.
#[test]
fn extension_removal() {
    let mut prefix = Disk::new();
    let mut outside = Disk::new();
    let installed_manifest = manifest("2016-02-01");
    let changes = Changes { add_extensions: vec![component("rust-docs")], remove_extensions: vec![] };
    let (status, config) = update(&mut prefix, &mut outside, &installed_manifest, &None, &None, changes).unwrap();
    assert_eq!(status, UpdateStatus::Changed);
    assert_eq!(config.components, vec![component("rust"), component("rust-docs")]);
    assert!(open_components(&prefix).find(&format!("rust-docs-{}", TRIPLE)).is_some());
    assert!(prefix.path_exists("share/rust-docs"));

    let old = Some(installed_manifest.clone());
    let config = Some(config);
    let changes = Changes { add_extensions: vec![], remove_extensions: vec![component("rust-docs")] };
    let manifestation = open_manifestation(&prefix);
    let planned = manifestation.update(&installed_manifest, changes, &old, &config).unwrap();
    assert_eq!(planned.status, UpdateStatus::Changed);
    assert_eq!(planned.to_uninstall, vec![component("rust-docs")]);
    assert!(planned.downloads.is_empty());
    assert_eq!(planned.final_list, vec![component("rust")]);

    let changes = Changes { add_extensions: vec![], remove_extensions: vec![component("rust-docs")] };
    let (status, after) = update(&mut prefix, &mut outside, &installed_manifest, &old, &config, changes).unwrap();
    assert_eq!(status, UpdateStatus::Changed);
    assert_eq!(after.components, vec![component("rust")]);
    let registry = open_components(&prefix);
    assert!(registry.find(&format!("rust-docs-{}", TRIPLE)).is_none());
    assert!(registry.find(&format!("rust-{}", TRIPLE)).is_some());
    assert!(open_manifestation(&prefix).find(&component("rust-docs")).is_none());
    assert!(open_manifestation(&prefix).find(&component("rust")).is_some());
    assert!(!prefix.path_exists("share/rust-docs"));
    assert!(prefix.path_exists("share/rust"));
}

#[test]
fn update_with_nothing_to_do() {
    let mut prefix = Disk::new();
    let mut outside = Disk::new();
    let installed = manifest("2016-02-01");
    let (_, config) = update(&mut prefix, &mut outside, &installed, &None, &None, Changes::none()).unwrap();
    let before = prefix.clone();
    let (status, after) = update(&mut prefix, &mut outside, &installed, &Some(installed.clone()), &Some(config), Changes::none()).unwrap();
    assert_eq!(status, UpdateStatus::Unchanged);
    assert_eq!(after.components, vec![component("rust")]);
    assert_eq!(prefix, before);
}

#[test]
fn update_to_a_new_manifest_reinstalls_everything() {
    let mut prefix = Disk::new();
    let mut outside = Disk::new();
    let installed = manifest("2016-02-01");
    let changes = Changes { add_extensions: vec![component("rust-docs")], remove_extensions: vec![] };
    let (_, config) = update(&mut prefix, &mut outside, &installed, &None, &None, changes).unwrap();

    let newer = manifest("2016-02-02");
    let manifestation = open_manifestation(&prefix);
    let planned = manifestation.update(&newer, Changes::none(), &Some(installed.clone()), &Some(config.clone())).unwrap();
    assert_eq!(planned.status, UpdateStatus::Changed);
    assert_eq!(planned.to_uninstall, vec![component("rust"), component("rust-docs")]);
    let to_install: Vec<Component> = planned.downloads.iter().map(|d| d.component.clone()).collect();
    assert_eq!(to_install, vec![component("rust"), component("rust-docs")]);

    let (status, after) = update(&mut prefix, &mut outside, &newer, &Some(installed), &Some(config), Changes::none()).unwrap();
    assert_eq!(status, UpdateStatus::Changed);
    assert_eq!(after.components, vec![component("rust"), component("rust-docs")]);
    assert_eq!(prefix.read("lib/rustlib/multirust-dist.toml"), format!("{:?}", newer));
    let names: Vec<String> = open_components(&prefix).list().iter().map(|c| c.name().clone()).collect();
    assert_eq!(names, vec![format!("rust-{}", TRIPLE), format!("rust-docs-{}", TRIPLE)]);
}

#[test]
fn a_wrong_checksum_opens_no_transaction() {
    let mut prefix = Disk::new();
    let mut outside = Disk::new();
    let installed = manifest("2016-02-01");
    update(&mut prefix, &mut outside, &installed, &None, &None, Changes::none()).unwrap();
    let before = prefix.clone();

    let manifestation = open_manifestation(&prefix);
    let changes = Changes { add_extensions: vec![component("rust-docs")], remove_extensions: vec![] };
    let planned = manifestation.update(&manifest("2016-02-02"), changes, &Some(installed), &Some(Config { config_version: s("1"), components: vec![component("rust")] })).unwrap();
    assert_eq!(planned.downloads.len(), 2);
    let digests = vec![payload_digest(b"rust"), payload_digest(b"not rust-docs")];
    match planned.begin(&digests) {
        Err(Error::ChecksumFailed { url, expected, calculated }) => {
            assert_eq!(url, "http://dist/rust-docs.tar.gz");
            assert_eq!(expected, rust_install::checksum::to_hex(&payload_digest(b"rust-docs")));
            assert_eq!(calculated, rust_install::checksum::to_hex(&payload_digest(b"not rust-docs")));
        }
        other => panic!("{:?}", other.map(|_| ())),
    }
    // The first wrong one is reported.
    let digests = vec![payload_digest(b"x"), payload_digest(b"y")];
    assert!(matches!(planned.begin(&digests), Err(Error::ChecksumFailed { url, .. }) if url == "http://dist/rust.tar.gz"));
    // A payload that was not fetched.
    let digests = vec![payload_digest(b"rust")];
    match planned.begin(&digests) {
        Err(Error::ComponentDownloadFailed { component: missing, cause }) => {
            assert_eq!(missing, component("rust-docs"));
            assert_eq!(cause, "no payload");
        }
        other => panic!("{:?}", other.map(|_| ())),
    }
    // Nothing has changed, on disk or in the registry.
    assert_eq!(prefix, before);
    assert!(manifestation.installation().find(&format!("rust-{}", TRIPLE)).is_some());
    // With the right digests the transaction opens, empty.
    let digests = vec![payload_digest(b"rust"), payload_digest(b"rust-docs")];
    let (tx, notes) = planned.begin(&digests).unwrap();
    assert!(tx.rollback().is_empty());
    assert!(matches!(&notes[0], Notification::ChecksumValid { url } if url == "http://dist/rust.tar.gz"));
    assert!(matches!(&notes[1], Notification::ChecksumValid { url } if url == "http://dist/rust-docs.tar.gz"));
}

#[test]
fn a_package_without_the_component_is_corrupt() {
    let prefix = Disk::new();
    let mut outside = Disk::new();
    let new_manifest = manifest("2016-02-01");
    let mut manifestation = open_manifestation(&prefix);
    let planned = manifestation.update(&new_manifest, Changes::none(), &None, &None).unwrap();
    // The payload of another package.
    let packages = vec![unpack(&mut outside, "cargo")];
    match manifestation.plan(&planned, &packages, s("m"), s("c")) {
        Err(Error::CorruptComponent { package }) => assert_eq!(package, "rust"),
        other => panic!("{:?}", other),
    }
    assert!(manifestation.installation().list().is_empty());
    // No payload at all.
    match manifestation.plan(&planned, &vec![], s("m"), s("c")) {
        Err(Error::CorruptComponent { package }) => assert_eq!(package, "rust"),
        other => panic!("{:?}", other),
    }
}

#[test]
fn uninstalling_a_component_that_is_not_installed_is_noted() {
    let mut prefix = Disk::new();
    let mut outside = Disk::new();
    let installed = manifest("2016-02-01");
    update(&mut prefix, &mut outside, &installed, &None, &None, Changes::none()).unwrap();
    // The configuration claims an extension that the registry does not have.
    let config = Config { config_version: s("1"), components: vec![component("rust"), component("rust-docs")] };
    let changes = Changes { add_extensions: vec![], remove_extensions: vec![component("rust-docs")] };
    let mut manifestation = open_manifestation(&prefix);
    let planned = manifestation.update(&installed, changes, &Some(installed.clone()), &Some(config)).unwrap();
    assert_eq!(planned.to_uninstall, vec![component("rust-docs")]);
    let plan = manifestation.plan(&planned, &vec![], s("m"), s("c")).unwrap();
    assert_eq!(plan.notes.len(), 1);
    assert!(matches!(&plan.notes[0], Notification::MissingInstalledComponent { name } if *name == format!("rust-docs-{}", TRIPLE)));
    // Only the manifest and the configuration are rewritten.
    assert_eq!(plan.steps.len(), 4);
}

#[test]
fn uninstall_everything() {
    let mut prefix = Disk::new();
    let mut outside = Disk::new();
    prefix.write("unrelated", "stays");
    let installed = manifest("2016-02-01");
    let changes = Changes { add_extensions: vec![component("rust-docs")], remove_extensions: vec![] };
    let (_, config) = update(&mut prefix, &mut outside, &installed, &None, &None, changes).unwrap();

    let mut manifestation = open_manifestation(&prefix);
    let plan = manifestation.uninstall(&config).unwrap();
    assert!(plan.notes.is_empty());
    assert!(matches!(&plan.steps[0], Step::Stage { op } if format!("{:?}", op) == r#"RemoveFile { component: "dist config", path: "lib/rustlib/multirust-config.toml" }"#));
    let mut tx = Transaction::new();
    run(&mut tx, &mut prefix, &outside, &plan.steps).unwrap();
    tx.commit();

    assert!(!prefix.path_exists("share/rust"));
    assert!(!prefix.path_exists("share/rust-docs"));
    assert!(!prefix.path_exists("lib/rustlib/multirust-config.toml"));
    assert!(manifestation.installation().list().is_empty());
    assert!(open_components(&prefix).list().is_empty());
    assert_eq!(prefix.read("unrelated"), "stays");
}

#[test]
fn uninstall_finds_components_under_their_short_name() {
    let mut prefix = Disk::new();
    prefix.write("lib/rustlib/components", "rust\n");
    prefix.write("lib/rustlib/manifest-rust", "file:bin/rustc\n");
    prefix.write("lib/rustlib/multirust-config.toml", "config");
    prefix.write("bin/rustc", "elf");
    let mut manifestation = open_manifestation(&prefix);
    let config = Config { config_version: s("1"), components: vec![component("rust")] };
    let plan = manifestation.uninstall(&config).unwrap();
    let mut tx = Transaction::new();
    run(&mut tx, &mut prefix, &Disk::new(), &plan.steps).unwrap();
    tx.commit();
    assert!(!prefix.path_exists("bin/rustc"));
    assert!(manifestation.installation().find("rust").is_none());
    assert!(manifestation.find(&component("rust")).is_none());
}

#[test]
fn a_component_is_found_under_either_of_its_names() {
    let mut prefix = Disk::new();
    prefix.write("lib/rustlib/components", "rust\ncargo-x86_64-unknown-linux-gnu\ncargo\n");
    prefix.write("lib/rustlib/manifest-cargo", "file:bin/old-cargo\n");
    prefix.write("lib/rustlib/manifest-cargo-x86_64-unknown-linux-gnu", "file:bin/cargo\n");
    let manifestation = open_manifestation(&prefix);
    assert_eq!(manifestation.find(&component("rust")).unwrap().name(), "rust");
    // The name with the target in it comes first.
    let cargo = manifestation.find(&component("cargo")).unwrap();
    assert_eq!(cargo.name(), "cargo-x86_64-unknown-linux-gnu");
    assert_eq!(cargo.parts().unwrap()[0].path, "bin/cargo");
    assert!(manifestation.find(&component("rustc")).is_none());
    assert!(manifestation.find(&Component { pkg: s("rust"), target: s("other") }).is_some());
}

// Directories should be 0755, normal files 0644, files that come
// from the bin/ directory 0755.
#[test]
fn unix_permissions() {
    assert_eq!(file_mode("bin/foo"), 0o755);
    assert_eq!(file_mode("lib/bar"), 0o644);
    assert_eq!(DIRECTORY_MODE, 0o755);
    assert_eq!(file_mode("doc/stuff/doc1"), 0o644);
    assert_eq!(file_mode("doc/stuff/morestuff/doc2"), 0o644);
    assert_eq!(file_mode("usr/bin/tool"), 0o755);
    assert_eq!(file_mode("cabin/tool"), 0o644);
    assert_eq!(file_mode("bin/sub/tool"), 0o644);
    assert_eq!(file_mode("bin"), 0o644);
    assert_eq!(file_mode("bin/"), 0o755);
    assert_eq!(file_mode("/bin/x"), 0o755);
    assert_eq!(file_mode("in/x"), 0o644);
    assert_eq!(file_mode(""), 0o644);
}
