//! The distribution manifest and the record of what is installed.

use crate::errors::{Error, ErrorView};
use vstd::prelude::*;
use vstd::string::*;

verus! {

/// One installable unit: a package built for a target. Two components are the
/// same when both names agree.
#[derive(Debug)]
pub struct Component {
    pub pkg: String,
    pub target: String,
}

/// The mathematical value of a [`Component`].
pub struct ComponentView {
    pub pkg: Seq<char>,
    pub target: Seq<char>,
}

impl View for Component {
    type V = ComponentView;

    open spec fn view(&self) -> ComponentView {
        ComponentView { pkg: self.pkg@, target: self.target@ }
    }
}

impl DeepView for Component {
    type V = ComponentView;

    open spec fn deep_view(&self) -> ComponentView {
        self@
    }
}

impl Clone for Component {
    fn clone(&self) -> (copy: Component)
        ensures
            copy@ == self@,
    {
        Component { pkg: self.pkg.clone(), target: self.target.clone() }
    }
}

impl PartialEq for Component {
    fn eq(&self, other: &Component) -> (same: bool) {
        self.pkg == other.pkg && self.target == other.target
    }
}

impl vstd::std_specs::cmp::PartialEqSpecImpl for Component {
    open spec fn obeys_eq_spec() -> bool {
        true
    }

    open spec fn eq_spec(&self, other: &Component) -> bool {
        self@ == other@
    }
}

impl Component {
    /// The component of package `pkg` for `target`.
    pub fn new(pkg: &str, target: &str) -> (c: Component)
        ensures
            c@ == (ComponentView { pkg: pkg@, target: target@ }),
    {
        Component { pkg: pkg.to_owned(), target: target.to_owned() }
    }
}

/// Whether `list` holds a component equal to `c`.
pub fn contains(list: &Vec<Component>, c: &Component) -> (found: bool)
    ensures
        found == list.deep_view().contains(c@),
{
    let mut i: usize = 0;
    while i < list.len()
        invariant
            i <= list.len(),
            forall|j: int| 0 <= j < i ==> list.deep_view()[j] != c@,
        decreases list.len() - i,
    {
        if list[i] == *c {
            assert(list.deep_view()[i as int] == c@);
            return true;
        }
        i += 1;
    }
    false
}

/// A copy of `list`, component by component.
pub fn clone_components(list: &Vec<Component>) -> (copy: Vec<Component>)
    ensures
        copy.deep_view() == list.deep_view(),
{
    let mut copy: Vec<Component> = Vec::new();
    let mut i: usize = 0;
    while i < list.len()
        invariant
            i <= list.len(),
            copy.len() == i,
            forall|j: int| 0 <= j < i ==> copy[j]@ == list[j]@,
        decreases list.len() - i,
    {
        copy.push(list[i].clone());
        i += 1;
    }
    assert(copy.deep_view() =~= list.deep_view());
    copy
}

/// Whether two lists hold equal components in the same order.
pub fn same_components(a: &Vec<Component>, b: &Vec<Component>) -> (same: bool)
    ensures
        same == (a.deep_view() == b.deep_view()),
{
    if a.len() != b.len() {
        assert(a.deep_view().len() != b.deep_view().len());
        return false;
    }
    let mut i: usize = 0;
    while i < a.len()
        invariant
            i <= a.len(),
            a.len() == b.len(),
            forall|j: int| 0 <= j < i ==> a[j]@ == b[j]@,
        decreases a.len() - i,
    {
        if a[i] != b[i] {
            assert(a.deep_view()[i as int] != b.deep_view()[i as int]);
            return false;
        }
        i += 1;
    }
    assert(a.deep_view() =~= b.deep_view());
    true
}

/// What a package offers for one target: where its payload is, what it hashes
/// to, the components that come with it and those that may be added.
#[derive(Debug)]
pub struct TargettedPackage {
    pub available: bool,
    pub url: String,
    pub hash: String,
    pub components: Vec<Component>,
    pub extensions: Vec<Component>,
}

/// The mathematical value of a [`TargettedPackage`].
pub struct TargettedPackageView {
    pub available: bool,
    pub url: Seq<char>,
    pub hash: Seq<char>,
    pub components: Seq<ComponentView>,
    pub extensions: Seq<ComponentView>,
}

impl View for TargettedPackage {
    type V = TargettedPackageView;

    open spec fn view(&self) -> TargettedPackageView {
        TargettedPackageView {
            available: self.available,
            url: self.url@,
            hash: self.hash@,
            components: self.components.deep_view(),
            extensions: self.extensions.deep_view(),
        }
    }
}

impl DeepView for TargettedPackage {
    type V = TargettedPackageView;

    open spec fn deep_view(&self) -> TargettedPackageView {
        self@
    }
}

impl Clone for TargettedPackage {
    fn clone(&self) -> (copy: TargettedPackage)
        ensures
            copy@ == self@,
    {
        TargettedPackage {
            available: self.available,
            url: self.url.clone(),
            hash: self.hash.clone(),
            components: clone_components(&self.components),
            extensions: clone_components(&self.extensions),
        }
    }
}

impl PartialEq for TargettedPackage {
    fn eq(&self, other: &TargettedPackage) -> (same: bool) {
        self.available == other.available && self.url == other.url && self.hash == other.hash
            && same_components(&self.components, &other.components) && same_components(
            &self.extensions,
            &other.extensions,
        )
    }
}

impl vstd::std_specs::cmp::PartialEqSpecImpl for TargettedPackage {
    open spec fn obeys_eq_spec() -> bool {
        true
    }

    open spec fn eq_spec(&self, other: &TargettedPackage) -> bool {
        self@ == other@
    }
}

/// The first value that `entries` files under `name`, if there is one.
pub open spec fn lookup<V>(entries: Seq<(Seq<char>, V)>, name: Seq<char>) -> Option<V>
    decreases entries.len(),
{
    if entries.len() == 0 {
        None
    } else if entries[0].0 == name {
        Some(entries[0].1)
    } else {
        lookup(entries.drop_first(), name)
    }
}

/// Whether no two entries are filed under the same name.
pub open spec fn distinct_names<V>(entries: Seq<(Seq<char>, V)>) -> bool {
    forall|i: int, j: int|
        0 <= i < j < entries.len() ==> (#[trigger] entries[i]).0 != (#[trigger] entries[j]).0
}

/// Among entries with distinct names, the value that is found under a name
/// is the value of the one entry of that name.
pub proof fn lookup_finds_the_entry<V>(entries: Seq<(Seq<char>, V)>, at: int)
    requires
        distinct_names(entries),
        0 <= at < entries.len(),
    ensures
        lookup(entries, entries[at].0) == Some(entries[at].1),
    decreases entries.len(),
{
    if at > 0 {
        let rest = entries.drop_first();
        assert(entries[0].0 != entries[at].0);
        assert forall|i: int, j: int| 0 <= i < j < rest.len() implies (#[trigger] rest[i]).0 != (
        #[trigger] rest[j]).0 by {
            assert(rest[i] == entries[i + 1]);
            assert(rest[j] == entries[j + 1]);
        }
        assert(rest[at - 1] == entries[at]);
        lookup_finds_the_entry(rest, at - 1);
    }
}

/// The place of the first entry that is filed under `name`, or the number of
/// entries where none is.
pub open spec fn place_of<V>(entries: Seq<(Seq<char>, V)>, name: Seq<char>) -> nat
    decreases entries.len(),
{
    if entries.len() == 0 || entries[0].0 == name {
        0
    } else {
        1 + place_of(entries.drop_first(), name)
    }
}

/// The entries with `value` filed under `name`: in the place of the first
/// entry of that name, or at the end where there is none.
pub open spec fn with_entry<V>(entries: Seq<(Seq<char>, V)>, name: Seq<char>, value: V) -> Seq<
    (Seq<char>, V),
> {
    let at = place_of(entries, name) as int;
    if at < entries.len() {
        entries.update(at, (name, value))
    } else {
        entries.push((name, value))
    }
}

/// [`place_of`] is the one place before which no entry has the name and at
/// which the entries end or the entry has it.
pub proof fn place_of_is<V>(entries: Seq<(Seq<char>, V)>, name: Seq<char>, at: int)
    requires
        0 <= at <= entries.len(),
        forall|i: int| 0 <= i < at ==> (#[trigger] entries[i]).0 != name,
        at == entries.len() || entries[at].0 == name,
    ensures
        place_of(entries, name) == at,
        at < entries.len() ==> lookup(entries, name) == Some(entries[at].1),
        at == entries.len() ==> lookup(entries, name) is None,
    decreases entries.len(),
{
    if at > 0 {
        let rest = entries.drop_first();
        assert(entries[0].0 != name);
        assert forall|i: int| 0 <= i < at - 1 implies (#[trigger] rest[i]).0 != name by {
            assert(rest[i] == entries[i + 1]);
        }
        if at < entries.len() {
            assert(rest[at - 1] == entries[at]);
        }
        place_of_is(rest, name, at - 1);
    }
}

/// What filing a value under a name does to what is found: the value is found
/// under the name, what is found under any other name stays, and names that
/// were distinct stay distinct.
pub proof fn with_entry_is_found<V>(
    entries: Seq<(Seq<char>, V)>,
    name: Seq<char>,
    value: V,
    other: Seq<char>,
)
    requires
        other != name,
    ensures
        lookup(with_entry(entries, name, value), name) == Some(value),
        lookup(with_entry(entries, name, value), other) == lookup(entries, other),
        distinct_names(entries) ==> distinct_names(with_entry(entries, name, value)),
    decreases entries.len(),
{
    let after = with_entry(entries, name, value);
    if entries.len() == 0 {
        assert(after =~= seq![(name, value)]);
        assert(after.drop_first() =~= entries);
    } else if entries[0].0 == name {
        assert(after =~= entries.update(0, (name, value)));
        assert(after.drop_first() =~= entries.drop_first());
        if distinct_names(entries) {
            assert forall|i: int, j: int| 0 <= i < j < after.len() implies (#[trigger] after[i]).0
                != (#[trigger] after[j]).0 by {
                assert(entries[i].0 != entries[j].0);
            }
        }
    } else {
        let rest = entries.drop_first();
        with_entry_is_found(rest, name, value, other);
        assert(after =~= seq![entries[0]] + with_entry(rest, name, value));
        assert(after.drop_first() =~= with_entry(rest, name, value));
        if distinct_names(entries) {
            assert forall|i: int, j: int| 0 <= i < j < rest.len() implies (#[trigger] rest[i]).0
                != (#[trigger] rest[j]).0 by {
                assert(rest[i] == entries[i + 1]);
                assert(rest[j] == entries[j + 1]);
            }
            let at = place_of(entries, name) as int;
            assert forall|i: int, j: int| 0 <= i < j < after.len() implies (#[trigger] after[i]).0
                != (#[trigger] after[j]).0 by {
                if i > 0 {
                    assert(after[i] == with_entry(rest, name, value)[i - 1]);
                    assert(after[j] == with_entry(rest, name, value)[j - 1]);
                } else {
                    assert(after[0] == entries[0]);
                    if j < entries.len() && j != at {
                        assert(after[j] == entries[j]);
                    } else {
                        assert(after[j].0 == name);
                    }
                }
            }
        }
    }
}

/// What is found under a name is the value of the first entry of that name;
/// nothing is found where no entry has the name.
pub proof fn lookup_is_first_entry<V>(entries: Seq<(Seq<char>, V)>, name: Seq<char>)
    ensures
        lookup(entries, name) is Some ==> place_of(entries, name) < entries.len()
            && entries[place_of(entries, name) as int].0 == name && lookup(entries, name) == Some(
            entries[place_of(entries, name) as int].1,
        ),
        lookup(entries, name) is None ==> forall|i: int|
            0 <= i < entries.len() ==> (#[trigger] entries[i]).0 != name,
    decreases entries.len(),
{
    if entries.len() > 0 && entries[0].0 != name {
        let rest = entries.drop_first();
        lookup_is_first_entry(rest, name);
        if lookup(entries, name) is Some {
            assert(rest[place_of(rest, name) as int] == entries[place_of(rest, name) as int + 1]);
        } else {
            assert forall|i: int| 0 <= i < entries.len() implies (#[trigger] entries[i]).0
                != name by {
                if i > 0 {
                    assert(rest[i - 1] == entries[i]);
                }
            }
        }
    }
}

/// The place of the first entry that is filed under `name`, where there is
/// one.
pub fn find_entry<T: DeepView>(entries: &Vec<(String, T)>, name: &String) -> (found: Option<usize>)
    ensures
        match found {
            Some(at) => at < entries.len() && entries[at as int].0@ == name@ && lookup(
                entries.deep_view(),
                name@,
            ) == Some(entries[at as int].1.deep_view()),
            None => lookup(entries.deep_view(), name@) is None,
        },
{
    let ghost all = entries.deep_view();
    let mut at: usize = 0;
    while at < entries.len()
        invariant
            at <= entries.len(),
            all == entries.deep_view(),
            forall|i: int| 0 <= i < at ==> (#[trigger] all[i]).0 != name@,
        decreases entries.len() - at,
    {
        assert(all[at as int].0 == entries[at as int].0@);
        if entries[at].0 == *name {
            proof {
                place_of_is(all, name@, at as int);
            }
            return Some(at);
        }
        at += 1;
    }
    proof {
        place_of_is(all, name@, at as int);
    }
    None
}

/// Whether the same is found under every name in both lists of targets.
pub open spec fn same_targets(
    a: Seq<(Seq<char>, TargettedPackageView)>,
    b: Seq<(Seq<char>, TargettedPackageView)>,
) -> bool {
    forall|name: Seq<char>| #[trigger] lookup(a, name) == lookup(b, name)
}

/// Whether two packages are the same release and offer the same for every
/// target. The order in which the targets are listed does not count.
pub open spec fn same_package(a: PackageView, b: PackageView) -> bool {
    a.version == b.version && same_targets(a.targets, b.targets)
}

/// Whether under every name a package is found in both lists or in neither,
/// and the two that are found are the same (see [`same_package`]).
pub open spec fn same_packages(
    a: Seq<(Seq<char>, PackageView)>,
    b: Seq<(Seq<char>, PackageView)>,
) -> bool {
    forall|name: Seq<char>|
        match (#[trigger] lookup(a, name), lookup(b, name)) {
            (Some(x), Some(y)) => same_package(x, y),
            (None, None) => true,
            _ => false,
        }
}

/// Whether two manifests describe the same release: their fields agree, and
/// they hold the same packages. The order in which the packages are listed
/// does not count.
pub open spec fn same_manifest(a: ManifestView, b: ManifestView) -> bool {
    &&& a.manifest_version == b.manifest_version
    &&& a.date == b.date
    &&& a.root == b.root
    &&& same_packages(a.packages, b.packages)
}

/// Files `value` under `name`: see [`with_entry`].
pub fn insert_entry<T: DeepView>(entries: &mut Vec<(String, T)>, name: String, value: T)
    ensures
        final(entries).deep_view() == with_entry(
            old(entries).deep_view(),
            name@,
            value.deep_view(),
        ),
{
    let ghost before = entries.deep_view();
    let mut at: usize = 0;
    while at < entries.len()
        invariant
            at <= entries.len(),
            entries.deep_view() == before,
            before == old(entries).deep_view(),
            forall|i: int| 0 <= i < at ==> (#[trigger] before[i]).0 != name@,
        decreases entries.len() - at,
    {
        assert(before[at as int].0 == entries[at as int].0@);
        if entries[at].0 == name {
            proof {
                place_of_is(before, name@, at as int);
            }
            entries.set(at, (name, value));
            assert(entries.deep_view() =~= before.update(at as int, (name@, value.deep_view())));
            return ;
        }
        at += 1;
    }
    proof {
        place_of_is(before, name@, at as int);
    }
    entries.push((name, value));
    assert(entries.deep_view() =~= before.push((name@, value.deep_view())));
}

/// One release of a package, with what it offers for each target it was built
/// for. A target is looked up by name; the first entry of that name counts.
/// Two packages are equal when they are the same release and the same is
/// found in both for every target: see [`same_package`].
#[derive(Debug)]
pub struct Package {
    pub version: String,
    pub targets: Vec<(String, TargettedPackage)>,
}

/// The mathematical value of a [`Package`].
pub struct PackageView {
    pub version: Seq<char>,
    pub targets: Seq<(Seq<char>, TargettedPackageView)>,
}

impl View for Package {
    type V = PackageView;

    open spec fn view(&self) -> PackageView {
        PackageView { version: self.version@, targets: self.targets.deep_view() }
    }
}

impl DeepView for Package {
    type V = PackageView;

    open spec fn deep_view(&self) -> PackageView {
        self@
    }
}

impl Package {
    /// A release that is built for no target yet.
    pub fn new(version: String) -> (package: Package)
        ensures
            package@ == (PackageView { version: version@, targets: Seq::empty() }),
    {
        let package = Package { version, targets: Vec::new() };
        assert(package.targets.deep_view() =~= Seq::<(Seq<char>, TargettedPackageView)>::empty());
        package
    }

    /// Files what the package offers for the target `name`, in the place of
    /// what it offered for it before: see [`with_entry`].
    pub fn insert_target(&mut self, name: String, target: TargettedPackage)
        ensures
            final(self)@ == (PackageView {
                version: old(self)@.version,
                targets: with_entry(old(self)@.targets, name@, target@),
            }),
    {
        insert_entry(&mut self.targets, name, target);
    }

    /// What this package offers for `target`; `TargetNotFound` when it has no
    /// entry of that name.
    pub fn get_target(&self, target: &str) -> (found: Result<&TargettedPackage, Error>)
        ensures
            match found {
                Ok(t) => lookup(self@.targets, target@) == Some(t@),
                Err(e) => lookup(self@.targets, target@) is None && e@ == (
                ErrorView::TargetNotFound { target: target@ }),
            },
    {
        let wanted = target.to_owned();
        let mut i: usize = 0;
        assert(self@.targets.skip(0) =~= self@.targets);
        while i < self.targets.len()
            invariant
                i <= self.targets.len(),
                wanted@ == target@,
                lookup(self@.targets, target@) == lookup(self@.targets.skip(i as int), target@),
            decreases self.targets.len() - i,
        {
            let ghost rest = self@.targets.skip(i as int);
            assert(rest[0] == self@.targets[i as int]);
            assert(rest.drop_first() =~= self@.targets.skip(i + 1));
            assert(rest[0].0 == self.targets[i as int].0@);
            if self.targets[i].0 == wanted {
                assert(rest[0].1 == self.targets[i as int].1@);
                return Ok(&self.targets[i].1);
            }
            i += 1;
        }
        Err(Error::TargetNotFound { target: target.to_owned() })
    }
}

impl Clone for Package {
    fn clone(&self) -> (copy: Package)
        ensures
            copy@ == self@,
    {
        let mut targets: Vec<(String, TargettedPackage)> = Vec::new();
        let mut i: usize = 0;
        while i < self.targets.len()
            invariant
                i <= self.targets.len(),
                targets.len() == i,
                forall|j: int| 0 <= j < i ==> targets[j].deep_view() == self.targets[j].deep_view(),
            decreases self.targets.len() - i,
        {
            targets.push((self.targets[i].0.clone(), self.targets[i].1.clone()));
            i += 1;
        }
        assert(targets.deep_view() =~= self.targets.deep_view());
        Package { version: self.version.clone(), targets }
    }
}

impl PartialEq for Package {
    fn eq(&self, other: &Package) -> (same: bool) {
        if self.version != other.version {
            return false;
        }
        let ghost mine = self@.targets;
        let ghost theirs = other@.targets;
        let mut i: usize = 0;
        while i < self.targets.len()
            invariant
                i <= self.targets.len(),
                mine == self@.targets,
                theirs == other@.targets,
                forall|j: int|
                    0 <= j < i ==> lookup(mine, (#[trigger] mine[j]).0) == lookup(
                        theirs,
                        mine[j].0,
                    ),
            decreases self.targets.len() - i,
        {
            let name = &self.targets[i].0;
            assert(mine[i as int].0 == name@);
            let here = find_entry(&self.targets, name);
            let there = find_entry(&other.targets, name);
            let agree = match (here, there) {
                (Some(k), Some(m)) => self.targets[k].1 == other.targets[m].1,
                _ => false,
            };
            if !agree {
                proof {
                    lookup_is_first_entry(mine, name@);
                    assert(lookup(mine, name@) != lookup(theirs, name@));
                }
                return false;
            }
            i += 1;
        }
        let mut k: usize = 0;
        while k < other.targets.len()
            invariant
                k <= other.targets.len(),
                mine == self@.targets,
                theirs == other@.targets,
                forall|j: int|
                    0 <= j < mine.len() ==> lookup(mine, (#[trigger] mine[j]).0) == lookup(
                        theirs,
                        mine[j].0,
                    ),
                forall|j: int| 0 <= j < k ==> lookup(mine, (#[trigger] theirs[j]).0) is Some,
            decreases other.targets.len() - k,
        {
            let name = &other.targets[k].0;
            assert(theirs[k as int].0 == name@);
            if find_entry(&self.targets, name).is_none() {
                proof {
                    lookup_is_first_entry(theirs, name@);
                    assert(lookup(mine, name@) != lookup(theirs, name@));
                }
                return false;
            }
            k += 1;
        }
        proof {
            assert forall|name: Seq<char>| #[trigger] lookup(mine, name) == lookup(theirs, name) by {
                lookup_is_first_entry(mine, name);
                lookup_is_first_entry(theirs, name);
                if lookup(mine, name) is Some {
                    assert(mine[place_of(mine, name) as int].0 == name);
                } else if lookup(theirs, name) is Some {
                    assert(theirs[place_of(theirs, name) as int].0 == name);
                }
            }
        }
        true
    }
}

impl vstd::std_specs::cmp::PartialEqSpecImpl for Package {
    open spec fn obeys_eq_spec() -> bool {
        true
    }

    open spec fn eq_spec(&self, other: &Package) -> bool {
        same_package(self@, other@)
    }
}

/// The description of one release of the distribution: its packages by name.
/// The first entry of a name counts. Two manifests are equal when their fields
/// agree and the same package is found in both under every name: see
/// [`same_manifest`].
#[derive(Debug)]
pub struct Manifest {
    pub manifest_version: String,
    pub date: String,
    pub root: String,
    pub packages: Vec<(String, Package)>,
}

/// The mathematical value of a [`Manifest`].
pub struct ManifestView {
    pub manifest_version: Seq<char>,
    pub date: Seq<char>,
    pub root: Seq<char>,
    pub packages: Seq<(Seq<char>, PackageView)>,
}

impl View for Manifest {
    type V = ManifestView;

    open spec fn view(&self) -> ManifestView {
        ManifestView {
            manifest_version: self.manifest_version@,
            date: self.date@,
            root: self.root@,
            packages: self.packages.deep_view(),
        }
    }
}

impl DeepView for Manifest {
    type V = ManifestView;

    open spec fn deep_view(&self) -> ManifestView {
        self@
    }
}

impl Manifest {
    /// A manifest without packages.
    pub fn new(manifest_version: String, date: String, root: String) -> (manifest: Manifest)
        ensures
            manifest@ == (ManifestView {
                manifest_version: manifest_version@,
                date: date@,
                root: root@,
                packages: Seq::empty(),
            }),
    {
        let manifest = Manifest { manifest_version, date, root, packages: Vec::new() };
        assert(manifest.packages.deep_view() =~= Seq::<(Seq<char>, PackageView)>::empty());
        manifest
    }

    /// Files the package called `name`, in the place of the one that was
    /// called so before: see [`with_entry`].
    pub fn insert_package(&mut self, name: String, package: Package)
        ensures
            final(self)@ == (ManifestView {
                manifest_version: old(self)@.manifest_version,
                date: old(self)@.date,
                root: old(self)@.root,
                packages: with_entry(old(self)@.packages, name@, package@),
            }),
    {
        insert_entry(&mut self.packages, name, package);
    }

    /// The package called `name`; `PackageNotFound` when the manifest has none.
    pub fn get_package(&self, name: &str) -> (found: Result<&Package, Error>)
        ensures
            match found {
                Ok(p) => lookup(self@.packages, name@) == Some(p@),
                Err(e) => lookup(self@.packages, name@) is None && e@ == (
                ErrorView::PackageNotFound { name: name@ }),
            },
    {
        let wanted = name.to_owned();
        let mut i: usize = 0;
        assert(self@.packages.skip(0) =~= self@.packages);
        while i < self.packages.len()
            invariant
                i <= self.packages.len(),
                wanted@ == name@,
                lookup(self@.packages, name@) == lookup(self@.packages.skip(i as int), name@),
            decreases self.packages.len() - i,
        {
            let ghost rest = self@.packages.skip(i as int);
            assert(rest[0] == self@.packages[i as int]);
            assert(rest.drop_first() =~= self@.packages.skip(i + 1));
            assert(rest[0].0 == self.packages[i as int].0@);
            if self.packages[i].0 == wanted {
                assert(rest[0].1 == self.packages[i as int].1@);
                return Ok(&self.packages[i].1);
            }
            i += 1;
        }
        Err(Error::PackageNotFound { name: name.to_owned() })
    }
}

impl Clone for Manifest {
    fn clone(&self) -> (copy: Manifest)
        ensures
            copy@ == self@,
    {
        let mut packages: Vec<(String, Package)> = Vec::new();
        let mut i: usize = 0;
        while i < self.packages.len()
            invariant
                i <= self.packages.len(),
                packages.len() == i,
                forall|j: int|
                    0 <= j < i ==> packages[j].deep_view() == self.packages[j].deep_view(),
            decreases self.packages.len() - i,
        {
            packages.push((self.packages[i].0.clone(), self.packages[i].1.clone()));
            i += 1;
        }
        assert(packages.deep_view() =~= self.packages.deep_view());
        Manifest {
            manifest_version: self.manifest_version.clone(),
            date: self.date.clone(),
            root: self.root.clone(),
            packages,
        }
    }
}

impl PartialEq for Manifest {
    fn eq(&self, other: &Manifest) -> (same: bool) {
        if self.manifest_version != other.manifest_version || self.date != other.date || self.root
            != other.root {
            return false;
        }
        let ghost mine = self@.packages;
        let ghost theirs = other@.packages;
        let mut i: usize = 0;
        while i < self.packages.len()
            invariant
                i <= self.packages.len(),
                mine == self@.packages,
                theirs == other@.packages,
                forall|j: int|
                    0 <= j < i ==> lookup(theirs, (#[trigger] mine[j]).0) is Some && same_package(
                        lookup(mine, mine[j].0)->0,
                        lookup(theirs, mine[j].0)->0,
                    ),
            decreases self.packages.len() - i,
        {
            let name = &self.packages[i].0;
            assert(mine[i as int].0 == name@);
            let here = find_entry(&self.packages, name);
            let there = find_entry(&other.packages, name);
            let agree = match (here, there) {
                (Some(k), Some(m)) => self.packages[k].1 == other.packages[m].1,
                _ => false,
            };
            if !agree {
                proof {
                    lookup_is_first_entry(mine, name@);
                    assert(lookup(mine, name@) is Some);
                    assert(!same_packages(mine, theirs));
                }
                return false;
            }
            i += 1;
        }
        let mut k: usize = 0;
        while k < other.packages.len()
            invariant
                k <= other.packages.len(),
                mine == self@.packages,
                theirs == other@.packages,
                forall|j: int|
                    0 <= j < mine.len() ==> lookup(theirs, (#[trigger] mine[j]).0) is Some
                        && same_package(lookup(mine, mine[j].0)->0, lookup(theirs, mine[j].0)->0),
                forall|j: int| 0 <= j < k ==> lookup(mine, (#[trigger] theirs[j]).0) is Some,
            decreases other.packages.len() - k,
        {
            let name = &other.packages[k].0;
            assert(theirs[k as int].0 == name@);
            if find_entry(&self.packages, name).is_none() {
                proof {
                    lookup_is_first_entry(theirs, name@);
                    assert(lookup(theirs, name@) is Some);
                    assert(!same_packages(mine, theirs));
                }
                return false;
            }
            k += 1;
        }
        proof {
            assert forall|name: Seq<char>|
                match (#[trigger] lookup(mine, name), lookup(theirs, name)) {
                    (Some(x), Some(y)) => same_package(x, y),
                    (None, None) => true,
                    _ => false,
                } by {
                lookup_is_first_entry(mine, name);
                lookup_is_first_entry(theirs, name);
                if lookup(mine, name) is Some {
                    assert(mine[place_of(mine, name) as int].0 == name);
                } else if lookup(theirs, name) is Some {
                    assert(theirs[place_of(theirs, name) as int].0 == name);
                }
            }
        }
        true
    }
}

impl vstd::std_specs::cmp::PartialEqSpecImpl for Manifest {
    open spec fn obeys_eq_spec() -> bool {
        true
    }

    open spec fn eq_spec(&self, other: &Manifest) -> bool {
        same_manifest(self@, other@)
    }
}

/// What is installed in a prefix: the components, by package and target, in
/// the order in which they were recorded.
#[derive(Debug)]
pub struct Config {
    pub config_version: String,
    pub components: Vec<Component>,
}

/// The mathematical value of a [`Config`].
pub struct ConfigView {
    pub config_version: Seq<char>,
    pub components: Seq<ComponentView>,
}

impl View for Config {
    type V = ConfigView;

    open spec fn view(&self) -> ConfigView {
        ConfigView {
            config_version: self.config_version@,
            components: self.components.deep_view(),
        }
    }
}

impl Clone for Config {
    fn clone(&self) -> (copy: Config)
        ensures
            copy@ == self@,
    {
        Config {
            config_version: self.config_version.clone(),
            components: clone_components(&self.components),
        }
    }
}

impl PartialEq for Config {
    fn eq(&self, other: &Config) -> (same: bool) {
        self.config_version == other.config_version && same_components(
            &self.components,
            &other.components,
        )
    }
}

impl vstd::std_specs::cmp::PartialEqSpecImpl for Config {
    open spec fn obeys_eq_spec() -> bool {
        true
    }

    open spec fn eq_spec(&self, other: &Config) -> bool {
        self@ == other@
    }
}

impl Config {
    /// A configuration of the current format with nothing installed.
    pub fn new() -> (config: Config)
        ensures
            config@.components == Seq::<ComponentView>::empty(),
            config@.config_version == "1"@,
    {
        let config = Config { config_version: "1".to_owned(), components: Vec::new() };
        assert(config.components.deep_view() =~= Seq::<ComponentView>::empty());
        config
    }
}

} // verus!
