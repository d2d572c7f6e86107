//! Bringing an installation up to date with a distribution manifest: what to
//! remove, what to fetch and install, and the steps that do it.

use crate::checksum::{check_digest, digest_checked, hex};
use crate::components::{
    encoded_lines, handle, install_steps, owned_parts, registry_with, registry_without, rewrite,
    uninstall_steps, BuilderView, Components, ComponentsView, Metadata,
};
use crate::errors::{Error, ErrorView};
use crate::manifest::{
    clone_components, contains, lookup, same_manifest, Component, ComponentView, Config,
    ConfigView, Manifest, ManifestView, TargettedPackage, TargettedPackageView,
};
use crate::notify::{push_note, Notification, NotificationView};
use crate::package::{
    actual_name, copies, declared_parts, package_contains, DirectoryPackage,
    DirectoryPackageView,
};
use crate::prefix::{joined, rel_manifest_path, InstallPrefix};
use crate::transaction::{
    push_step, push_steps, writes_announced, ChangedItemView, Operation, OperationView, Step,
    StepView, Transaction,
};
use vstd::prelude::*;
use vstd::string::*;

verus! {

/// The extensions that a caller wants added to and removed from an
/// installation.
#[derive(Debug)]
pub struct Changes {
    pub add_extensions: Vec<Component>,
    pub remove_extensions: Vec<Component>,
}

/// The mathematical value of [`Changes`].
pub struct ChangesView {
    pub add_extensions: Seq<ComponentView>,
    pub remove_extensions: Seq<ComponentView>,
}

impl View for Changes {
    type V = ChangesView;

    open spec fn view(&self) -> ChangesView {
        ChangesView {
            add_extensions: self.add_extensions.deep_view(),
            remove_extensions: self.remove_extensions.deep_view(),
        }
    }
}

impl Changes {
    /// No extension added, none removed.
    pub fn none() -> (changes: Changes)
        ensures
            changes@.add_extensions.len() == 0,
            changes@.remove_extensions.len() == 0,
    {
        Changes { add_extensions: Vec::new(), remove_extensions: Vec::new() }
    }

    /// Whether these changes may be applied to an installation described by
    /// `config` from the target package `package`: see [`changes_valid`].
    pub fn is_valid(&self, package: &TargettedPackage, config: &Option<Config>) -> (valid: bool)
        ensures
            valid == changes_valid(self@, package@, config_view(config)),
    {
        let mut i: usize = 0;
        while i < self.add_extensions.len()
            invariant
                i <= self.add_extensions.len(),
                forall|j: int|
                    0 <= j < i ==> addable(self@, package@, #[trigger] self@.add_extensions[j]),
            decreases self.add_extensions.len() - i,
        {
            let c = &self.add_extensions[i];
            if !contains(&package.extensions, c) || contains(&self.remove_extensions, c) {
                assert(!addable(self@, package@, self@.add_extensions[i as int]));
                return false;
            }
            i += 1;
        }
        let mut k: usize = 0;
        while k < self.remove_extensions.len()
            invariant
                k <= self.remove_extensions.len(),
                forall|j: int|
                    0 <= j < self@.add_extensions.len() ==> addable(
                        self@,
                        package@,
                        #[trigger] self@.add_extensions[j],
                    ),
                forall|j: int|
                    0 <= j < k ==> removable(
                        package@,
                        config_view(config),
                        #[trigger] self@.remove_extensions[j],
                    ),
            decreases self.remove_extensions.len() - k,
        {
            let c = &self.remove_extensions[k];
            let installed = match config {
                Some(cfg) => contains(&cfg.components, c),
                None => false,
            };
            if !contains(&package.extensions, c) || !installed {
                assert(!removable(package@, config_view(config), self@.remove_extensions[k as int]));
                return false;
            }
            k += 1;
        }
        true
    }
}

/// Whether an update changed the installation.
#[derive(Debug, PartialEq, Eq, Structural, Clone, Copy)]
pub enum UpdateStatus {
    Changed,
    Unchanged,
}

/// The value of an optional configuration.
pub open spec fn config_view(config: &Option<Config>) -> Option<ConfigView> {
    match config {
        Some(c) => Some(c@),
        None => None,
    }
}

/// Whether there is an installed manifest and `new_manifest` describes the
/// same release (see [`same_manifest`]).
pub open spec fn same_as_installed(
    old_manifest: Option<ManifestView>,
    new_manifest: ManifestView,
) -> bool {
    old_manifest is Some && same_manifest(old_manifest->0, new_manifest)
}

/// The value of an optional manifest.
pub open spec fn manifest_view(manifest: &Option<Manifest>) -> Option<ManifestView> {
    match manifest {
        Some(m) => Some(m@),
        None => None,
    }
}

/// An extension may be added when the package declares it and the same
/// changes do not also remove it.
pub open spec fn addable(
    changes: ChangesView,
    package: TargettedPackageView,
    c: ComponentView,
) -> bool {
    package.extensions.contains(c) && !changes.remove_extensions.contains(c)
}

/// An extension may be removed when the package declares it and it is
/// installed.
pub open spec fn removable(
    package: TargettedPackageView,
    config: Option<ConfigView>,
    c: ComponentView,
) -> bool {
    package.extensions.contains(c) && config is Some && config->0.components.contains(c)
}

/// The changes that an update accepts: every extension to add is
/// [`addable`], every extension to remove is [`removable`].
pub open spec fn changes_valid(
    changes: ChangesView,
    package: TargettedPackageView,
    config: Option<ConfigView>,
) -> bool {
    &&& forall|j: int|
        0 <= j < changes.add_extensions.len() ==> addable(
            changes,
            package,
            #[trigger] changes.add_extensions[j],
        )
    &&& forall|j: int|
        0 <= j < changes.remove_extensions.len() ==> removable(
            package,
            config,
            #[trigger] changes.remove_extensions[j],
        )
}

/// `listed`, followed by the components of `more` that are not listed yet,
/// each once and in the order of `more`.
pub open spec fn with_unlisted(listed: Seq<ComponentView>, more: Seq<ComponentView>) -> Seq<
    ComponentView,
>
    decreases more.len(),
{
    if more.len() == 0 {
        listed
    } else {
        let c = more[0];
        let next = if listed.contains(c) {
            listed
        } else {
            listed.push(c)
        };
        with_unlisted(next, more.drop_first())
    }
}

/// The components of `list`, each once, in the order in which they come
/// first.
pub open spec fn each_once(list: Seq<ComponentView>) -> Seq<ComponentView> {
    with_unlisted(Seq::empty(), list)
}

/// What is installed before an update: the configuration's components, each
/// once, or nothing when there is no configuration.
pub open spec fn starting_list(config: Option<ConfigView>) -> Seq<ComponentView> {
    match config {
        Some(c) => each_once(c.components),
        None => Seq::empty(),
    }
}

/// Whether an installed component stays as an extension: the package declares
/// it, the changes do not remove it, and it is not on the list yet.
pub open spec fn stays(
    listed: Seq<ComponentView>,
    extensions: Seq<ComponentView>,
    removed: Seq<ComponentView>,
    c: ComponentView,
) -> bool {
    extensions.contains(c) && !removed.contains(c) && !listed.contains(c)
}

/// `listed`, followed by the components of `installed` that stay, each once
/// and in the order of `installed`.
pub open spec fn with_kept_extensions(
    listed: Seq<ComponentView>,
    installed: Seq<ComponentView>,
    extensions: Seq<ComponentView>,
    removed: Seq<ComponentView>,
) -> Seq<ComponentView>
    decreases installed.len(),
{
    if installed.len() == 0 {
        listed
    } else {
        let c = installed[0];
        let next = if stays(listed, extensions, removed, c) {
            listed.push(c)
        } else {
            listed
        };
        with_kept_extensions(next, installed.drop_first(), extensions, removed)
    }
}

/// The components that are installed once the update is done, each once:
/// those that the package requires, then the extensions to add that are not
/// listed yet, then the installed extensions that are neither removed nor
/// listed yet.
pub open spec fn final_list(
    package: TargettedPackageView,
    changes: ChangesView,
    installed: Seq<ComponentView>,
) -> Seq<ComponentView> {
    with_kept_extensions(
        with_unlisted(each_once(package.components), changes.add_extensions),
        installed,
        package.extensions,
        changes.remove_extensions,
    )
}

/// The components of `list` that `other` does not hold, in the order of
/// `list`.
pub open spec fn without(list: Seq<ComponentView>, other: Seq<ComponentView>) -> Seq<
    ComponentView,
> {
    list.filter(absent_from(other))
}

/// The test for a component that `other` does not hold.
pub open spec fn absent_from(other: Seq<ComponentView>) -> spec_fn(ComponentView) -> bool {
    |c: ComponentView| !other.contains(c)
}

/// The components to uninstall. Under a manifest that differs from the
/// installed one everything installed goes; under the same manifest only what
/// is not on the final list.
pub open spec fn uninstall_list(
    same_manifest: bool,
    installed: Seq<ComponentView>,
    finals: Seq<ComponentView>,
) -> Seq<ComponentView> {
    if same_manifest {
        without(installed, finals)
    } else {
        installed
    }
}

/// The components to install. Under a manifest that differs from the
/// installed one the whole final list; under the same manifest only what is
/// not installed yet.
pub open spec fn install_list(
    same_manifest: bool,
    installed: Seq<ComponentView>,
    finals: Seq<ComponentView>,
) -> Seq<ComponentView> {
    if same_manifest {
        without(finals, installed)
    } else {
        finals
    }
}

/// Puts those components of `more` at the end of `list` that it does not
/// hold yet.
fn push_unlisted(list: &mut Vec<Component>, more: &Vec<Component>)
    ensures
        final(list).deep_view() == with_unlisted(old(list).deep_view(), more.deep_view()),
{
    let ghost all = more.deep_view();
    let mut i: usize = 0;
    assert(all.skip(0) =~= all);
    while i < more.len()
        invariant
            i <= more.len(),
            all == more.deep_view(),
            with_unlisted(list.deep_view(), all.skip(i as int)) == with_unlisted(
                old(list).deep_view(),
                all,
            ),
        decreases more.len() - i,
    {
        let ghost before = list.deep_view();
        proof {
            assert(all.skip(i as int)[0] == more[i as int]@);
            assert(all.skip(i as int).drop_first() =~= all.skip(i + 1));
        }
        if !contains(list, &more[i]) {
            list.push(more[i].clone());
            assert(list.deep_view() =~= before.push(more[i as int]@));
        }
        i += 1;
    }
}

/// The components of `list` that `other` does not hold.
fn difference(list: &Vec<Component>, other: &Vec<Component>) -> (rest: Vec<Component>)
    ensures
        rest.deep_view() == without(list.deep_view(), other.deep_view()),
{
    let mut rest: Vec<Component> = Vec::new();
    let ghost keep = absent_from(other.deep_view());
    let mut i: usize = 0;
    proof {
        reveal(Seq::filter);
        assert(list.deep_view().take(0).filter(keep) =~= rest.deep_view());
    }
    while i < list.len()
        invariant
            i <= list.len(),
            keep == absent_from(other.deep_view()),
            rest.deep_view() == list.deep_view().take(i as int).filter(keep),
        decreases list.len() - i,
    {
        let ghost before = rest.deep_view();
        proof {
            assert(list.deep_view().take(i + 1) =~= list.deep_view().take(i as int).push(
                list[i as int]@,
            ));
            list.deep_view().take(i as int).lemma_filter_push(list[i as int]@, keep);
        }
        if !contains(other, &list[i]) {
            rest.push(list[i].clone());
            assert(rest.deep_view() =~= before.push(list[i as int]@));
        }
        i += 1;
    }
    assert(list.deep_view().take(list.len() as int) =~= list.deep_view());
    rest
}

/// The components to uninstall, the components to install, and the list of
/// all components that are installed once both are done, in this order. No
/// list holds a component twice, however often it is required, asked for or
/// recorded as installed.
///
/// The changes must be valid for the target package and the configuration
/// (see [`Changes::is_valid`]). The manifest counts as the same when there is
/// an installed manifest and it describes the same release as `new_manifest`.
pub fn build_update_component_lists(
    new_manifest: &Manifest,
    old_manifest: &Option<Manifest>,
    config: &Option<Config>,
    changes: Changes,
    rust_target_package: &TargettedPackage,
) -> (lists: Result<(Vec<Component>, Vec<Component>, Vec<Component>), Error>)
    requires
        changes_valid(changes@, rust_target_package@, config_view(config)),
    ensures
        lists is Ok,
        ({
            let installed = starting_list(config_view(config));
            let finals = final_list(rust_target_package@, changes@, installed);
            let same = same_as_installed(manifest_view(old_manifest), new_manifest@);
            let (to_uninstall, to_install, final_components) = lists->Ok_0;
            &&& final_components.deep_view() == finals
            &&& to_uninstall.deep_view() == uninstall_list(same, installed, finals)
            &&& to_install.deep_view() == install_list(same, installed, finals)
            &&& final_components.deep_view().no_duplicates()
            &&& to_uninstall.deep_view().no_duplicates()
            &&& to_install.deep_view().no_duplicates()
        }),
{
    // The list of components already installed, empty if a new install
    let mut starting: Vec<Component> = Vec::new();
    assert(starting.deep_view() =~= Seq::<ComponentView>::empty());
    match config {
        Some(c) => {
            push_unlisted(&mut starting, &c.components);
        },
        None => {},
    }
    assert(starting.deep_view() == starting_list(config_view(config)));
    let ghost installed = starting.deep_view();
    let ghost required = rust_target_package@.components;
    let ghost added = changes@.add_extensions;
    let ghost extensions = rust_target_package@.extensions;
    let ghost removed = changes@.remove_extensions;

    // Find the final list of components we want to be left with when
    // we're done: required components, added extensions, and existing
    // installed extensions.
    let mut finals: Vec<Component> = Vec::new();
    assert(finals.deep_view() =~= Seq::<ComponentView>::empty());
    push_unlisted(&mut finals, &rust_target_package.components);
    push_unlisted(&mut finals, &changes.add_extensions);
    let ghost listed = with_unlisted(each_once(required), added);
    assert(finals.deep_view() == listed);
    let mut n: usize = 0;
    assert(installed.skip(0) =~= installed);
    while n < starting.len()
        invariant
            n <= starting.len(),
            installed == starting.deep_view(),
            extensions == rust_target_package@.extensions,
            removed == changes@.remove_extensions,
            with_kept_extensions(
                finals.deep_view(),
                installed.skip(n as int),
                extensions,
                removed,
            ) == with_kept_extensions(listed, installed, extensions, removed),
        decreases starting.len() - n,
    {
        let existing = &starting[n];
        let ghost before = finals.deep_view();
        proof {
            assert(installed.skip(n as int)[0] == existing@);
            assert(installed.skip(n as int).drop_first() =~= installed.skip(n + 1));
        }
        let is_extension = contains(&rust_target_package.extensions, existing);
        let is_removed = contains(&changes.remove_extensions, existing);
        let is_already_included = contains(&finals, existing);
        if is_extension && !is_removed && !is_already_included {
            finals.push(existing.clone());
            assert(finals.deep_view() =~= before.push(existing@));
        }
        n += 1;
    }

    proof {
        lists_hold_each_component_once(rust_target_package@, changes@, config_view(config));
    }

    let just_modifying_existing_install = match old_manifest {
        Some(old) => *old == *new_manifest,
        None => false,
    };
    if !just_modifying_existing_install {
        let all = clone_components(&finals);
        Ok((starting, all, finals))
    } else {
        let to_uninstall = difference(&starting, &finals);
        let to_install = difference(&finals, &starting);
        Ok((to_uninstall, to_install, finals))
    }
}

/// What [`with_unlisted`] holds: what was listed, and what `more` holds.
pub proof fn with_unlisted_members(
    listed: Seq<ComponentView>,
    more: Seq<ComponentView>,
    c: ComponentView,
)
    ensures
        with_unlisted(listed, more).contains(c) <==> listed.contains(c) || more.contains(c),
    decreases more.len(),
{
    if more.len() > 0 {
        let first = more[0];
        let next = if listed.contains(first) {
            listed
        } else {
            listed.push(first)
        };
        with_unlisted_members(next, more.drop_first(), c);
        if !listed.contains(first) {
            assert(next.contains(c) <==> listed.contains(c) || c == first) by {
                if listed.contains(c) {
                    let j = choose|j: int| 0 <= j < listed.len() && listed[j] == c;
                    assert(next[j] == c);
                }
                if c == first {
                    assert(next[next.len() - 1] == c);
                }
                if next.contains(c) && c != first {
                    let j = choose|j: int| 0 <= j < next.len() && next[j] == c;
                    assert(listed[j] == c);
                }
            }
        }
        assert(more.contains(c) <==> c == first || more.drop_first().contains(c)) by {
            if more.drop_first().contains(c) {
                let j = choose|j: int|
                    0 <= j < more.drop_first().len() && more.drop_first()[j] == c;
                assert(more[j + 1] == c);
            }
            if more.contains(c) && c != first {
                let j = choose|j: int| 0 <= j < more.len() && more[j] == c;
                assert(more.drop_first()[j - 1] == c);
            }
        }
    }
}

/// A list that holds no component twice holds none twice with one more at
/// its end that it did not hold.
pub proof fn pushed_unlisted_is_distinct(listed: Seq<ComponentView>, c: ComponentView)
    requires
        listed.no_duplicates(),
        !listed.contains(c),
    ensures
        listed.push(c).no_duplicates(),
{
    let next = listed.push(c);
    assert forall|i: int, j: int| 0 <= i < next.len() && 0 <= j < next.len() && i != j implies next[i]
        != next[j] by {
        if i < listed.len() && j < listed.len() {
            assert(listed[i] != listed[j]);
        } else if i < listed.len() {
            assert(listed.contains(listed[i]));
        } else {
            assert(listed.contains(listed[j]));
        }
    }
}

/// [`with_unlisted`] holds no component twice where what was listed holds
/// none twice.
pub proof fn with_unlisted_is_distinct(listed: Seq<ComponentView>, more: Seq<ComponentView>)
    requires
        listed.no_duplicates(),
    ensures
        with_unlisted(listed, more).no_duplicates(),
    decreases more.len(),
{
    if more.len() > 0 {
        let first = more[0];
        if listed.contains(first) {
            with_unlisted_is_distinct(listed, more.drop_first());
        } else {
            pushed_unlisted_is_distinct(listed, first);
            with_unlisted_is_distinct(listed.push(first), more.drop_first());
        }
    }
}

/// [`with_kept_extensions`] holds no component twice where what was listed
/// holds none twice.
pub proof fn kept_extensions_are_distinct(
    listed: Seq<ComponentView>,
    installed: Seq<ComponentView>,
    extensions: Seq<ComponentView>,
    removed: Seq<ComponentView>,
)
    requires
        listed.no_duplicates(),
    ensures
        with_kept_extensions(listed, installed, extensions, removed).no_duplicates(),
    decreases installed.len(),
{
    if installed.len() > 0 {
        let first = installed[0];
        if stays(listed, extensions, removed, first) {
            pushed_unlisted_is_distinct(listed, first);
            kept_extensions_are_distinct(
                listed.push(first),
                installed.drop_first(),
                extensions,
                removed,
            );
        } else {
            kept_extensions_are_distinct(listed, installed.drop_first(), extensions, removed);
        }
    }
}

/// [`without`] holds no component twice where the list that it is taken from
/// holds none twice.
pub proof fn without_is_distinct(list: Seq<ComponentView>, other: Seq<ComponentView>)
    requires
        list.no_duplicates(),
    ensures
        without(list, other).no_duplicates(),
    decreases list.len(),
{
    reveal(Seq::filter);
    if list.len() > 0 {
        let shorter = list.drop_last();
        assert(shorter.no_duplicates()) by {
            assert forall|i: int, j: int|
                0 <= i < shorter.len() && 0 <= j < shorter.len() && i != j implies shorter[i]
                != shorter[j] by {
                assert(list[i] != list[j]);
            }
        }
        without_is_distinct(shorter, other);
        if absent_from(other)(list.last()) {
            let kept = without(shorter, other);
            if kept.contains(list.last()) {
                shorter.lemma_filter_contains_rev(absent_from(other), list.last());
                let j = choose|j: int| 0 <= j < shorter.len() && shorter[j] == list.last();
                assert(list[j] == list[list.len() - 1]);
            }
            pushed_unlisted_is_distinct(kept, list.last());
        }
    }
}

/// A list that holds no component twice is its own list of each component
/// once.
pub proof fn each_once_of_distinct(list: Seq<ComponentView>)
    requires
        list.no_duplicates(),
    ensures
        each_once(list) == list,
{
    each_once_from(Seq::empty(), list);
    assert(Seq::<ComponentView>::empty() + list =~= list);
}

proof fn each_once_from(listed: Seq<ComponentView>, more: Seq<ComponentView>)
    requires
        (listed + more).no_duplicates(),
    ensures
        with_unlisted(listed, more) == listed + more,
    decreases more.len(),
{
    let all = listed + more;
    if more.len() > 0 {
        let first = more[0];
        assert(all[listed.len() as int] == first);
        if listed.contains(first) {
            let j = choose|j: int| 0 <= j < listed.len() && listed[j] == first;
            assert(all[j] == first);
        }
        assert(listed.push(first) + more.drop_first() =~= all);
        each_once_from(listed.push(first), more.drop_first());
    } else {
        assert(all =~= listed);
    }
}

/// No list of an update holds a component twice: not the final list, not the
/// list of what to uninstall, and not the list of what to install.
pub proof fn lists_hold_each_component_once(
    package: TargettedPackageView,
    changes: ChangesView,
    config: Option<ConfigView>,
)
    ensures
        ({
            let installed = starting_list(config);
            let finals = final_list(package, changes, installed);
            &&& installed.no_duplicates()
            &&& finals.no_duplicates()
            &&& forall|same: bool| #[trigger]
                uninstall_list(same, installed, finals).no_duplicates()
            &&& forall|same: bool| #[trigger] install_list(same, installed, finals).no_duplicates()
        }),
{
    let installed = starting_list(config);
    let nothing = Seq::<ComponentView>::empty();
    if config is Some {
        with_unlisted_is_distinct(nothing, config->0.components);
    }
    with_unlisted_is_distinct(nothing, package.components);
    with_unlisted_is_distinct(each_once(package.components), changes.add_extensions);
    kept_extensions_are_distinct(
        with_unlisted(each_once(package.components), changes.add_extensions),
        installed,
        package.extensions,
        changes.remove_extensions,
    );
    let finals = final_list(package, changes, installed);
    without_is_distinct(installed, finals);
    without_is_distinct(finals, installed);
}

/// What [`with_kept_extensions`] holds: what was listed, and the installed
/// components that the package declares as extensions and that are not
/// removed.
pub proof fn kept_extensions_members(
    listed: Seq<ComponentView>,
    installed: Seq<ComponentView>,
    extensions: Seq<ComponentView>,
    removed: Seq<ComponentView>,
    c: ComponentView,
)
    ensures
        with_kept_extensions(listed, installed, extensions, removed).contains(c) <==> (
        listed.contains(c) || (installed.contains(c) && extensions.contains(c)
            && !removed.contains(c))),
    decreases installed.len(),
{
    if installed.len() > 0 {
        let first = installed[0];
        let next = if stays(listed, extensions, removed, first) {
            listed.push(first)
        } else {
            listed
        };
        kept_extensions_members(next, installed.drop_first(), extensions, removed, c);
        if stays(listed, extensions, removed, first) {
            assert(next.last() == first);
            assert(next.drop_last() =~= listed);
            assert(next.contains(c) <==> listed.contains(c) || c == first) by {
                if listed.contains(c) {
                    let j = choose|j: int| 0 <= j < listed.len() && listed[j] == c;
                    assert(next[j] == c);
                }
                if c == first {
                    assert(next[next.len() - 1] == c);
                }
            }
        }
        assert(installed.contains(c) <==> c == first || installed.drop_first().contains(c)) by {
            if installed.drop_first().contains(c) {
                let j = choose|j: int|
                    0 <= j < installed.drop_first().len() && installed.drop_first()[j] == c;
                assert(installed[j + 1] == c);
            }
            if installed.contains(c) && c != first {
                let j = choose|j: int| 0 <= j < installed.len() && installed[j] == c;
                assert(installed.drop_first()[j - 1] == c);
            }
        }
    }
}

/// The final list of an update holds exactly the components that the target
/// package requires, the extensions to add, and the installed components
/// that are declared extensions and are not removed.
pub proof fn final_list_members(
    package: TargettedPackageView,
    changes: ChangesView,
    installed: Seq<ComponentView>,
    c: ComponentView,
)
    ensures
        final_list(package, changes, installed).contains(c) <==> (package.components.contains(c)
            || changes.add_extensions.contains(c) || (installed.contains(c)
            && package.extensions.contains(c) && !changes.remove_extensions.contains(c))),
{
    let listed = with_unlisted(each_once(package.components), changes.add_extensions);
    kept_extensions_members(
        listed,
        installed,
        package.extensions,
        changes.remove_extensions,
        c,
    );
    with_unlisted_members(each_once(package.components), changes.add_extensions, c);
    with_unlisted_members(Seq::empty(), package.components, c);
}

/// [`without`] leaves nothing exactly when `other` holds every component of
/// `list`.
pub proof fn without_is_empty(list: Seq<ComponentView>, other: Seq<ComponentView>)
    ensures
        without(list, other).len() == 0 <==> forall|j: int|
            0 <= j < list.len() ==> other.contains(#[trigger] list[j]),
    decreases list.len(),
{
    reveal(Seq::filter);
    if list.len() > 0 {
        without_is_empty(list.drop_last(), other);
        let shorter = list.drop_last();
        if without(list, other).len() == 0 {
            assert(other.contains(list.last()));
            assert forall|j: int| 0 <= j < list.len() implies other.contains(
                #[trigger] list[j],
            ) by {
                if j < list.len() - 1 {
                    assert(shorter[j] == list[j]);
                }
            }
        }
        if forall|j: int| 0 <= j < list.len() ==> other.contains(#[trigger] list[j]) {
            assert(other.contains(list[list.len() - 1]));
            assert forall|j: int| 0 <= j < shorter.len() implies other.contains(
                #[trigger] shorter[j],
            ) by {
                assert(shorter[j] == list[j]);
            }
        }
    }
}

/// Under a manifest that differs from the installed one (or with none
/// installed) an update is a full reinstall: everything installed is
/// uninstalled and the whole final list is installed, whatever the two have
/// in common.
pub proof fn full_reinstall_under_new_manifest(
    new_manifest: ManifestView,
    old_manifest: Option<ManifestView>,
    package: TargettedPackageView,
    changes: ChangesView,
    config: Option<ConfigView>,
)
    requires
        !same_as_installed(old_manifest, new_manifest),
    ensures
        ({
            let installed = starting_list(config);
            let finals = final_list(package, changes, installed);
            let same = same_as_installed(old_manifest, new_manifest);
            &&& uninstall_list(same, installed, finals) == installed
            &&& install_list(same, installed, finals) == finals
        }),
{
}

/// Under the installed manifest and with no changes asked for, an update
/// finds nothing to uninstall and nothing to install exactly when every
/// required component is installed and every installed component is a
/// required one or a declared extension.
pub proof fn no_op_reconciliation(
    new_manifest: ManifestView,
    old_manifest: Option<ManifestView>,
    package: TargettedPackageView,
    changes: ChangesView,
    config: Option<ConfigView>,
)
    requires
        same_as_installed(old_manifest, new_manifest),
        changes.add_extensions.len() == 0,
        changes.remove_extensions.len() == 0,
    ensures
        ({
            let installed = starting_list(config);
            let finals = final_list(package, changes, installed);
            let same = same_as_installed(old_manifest, new_manifest);
            (uninstall_list(same, installed, finals).len() == 0 && install_list(
                same,
                installed,
                finals,
            ).len() == 0) <==> ((forall|j: int|
                0 <= j < package.components.len() ==> installed.contains(
                    #[trigger] package.components[j],
                )) && (forall|j: int|
                0 <= j < installed.len() ==> package.components.contains(#[trigger] installed[j])
                    || package.extensions.contains(installed[j])))
        }),
{
    let installed = starting_list(config);
    let finals = final_list(package, changes, installed);
    without_is_empty(installed, finals);
    without_is_empty(finals, installed);
    assert forall|c: ComponentView|
        finals.contains(c) <==> (package.components.contains(c) || (installed.contains(c)
            && package.extensions.contains(c))) by {
        final_list_members(package, changes, installed, c);
    }
    let all_required_installed = forall|j: int|
        0 <= j < package.components.len() ==> installed.contains(
            #[trigger] package.components[j],
        );
    let all_installed_wanted = forall|j: int|
        0 <= j < installed.len() ==> package.components.contains(#[trigger] installed[j])
            || package.extensions.contains(installed[j]);
    if without(finals, installed).len() == 0 {
        assert forall|j: int| 0 <= j < package.components.len() implies installed.contains(
            #[trigger] package.components[j],
        ) by {
            let c = package.components[j];
            assert(finals.contains(c));
            let k = choose|k: int| 0 <= k < finals.len() && finals[k] == c;
            assert(installed.contains(finals[k]));
        }
    }
    if all_required_installed {
        assert forall|k: int| 0 <= k < finals.len() implies installed.contains(
            #[trigger] finals[k],
        ) by {
            let c = finals[k];
            assert(finals.contains(c));
            if package.components.contains(c) {
                let j = choose|j: int|
                    0 <= j < package.components.len() && package.components[j] == c;
                assert(installed.contains(package.components[j]));
            }
        }
    }
    if without(installed, finals).len() == 0 {
        assert forall|j: int| 0 <= j < installed.len() implies package.components.contains(
            #[trigger] installed[j],
        ) || package.extensions.contains(installed[j]) by {
            assert(finals.contains(installed[j]));
        }
    }
    if all_installed_wanted {
        assert forall|j: int| 0 <= j < installed.len() implies finals.contains(
            #[trigger] installed[j],
        ) by {
            assert(installed.contains(installed[j]));
        }
    }
}

/// The name of the metadata file that holds the manifest of the installed
/// release.
pub const DIST_MANIFEST: &'static str = "multirust-dist.toml";

/// The name of the metadata file that holds the configuration.
pub const CONFIG_FILE: &'static str = "multirust-config.toml";

/// The name of the package that an installation is made of.
pub open spec fn root_package() -> Seq<char> {
    "rust"@
}

/// The target package of the installation: what the package `rust` of the
/// manifest offers for the target.
pub open spec fn rust_target(manifest: ManifestView, triple: Seq<char>) -> Result<
    TargettedPackageView,
    ErrorView,
> {
    match lookup(manifest.packages, root_package()) {
        None => Err(ErrorView::PackageNotFound { name: root_package() }),
        Some(package) => match lookup(package.targets, triple) {
            None => Err(ErrorView::TargetNotFound { target: triple }),
            Some(target) => Ok(target),
        },
    }
}

/// The payload of one component: where to fetch it, and what it must hash to.
#[derive(Debug)]
pub struct Download {
    pub component: Component,
    pub url: String,
    pub hash: String,
}

/// The mathematical value of a [`Download`].
pub struct DownloadView {
    pub component: ComponentView,
    pub url: Seq<char>,
    pub hash: Seq<char>,
}

impl View for Download {
    type V = DownloadView;

    open spec fn view(&self) -> DownloadView {
        DownloadView { component: self.component@, url: self.url@, hash: self.hash@ }
    }
}

impl DeepView for Download {
    type V = DownloadView;

    open spec fn deep_view(&self) -> DownloadView {
        self@
    }
}

/// Where the manifest says that the payload of a component is.
pub open spec fn source_of(manifest: ManifestView, c: ComponentView) -> Result<
    DownloadView,
    ErrorView,
> {
    match lookup(manifest.packages, c.pkg) {
        None => Err(ErrorView::PackageNotFound { name: c.pkg }),
        Some(package) => match lookup(package.targets, c.target) {
            None => Err(ErrorView::TargetNotFound { target: c.target }),
            Some(target) => Ok(DownloadView { component: c, url: target.url, hash: target.hash }),
        },
    }
}

/// The payloads of `components`, in their order; where the manifest lacks
/// one, the failure for the first that it lacks.
pub open spec fn downloads_for(manifest: ManifestView, components: Seq<ComponentView>) -> Result<
    Seq<DownloadView>,
    ErrorView,
>
    decreases components.len(),
{
    if components.len() == 0 {
        Ok(Seq::empty())
    } else {
        match downloads_for(manifest, components.drop_last()) {
            Err(e) => Err(e),
            Ok(downloads) => match source_of(manifest, components.last()) {
                Err(e) => Err(e),
                Ok(download) => Ok(downloads.push(download)),
            },
        }
    }
}

/// What an update has to do: the components to uninstall, the payloads of the
/// components to install, and the components that are installed once it is
/// done. The status is `Unchanged` when there is nothing to uninstall and
/// nothing to install.
#[derive(Debug)]
pub struct Update {
    pub status: UpdateStatus,
    pub to_uninstall: Vec<Component>,
    pub downloads: Vec<Download>,
    pub final_list: Vec<Component>,
}

/// The mathematical value of an [`Update`].
pub struct UpdateView {
    pub status: UpdateStatus,
    pub to_uninstall: Seq<ComponentView>,
    pub downloads: Seq<DownloadView>,
    pub final_list: Seq<ComponentView>,
}

impl View for Update {
    type V = UpdateView;

    open spec fn view(&self) -> UpdateView {
        UpdateView {
            status: self.status,
            to_uninstall: self.to_uninstall.deep_view(),
            downloads: self.downloads.deep_view(),
            final_list: self.final_list.deep_view(),
        }
    }
}

/// What an update of an installation for `triple` comes to, from the
/// manifest `new_manifest`, with the manifest `old_manifest` and the
/// configuration `config` installed, and with `changes` asked for.
///
/// It fails where the manifest has no package `rust` or that package nothing
/// for the target. Else the lists are those of
/// [`build_update_component_lists`]. Where nothing is to be uninstalled and
/// nothing to be installed, the update is `Unchanged`. Else it is `Changed`,
/// and holds the payload of each component to install; it fails where the
/// manifest lacks one of them.
pub open spec fn update_outcome(
    triple: Seq<char>,
    new_manifest: ManifestView,
    old_manifest: Option<ManifestView>,
    config: Option<ConfigView>,
    changes: ChangesView,
) -> Result<UpdateView, ErrorView> {
    match rust_target(new_manifest, triple) {
        Err(e) => Err(e),
        Ok(package) => {
            let installed = starting_list(config);
            let finals = final_list(package, changes, installed);
            let same = same_as_installed(old_manifest, new_manifest);
            let to_uninstall = uninstall_list(same, installed, finals);
            let to_install = install_list(same, installed, finals);
            if to_uninstall.len() == 0 && to_install.len() == 0 {
                Ok(
                    UpdateView {
                        status: UpdateStatus::Unchanged,
                        to_uninstall,
                        downloads: Seq::empty(),
                        final_list: finals,
                    },
                )
            } else {
                match downloads_for(new_manifest, to_install) {
                    Err(e) => Err(e),
                    Ok(downloads) => Ok(
                        UpdateView {
                            status: UpdateStatus::Changed,
                            to_uninstall,
                            downloads,
                            final_list: finals,
                        },
                    ),
                }
            }
        },
    }
}

/// The value of what [`Manifestation::update`] returns.
pub open spec fn updated(res: Result<Update, Error>) -> Result<UpdateView, ErrorView> {
    match res {
        Ok(update) => Ok(update@),
        Err(e) => Err(e@),
    }
}

/// What is said when a payload is asked for and none was handed in.
pub open spec fn no_payload() -> Seq<char> {
    "no payload"@
}

/// What the check of the payloads' digests comes to: a note for each payload
/// that has the declared hash, in the order of the downloads, or the failure
/// of the first download that has no digest or not the declared hash.
pub open spec fn downloads_checked(downloads: Seq<DownloadView>, digests: Seq<Seq<u8>>) -> Result<
    Seq<NotificationView>,
    ErrorView,
>
    decreases downloads.len(),
{
    if downloads.len() == 0 {
        Ok(Seq::empty())
    } else {
        let at = downloads.len() - 1;
        let last = downloads.last();
        match downloads_checked(downloads.drop_last(), digests) {
            Err(e) => Err(e),
            Ok(notes) => if at >= digests.len() {
                Err(
                    ErrorView::ComponentDownloadFailed {
                        component: last.component,
                        cause: no_payload(),
                    },
                )
            } else {
                match digest_checked(last.url, last.hash, digests[at]) {
                    Err(e) => Err(e),
                    Ok(_) => Ok(notes.push(NotificationView::ChecksumValid { url: last.url })),
                }
            },
        }
    }
}

impl Download {
    /// Checks the digest of the payload that was fetched against the hash
    /// that the manifest declares: see [`digest_checked`]. A payload that
    /// passes is worth a note.
    pub fn check(&self, digest: &[u8]) -> (res: Result<Notification, Error>)
        ensures
            match digest_checked(self@.url, self@.hash, digest@) {
                Ok(_) => res is Ok && res->Ok_0@ == (NotificationView::ChecksumValid {
                    url: self@.url,
                }),
                Err(e) => res is Err && res->Err_0@ == e,
            },
    {
        match check_digest(self.url.as_str(), self.hash.as_str(), digest) {
            Ok(()) => Ok(Notification::ChecksumValid { url: self.url.clone() }),
            Err(e) => Err(e),
        }
    }
}

impl Update {
    /// Opens the transaction of this update, once every payload is fetched
    /// and found to be what the manifest declares. `digests` holds the
    /// SHA-256 digest of each payload, in the order of the downloads.
    ///
    /// Fails, and opens no transaction, where a digest is missing or is not
    /// the declared one: see [`downloads_checked`].
    pub fn begin(&self, digests: &Vec<Vec<u8>>) -> (res: Result<
        (Transaction, Vec<Notification>),
        Error,
    >)
        ensures
            match downloads_checked(self@.downloads, digests.deep_view()) {
                Ok(notes) => res is Ok && res->Ok_0.0@ == Seq::<ChangedItemView>::empty()
                    && res->Ok_0.1.deep_view() == notes,
                Err(e) => res is Err && res->Err_0@ == e,
            },
    {
        let mut notes: Vec<Notification> = Vec::new();
        let mut i: usize = 0;
        let ghost downloads = self@.downloads;
        assert(downloads.take(0) =~= Seq::<DownloadView>::empty());
        assert(notes.deep_view() =~= Seq::<NotificationView>::empty());
        while i < self.downloads.len()
            invariant
                i <= self.downloads.len(),
                downloads == self@.downloads,
                downloads_checked(downloads.take(i as int), digests.deep_view()) == Ok::<
                    Seq<NotificationView>,
                    ErrorView,
                >(notes.deep_view()),
            decreases self.downloads.len() - i,
        {
            let download = &self.downloads[i];
            proof {
                let upto = downloads.take(i + 1);
                assert(upto.drop_last() =~= downloads.take(i as int));
                assert(upto.last() == download@);
            }
            if i >= digests.len() {
                proof {
                    downloads_checked_prefix(downloads, digests.deep_view(), i + 1);
                }
                return Err(
                    Error::ComponentDownloadFailed {
                        component: download.component.clone(),
                        cause: "no payload".to_owned(),
                    },
                );
            }
            assert(digests.deep_view()[i as int] == digests[i as int]@);
            match download.check(digests[i].as_slice()) {
                Ok(note) => {
                    push_note(&mut notes, note);
                },
                Err(e) => {
                    proof {
                        downloads_checked_prefix(downloads, digests.deep_view(), i + 1);
                    }
                    return Err(e);
                },
            }
            i += 1;
        }
        assert(downloads.take(self.downloads.len() as int) =~= downloads);
        Ok((Transaction::new(), notes))
    }

    /// The configuration that records what is installed once this update is
    /// done.
    pub fn config(&self) -> (config: Config)
        ensures
            config@.components == self@.final_list,
            config@.config_version == "1"@,
    {
        let mut config = Config::new();
        config.components = clone_components(&self.final_list);
        config
    }
}

/// Where the check of the first downloads fails, the check of all of them
/// fails in the same way.
pub proof fn downloads_checked_prefix(
    downloads: Seq<DownloadView>,
    digests: Seq<Seq<u8>>,
    n: int,
)
    requires
        0 <= n <= downloads.len(),
        downloads_checked(downloads.take(n), digests) is Err,
    ensures
        downloads_checked(downloads, digests) == downloads_checked(downloads.take(n), digests),
    decreases downloads.len(),
{
    if n < downloads.len() {
        assert(downloads.drop_last().take(n) =~= downloads.take(n));
        downloads_checked_prefix(downloads.drop_last(), digests, n);
    } else {
        assert(downloads.take(n) =~= downloads);
    }
}

/// An update whose payloads do not all hash to what the manifest declares
/// opens no transaction: where the digest of any one download is not the
/// declared one, the check of the downloads fails.
pub proof fn checksum_mismatch_fails(
    downloads: Seq<DownloadView>,
    digests: Seq<Seq<u8>>,
    at: int,
)
    requires
        0 <= at < downloads.len(),
        at < digests.len(),
        hex(digests[at]) != downloads[at].hash,
    ensures
        downloads_checked(downloads, digests) is Err,
{
    let upto = downloads.take(at + 1);
    assert(upto.last() == downloads[at]);
    assert(downloads_checked(upto, digests) is Err);
    downloads_checked_prefix(downloads, digests, at + 1);
}

/// The name under which a component is installed where the name holds the
/// target: the package, a hyphen, the target.
pub open spec fn long_name(c: ComponentView) -> Seq<char> {
    c.pkg + seq!['-'] + c.target
}

/// The names under which a component may be installed, in the order in which
/// they are tried: with the target in it, then the bare package name.
pub open spec fn lookup_names(c: ComponentView) -> Seq<Seq<char>> {
    seq![long_name(c), c.pkg]
}

/// The names under which a component may be installed, in the order in which
/// they are tried.
pub fn installer_names(component: &Component) -> (names: (String, String))
    ensures
        seq![names.0@, names.1@] == lookup_names(component@),
{
    proof {
        reveal_strlit("-");
        assert("-"@ =~= seq!['-']);
    }
    let mut long = component.pkg.clone();
    long.append("-");
    long.append(component.target.as_str());
    (long, component.pkg.clone())
}

/// The name under which the registry holds a component: the first of its
/// names that the registry has.
pub open spec fn installed_name(registry: ComponentsView, c: ComponentView) -> Option<Seq<char>> {
    if registry.names.contains(long_name(c)) {
        Some(long_name(c))
    } else if registry.names.contains(c.pkg) {
        Some(c.pkg)
    } else {
        None
    }
}

/// The steps to run through a transaction, and what there is to tell about
/// them.
#[derive(Debug)]
pub struct Plan {
    pub steps: Vec<Step>,
    pub notes: Vec<Notification>,
}

/// A plan in the making: the registry as it is once the steps so far are
/// done, the steps, and the notes.
pub struct Planned {
    pub registry: ComponentsView,
    pub steps: Seq<StepView>,
    pub notes: Seq<NotificationView>,
}

/// The plan with one more component uninstalled. A component that the
/// registry holds under neither of its names is passed over with a note. It
/// fails where what the component owns cannot be read.
pub open spec fn component_uninstalled(before: Planned, c: ComponentView) -> Result<
    Planned,
    ErrorView,
> {
    match installed_name(before.registry, c) {
        None => Ok(
            Planned {
                registry: before.registry,
                steps: before.steps,
                notes: before.notes.push(
                    NotificationView::MissingInstalledComponent { name: long_name(c) },
                ),
            },
        ),
        Some(name) => match owned_parts(handle(before.registry, name)) {
            None => Err(ErrorView::CorruptComponent { package: name }),
            Some(parts) => Ok(
                Planned {
                    registry: registry_without(before.registry, name),
                    steps: before.steps + uninstall_steps(before.registry, name, parts),
                    notes: before.notes,
                },
            ),
        },
    }
}

/// The plan with the components uninstalled one after another; the failure of
/// the first that fails.
pub open spec fn components_uninstalled(before: Planned, components: Seq<ComponentView>) -> Result<
    Planned,
    ErrorView,
>
    decreases components.len(),
{
    if components.len() == 0 {
        Ok(before)
    } else {
        match components_uninstalled(before, components.drop_last()) {
            Err(e) => Err(e),
            Ok(so_far) => component_uninstalled(so_far, components.last()),
        }
    }
}

/// The plan with one more component installed from its package. It fails with
/// `CorruptComponent` where there is no package, where the package does not
/// hold the component under either of its names, or where what the component
/// installs cannot be read.
pub open spec fn component_installed(
    before: Planned,
    c: ComponentView,
    package: Option<DirectoryPackageView>,
) -> Result<Planned, ErrorView> {
    let name = long_name(c);
    let short = Some(c.pkg);
    if package is None || !package_contains(package->0, name, short) {
        Err(ErrorView::CorruptComponent { package: c.pkg })
    } else {
        match declared_parts(package->0, name, short) {
            None => Err(ErrorView::CorruptComponent { package: name }),
            Some(parts) => Ok(
                Planned {
                    registry: registry_with(before.registry, name, encoded_lines(parts)),
                    steps: before.steps + install_steps(
                        before.registry,
                        BuilderView {
                            name,
                            parts,
                            steps: copies(
                                name,
                                joined(package->0.path, actual_name(package->0, name, short)),
                                parts,
                            ),
                        },
                    ),
                    notes: before.notes,
                },
            ),
        }
    }
}

/// The package of the download at `at`, where there is one.
pub open spec fn package_at(packages: Seq<DirectoryPackageView>, at: int) -> Option<
    DirectoryPackageView,
> {
    if 0 <= at < packages.len() {
        Some(packages[at])
    } else {
        None
    }
}

/// The plan with the component of each download installed from the package at
/// the same place, one after another; the failure of the first that fails.
pub open spec fn components_installed(
    before: Planned,
    downloads: Seq<DownloadView>,
    packages: Seq<DirectoryPackageView>,
) -> Result<Planned, ErrorView>
    decreases downloads.len(),
{
    if downloads.len() == 0 {
        Ok(before)
    } else {
        match components_installed(before, downloads.drop_last(), packages) {
            Err(e) => Err(e),
            Ok(so_far) => component_installed(
                so_far,
                downloads.last().component,
                package_at(packages, downloads.len() - 1),
            ),
        }
    }
}

/// The name of the file with the manifest of the installed release.
pub open spec fn dist_manifest_file() -> Seq<char> {
    DIST_MANIFEST@
}

/// The name of the file with the configuration.
pub open spec fn config_file() -> Seq<char> {
    CONFIG_FILE@
}

/// The plan of an update. An update that leaves the installation unchanged
/// has no steps, and the registry stays as it is. Else the components to
/// uninstall are uninstalled, the components to install are installed from
/// their packages, then the manifest is replaced by `manifest_text` and the
/// configuration by `config_text`.
pub open spec fn update_planned(
    registry: ComponentsView,
    update: UpdateView,
    packages: Seq<DirectoryPackageView>,
    manifest_text: Seq<char>,
    config_text: Seq<char>,
) -> Result<Planned, ErrorView> {
    let start = Planned { registry, steps: Seq::empty(), notes: Seq::empty() };
    if update.status == UpdateStatus::Unchanged {
        Ok(start)
    } else {
        match components_uninstalled(start, update.to_uninstall) {
            Err(e) => Err(e),
            Ok(removed) => match components_installed(removed, update.downloads, packages) {
                Err(e) => Err(e),
                Ok(installed) => Ok(
                    Planned {
                        registry: installed.registry,
                        steps: installed.steps + rewrite(dist_manifest_file(), manifest_text)
                            + rewrite(config_file(), config_text),
                        notes: installed.notes,
                    },
                ),
            },
        }
    }
}

/// The component on whose behalf the configuration is removed.
pub open spec fn config_owner() -> Seq<char> {
    "dist config"@
}

/// The plan of the removal of an installation: the configuration is removed,
/// then each component that it records is uninstalled.
pub open spec fn uninstall_planned(registry: ComponentsView, config: ConfigView) -> Result<
    Planned,
    ErrorView,
> {
    let start = Planned {
        registry,
        steps: seq![
            StepView::Stage {
                op: OperationView::RemoveFile {
                    component: config_owner(),
                    path: rel_manifest_path(config_file()),
                },
            },
        ],
        notes: Seq::empty(),
    };
    components_uninstalled(start, config.components)
}

/// Where the first components cannot be uninstalled, neither can all of them.
pub proof fn components_uninstalled_prefix(
    before: Planned,
    components: Seq<ComponentView>,
    n: int,
)
    requires
        0 <= n <= components.len(),
        components_uninstalled(before, components.take(n)) is Err,
    ensures
        components_uninstalled(before, components) == components_uninstalled(
            before,
            components.take(n),
        ),
    decreases components.len(),
{
    if n < components.len() {
        assert(components.drop_last().take(n) =~= components.take(n));
        components_uninstalled_prefix(before, components.drop_last(), n);
    } else {
        assert(components.take(n) =~= components);
    }
}

/// Where the first components cannot be installed, neither can all of them.
pub proof fn components_installed_prefix(
    before: Planned,
    downloads: Seq<DownloadView>,
    packages: Seq<DirectoryPackageView>,
    n: int,
)
    requires
        0 <= n <= downloads.len(),
        components_installed(before, downloads.take(n), packages) is Err,
    ensures
        components_installed(before, downloads, packages) == components_installed(
            before,
            downloads.take(n),
            packages,
        ),
    decreases downloads.len(),
{
    if n < downloads.len() {
        assert(downloads.drop_last().take(n) =~= downloads.take(n));
        components_installed_prefix(before, downloads.drop_last(), packages, n);
    } else {
        assert(downloads.take(n) =~= downloads);
    }
}

/// An installation that is kept up to date with the manifests of a
/// distribution: its registry, and the target that it is for.
#[derive(Debug)]
pub struct Manifestation {
    installation: Components,
    target_triple: String,
}

/// The mathematical value of a [`Manifestation`].
pub struct ManifestationView {
    pub installation: ComponentsView,
    pub target_triple: Seq<char>,
}

impl View for Manifestation {
    type V = ManifestationView;

    closed spec fn view(&self) -> ManifestationView {
        ManifestationView {
            installation: self.installation@,
            target_triple: self.target_triple@,
        }
    }
}

/// The component as the registry holds it: looked up under its name with
/// the target in it, then under the name of its package.
pub open spec fn found_installed(registry: ComponentsView, c: ComponentView) -> Option<
    crate::components::InstalledView,
> {
    match installed_name(registry, c) {
        Some(name) => Some(handle(registry, name)),
        None => None,
    }
}

/// Looks a component up in `registry` under each of its names in turn: see
/// [`found_installed`].
pub fn find_installed(registry: &Components, component: &Component) -> (found: Option<
    crate::components::InstalledComponent,
>)
    ensures
        found.deep_view() == found_installed(registry@, component@),
{
    let (name, short_name) = installer_names(component);
    assert(lookup_names(component@)[0] == name@);
    assert(lookup_names(component@)[1] == short_name@);
    match registry.find(name.as_str()) {
        Some(c) => Some(c),
        None => registry.find(short_name.as_str()),
    }
}

/// Uninstalls one component from `registry` and adds the steps, or the note
/// that it is not installed, to the plan.
fn uninstall_component(
    registry: &mut Components,
    component: &Component,
    steps: &mut Vec<Step>,
    notes: &mut Vec<Notification>,
) -> (res: Result<(), Error>)
    ensures
        match component_uninstalled(
            Planned {
                registry: old(registry)@,
                steps: old(steps).deep_view(),
                notes: old(notes).deep_view(),
            },
            component@,
        ) {
            Ok(planned) => res is Ok && planned == (Planned {
                registry: final(registry)@,
                steps: final(steps).deep_view(),
                notes: final(notes).deep_view(),
            }),
            Err(e) => res is Err && res->Err_0@ == e,
        },
{
    match find_installed(registry, component) {
        Some(c) => {
            let removal = c.uninstall(registry)?;
            push_steps(steps, &removal);
        },
        None => {
            let (name, _) = installer_names(component);
            assert(lookup_names(component@)[0] == name@);
            push_note(notes, Notification::MissingInstalledComponent { name });
        },
    }
    Ok(())
}

/// Installs one component into `registry` from its package and adds the steps
/// to the plan.
fn install_component(
    registry: &mut Components,
    component: &Component,
    package: Option<&DirectoryPackage>,
    steps: &mut Vec<Step>,
) -> (res: Result<(), Error>)
    ensures
        forall|notes: Seq<NotificationView>|
            match #[trigger] component_installed(
                Planned { registry: old(registry)@, steps: old(steps).deep_view(), notes },
                component@,
                package.deep_view(),
            ) {
                Ok(planned) => res is Ok && planned == (Planned {
                    registry: final(registry)@,
                    steps: final(steps).deep_view(),
                    notes,
                }),
                Err(e) => res is Err && res->Err_0@ == e,
            },
{
    let (name, short_name) = installer_names(component);
    assert(lookup_names(component@)[0] == name@);
    assert(lookup_names(component@)[1] == short_name@);
    let package = match package {
        Some(p) => p,
        None => {
            return Err(Error::CorruptComponent { package: component.pkg.clone() });
        },
    };
    // A package that does not hold the component that the manifest says it
    // holds is not to be trusted with anything.
    if !package.contains(name.as_str(), Some(short_name.as_str())) {
        return Err(Error::CorruptComponent { package: component.pkg.clone() });
    }
    let installation = package.install(registry, name.as_str(), Some(short_name.as_str()))?;
    push_steps(steps, &installation);
    Ok(())
}

impl Manifestation {
    /// The installation at `prefix` for the target `triple`, whose registry
    /// files hold `metadata`. The prefix need not exist: its registry is then
    /// empty. A version marker that is not understood is the only reason for
    /// which this fails: see [`Components::open`].
    pub fn open(prefix: InstallPrefix, triple: &str, metadata: &Metadata) -> (opened: Result<
        Manifestation,
        Error,
    >)
        ensures
            match opened {
                Ok(m) => {
                    &&& metadata@.version is Some ==> crate::components::version_understood(
                        crate::text::trimmed(metadata@.version->0),
                    )
                    &&& m@ == (ManifestationView {
                        installation: crate::components::registry_read(prefix@, metadata@),
                        target_triple: triple@,
                    })
                },
                Err(e) => {
                    &&& metadata@.version is Some
                    &&& !crate::components::version_understood(
                        crate::text::trimmed(metadata@.version->0),
                    )
                    &&& e@ == (ErrorView::BadInstalledMetadataVersion {
                        version: crate::text::trimmed(metadata@.version->0),
                    })
                },
            },
    {
        Ok(
            Manifestation {
                installation: Components::open(prefix, metadata)?,
                target_triple: triple.to_owned(),
            },
        )
    }

    /// The component as it is installed, where it is: see
    /// [`found_installed`].
    pub fn find(&self, component: &Component) -> (found: Option<
        crate::components::InstalledComponent,
    >)
        ensures
            found.deep_view() == found_installed(self@.installation, component@),
    {
        find_installed(&self.installation, component)
    }

    /// The registry of the installation.
    pub fn installation(&self) -> (registry: &Components)
        ensures
            registry@ == self@.installation,
    {
        &self.installation
    }

    /// Works out what an update from `new_manifest` has to do, given the
    /// manifest and the configuration that are installed (`None` where the
    /// file is not there) and the extensions to add and remove: see
    /// [`update_outcome`]. Nothing is changed by this.
    ///
    /// The changes must be valid for the target package and the
    /// configuration (see [`Changes::is_valid`]).
    #[verifier::loop_isolation(false)]
    pub fn update(
        &self,
        new_manifest: &Manifest,
        changes: Changes,
        old_manifest: &Option<Manifest>,
        config: &Option<Config>,
    ) -> (res: Result<Update, Error>)
        requires
            rust_target(new_manifest@, self@.target_triple) is Ok ==> changes_valid(
                changes@,
                rust_target(new_manifest@, self@.target_triple)->Ok_0,
                config_view(config),
            ),
        ensures
            updated(res) == update_outcome(
                self@.target_triple,
                new_manifest@,
                manifest_view(old_manifest),
                config_view(config),
                changes@,
            ),
            res is Ok ==> {
                &&& res->Ok_0@.final_list.no_duplicates()
                &&& res->Ok_0@.to_uninstall.no_duplicates()
                &&& forall|i: int, j: int|
                    0 <= i < j < res->Ok_0@.downloads.len() ==> (
                    #[trigger] res->Ok_0@.downloads[i]).component != (
                    #[trigger] res->Ok_0@.downloads[j]).component
            },
    {
        proof {
            reveal_strlit("rust");
        }
        let rust_package = new_manifest.get_package("rust")?;
        let rust_target_package = rust_package.get_target(self.target_triple.as_str())?;

        // Create the lists of components needed for installation
        let component_lists = build_update_component_lists(
            new_manifest,
            old_manifest,
            config,
            changes,
            rust_target_package,
        )?;
        let (components_to_uninstall, components_to_install, final_component_list) =
            component_lists;

        if components_to_uninstall.len() == 0 && components_to_install.len() == 0 {
            let downloads: Vec<Download> = Vec::new();
            assert(downloads.deep_view() =~= Seq::<DownloadView>::empty());
            return Ok(
                Update {
                    status: UpdateStatus::Unchanged,
                    to_uninstall: components_to_uninstall,
                    downloads,
                    final_list: final_component_list,
                },
            );
        }
        assert(components_to_uninstall.deep_view().len() != 0
            || components_to_install.deep_view().len() != 0);

        // Map components to urls and hashes
        let mut downloads: Vec<Download> = Vec::new();
        let ghost wanted = components_to_install.deep_view();
        let mut i: usize = 0;
        assert(wanted.take(0) =~= Seq::<ComponentView>::empty());
        assert(downloads.deep_view() =~= Seq::<DownloadView>::empty());
        while i < components_to_install.len()
            invariant
                i <= components_to_install.len(),
                wanted == components_to_install.deep_view(),
                downloads_for(new_manifest@, wanted.take(i as int)) == Ok::<
                    Seq<DownloadView>,
                    ErrorView,
                >(downloads.deep_view()),
            decreases components_to_install.len() - i,
        {
            let component = &components_to_install[i];
            let ghost before = downloads.deep_view();
            proof {
                let upto = wanted.take(i + 1);
                assert(upto.drop_last() =~= wanted.take(i as int));
                assert(upto.last() == component@);
            }
            let found = match new_manifest.get_package(component.pkg.as_str()) {
                Ok(package) => package.get_target(component.target.as_str()),
                Err(e) => Err(e),
            };
            match found {
                Ok(target_package) => {
                    let download = Download {
                        component: component.clone(),
                        url: target_package.url.clone(),
                        hash: target_package.hash.clone(),
                    };
                    downloads.push(download);
                    assert(downloads.deep_view() =~= before.push(download@));
                },
                Err(e) => {
                    proof {
                        downloads_for_prefix(new_manifest@, wanted, i + 1);
                    }
                    return Err(e);
                },
            }
            i += 1;
        }
        assert(wanted.take(components_to_install.len() as int) =~= wanted);
        proof {
            downloads_follow_components(new_manifest@, wanted);
            assert forall|i: int, j: int| 0 <= i < j < downloads.deep_view().len() implies (
            #[trigger] downloads.deep_view()[i]).component != (
            #[trigger] downloads.deep_view()[j]).component by {
                assert(wanted[i] != wanted[j]);
            }
        }
        Ok(
            Update {
                status: UpdateStatus::Changed,
                to_uninstall: components_to_uninstall,
                downloads,
                final_list: final_component_list,
            },
        )
    }

    /// Carries an update through in the registry, and hands back the steps
    /// that do the same on disk: see [`update_planned`]. `packages` holds the
    /// unpacked payload of each download, in the order of the downloads;
    /// `manifest_text` and `config_text` are what the manifest and the
    /// configuration files are to hold afterwards.
    ///
    /// An update whose status is `Unchanged` has no steps and leaves the
    /// registry as it is. Where the plan fails the registry is left as it was.
    #[verifier::loop_isolation(false)]
    pub fn plan(
        &mut self,
        update: &Update,
        packages: &Vec<DirectoryPackage>,
        manifest_text: String,
        config_text: String,
    ) -> (res: Result<Plan, Error>)
        ensures
            final(self)@.target_triple == old(self)@.target_triple,
            match update_planned(
                old(self)@.installation,
                update@,
                packages.deep_view(),
                manifest_text@,
                config_text@,
            ) {
                Ok(planned) => {
                    &&& res is Ok
                    &&& res->Ok_0.steps.deep_view() == planned.steps
                    &&& res->Ok_0.notes.deep_view() == planned.notes
                    &&& final(self)@.installation == planned.registry
                },
                Err(e) => {
                    &&& res is Err
                    &&& res->Err_0@ == e
                    &&& final(self)@.installation == old(self)@.installation
                },
            },
    {
        let saved = self.installation.clone();
        let mut steps: Vec<Step> = Vec::new();
        let mut notes: Vec<Notification> = Vec::new();
        let ghost start = Planned {
            registry: self.installation@,
            steps: Seq::<StepView>::empty(),
            notes: Seq::<NotificationView>::empty(),
        };
        assert(steps.deep_view() =~= start.steps);
        assert(notes.deep_view() =~= start.notes);
        if update.status == UpdateStatus::Unchanged {
            return Ok(Plan { steps, notes });
        }
        let ghost leaving = update@.to_uninstall;
        let ghost coming = update@.downloads;

        // Uninstall components
        let mut i: usize = 0;
        assert(leaving.take(0) =~= Seq::<ComponentView>::empty());
        while i < update.to_uninstall.len()
            invariant
                i <= update.to_uninstall.len(),
                leaving == update@.to_uninstall,
                saved@ == start.registry,
                self.target_triple@ == old(self).target_triple@,
                components_uninstalled(start, leaving.take(i as int)) == Ok::<Planned, ErrorView>(
                    Planned {
                        registry: self.installation@,
                        steps: steps.deep_view(),
                        notes: notes.deep_view(),
                    },
                ),
            decreases update.to_uninstall.len() - i,
        {
            proof {
                let upto = leaving.take(i + 1);
                assert(upto.drop_last() =~= leaving.take(i as int));
                assert(upto.last() == update.to_uninstall[i as int]@);
            }
            match uninstall_component(
                &mut self.installation,
                &update.to_uninstall[i],
                &mut steps,
                &mut notes,
            ) {
                Ok(()) => {},
                Err(e) => {
                    proof {
                        components_uninstalled_prefix(start, leaving, i + 1);
                    }
                    self.installation = saved;
                    return Err(e);
                },
            }
            i += 1;
        }
        assert(leaving.take(update.to_uninstall.len() as int) =~= leaving);
        let ghost removed = Planned {
            registry: self.installation@,
            steps: steps.deep_view(),
            notes: notes.deep_view(),
        };

        // Install components
        let mut k: usize = 0;
        assert(coming.take(0) =~= Seq::<DownloadView>::empty());
        while k < update.downloads.len()
            invariant
                k <= update.downloads.len(),
                coming == update@.downloads,
                saved@ == start.registry,
                self.target_triple@ == old(self).target_triple@,
                notes.deep_view() == removed.notes,
                components_installed(removed, coming.take(k as int), packages.deep_view()) == Ok::<
                    Planned,
                    ErrorView,
                >(
                    Planned {
                        registry: self.installation@,
                        steps: steps.deep_view(),
                        notes: notes.deep_view(),
                    },
                ),
            decreases update.downloads.len() - k,
        {
            proof {
                let upto = coming.take(k + 1);
                assert(upto.drop_last() =~= coming.take(k as int));
                assert(upto.last() == update.downloads[k as int]@);
            }
            let package = if k < packages.len() {
                Some(&packages[k])
            } else {
                None
            };
            assert(package.deep_view() == package_at(packages.deep_view(), k as int));
            match install_component(
                &mut self.installation,
                &update.downloads[k].component,
                package,
                &mut steps,
            ) {
                Ok(()) => {},
                Err(e) => {
                    proof {
                        components_installed_prefix(removed, coming, packages.deep_view(), k + 1);
                    }
                    self.installation = saved;
                    return Err(e);
                },
            }
            k += 1;
        }
        assert(coming.take(update.downloads.len() as int) =~= coming);

        // Install new distribution manifest, and write the configuration
        let ghost installed = steps.deep_view();
        let manifest_path = self.installation.prefix().rel_manifest_file(DIST_MANIFEST);
        push_step(&mut steps, Step::Stage { op: Operation::ModifyFile { path: manifest_path.clone() } });
        push_step(&mut steps, Step::Write { path: manifest_path, content: manifest_text });
        let config_path = self.installation.prefix().rel_manifest_file(CONFIG_FILE);
        push_step(&mut steps, Step::Stage { op: Operation::ModifyFile { path: config_path.clone() } });
        push_step(&mut steps, Step::Write { path: config_path, content: config_text });
        assert(steps.deep_view() =~= installed + rewrite(dist_manifest_file(), manifest_text@)
            + rewrite(config_file(), config_text@));
        Ok(Plan { steps, notes })
    }

    /// Removes the installation from the registry, and hands back the steps
    /// that do the same on disk: see [`uninstall_planned`]. `config` is the
    /// configuration that is installed.
    ///
    /// Where it fails the registry is left as it was.
    #[verifier::loop_isolation(false)]
    pub fn uninstall(&mut self, config: &Config) -> (res: Result<Plan, Error>)
        ensures
            final(self)@.target_triple == old(self)@.target_triple,
            match uninstall_planned(old(self)@.installation, config@) {
                Ok(planned) => {
                    &&& res is Ok
                    &&& res->Ok_0.steps.deep_view() == planned.steps
                    &&& res->Ok_0.notes.deep_view() == planned.notes
                    &&& final(self)@.installation == planned.registry
                },
                Err(e) => {
                    &&& res is Err
                    &&& res->Err_0@ == e
                    &&& final(self)@.installation == old(self)@.installation
                },
            },
    {
        proof {
            reveal_strlit("dist config");
        }
        let saved = self.installation.clone();
        let mut steps: Vec<Step> = Vec::new();
        let mut notes: Vec<Notification> = Vec::new();

        // Read configuration and delete it
        let config_path = self.installation.prefix().rel_manifest_file(CONFIG_FILE);
        push_step(
            &mut steps,
            Step::Stage {
                op: Operation::RemoveFile { component: "dist config".to_owned(), path: config_path },
            },
        );
        let ghost start = Planned {
            registry: self.installation@,
            steps: steps.deep_view(),
            notes: Seq::<NotificationView>::empty(),
        };
        assert(notes.deep_view() =~= start.notes);
        assert(start.steps =~= seq![
            StepView::Stage {
                op: OperationView::RemoveFile {
                    component: config_owner(),
                    path: rel_manifest_path(config_file()),
                },
            },
        ]);
        let ghost leaving = config@.components;
        let mut i: usize = 0;
        assert(leaving.take(0) =~= Seq::<ComponentView>::empty());
        while i < config.components.len()
            invariant
                i <= config.components.len(),
                leaving == config@.components,
                saved@ == start.registry,
                self.target_triple@ == old(self).target_triple@,
                components_uninstalled(start, leaving.take(i as int)) == Ok::<Planned, ErrorView>(
                    Planned {
                        registry: self.installation@,
                        steps: steps.deep_view(),
                        notes: notes.deep_view(),
                    },
                ),
            decreases config.components.len() - i,
        {
            proof {
                let upto = leaving.take(i + 1);
                assert(upto.drop_last() =~= leaving.take(i as int));
                assert(upto.last() == config.components[i as int]@);
            }
            match uninstall_component(
                &mut self.installation,
                &config.components[i],
                &mut steps,
                &mut notes,
            ) {
                Ok(()) => {},
                Err(e) => {
                    proof {
                        components_uninstalled_prefix(start, leaving, i + 1);
                    }
                    self.installation = saved;
                    return Err(e);
                },
            }
            i += 1;
        }
        assert(leaving.take(config.components.len() as int) =~= leaving);
        Ok(Plan { steps, notes })
    }
}

/// Once components are installed, each of them is found in the registry
/// under its name with the target in it, and so is every component that was
/// found before.
pub proof fn installed_components_are_found(
    before: Planned,
    downloads: Seq<DownloadView>,
    packages: Seq<DirectoryPackageView>,
)
    requires
        components_installed(before, downloads, packages) is Ok,
    ensures
        forall|at: int|
            0 <= at < downloads.len() ==> components_installed(
                before,
                downloads,
                packages,
            )->Ok_0.registry.names.contains(long_name((#[trigger] downloads[at]).component)),
        forall|name: Seq<char>| #[trigger]
            before.registry.names.contains(name) ==> components_installed(
                before,
                downloads,
                packages,
            )->Ok_0.registry.names.contains(name),
    decreases downloads.len(),
{
    if downloads.len() > 0 {
        let fewer = downloads.drop_last();
        let so_far = components_installed(before, fewer, packages)->Ok_0;
        let after = components_installed(before, downloads, packages)->Ok_0;
        installed_components_are_found(before, fewer, packages);
        let added = long_name(downloads.last().component);
        assert(after.registry.names =~= so_far.registry.names.push(added));
        assert(after.registry.names[after.registry.names.len() - 1] == added);
        assert forall|name: Seq<char>| #[trigger]
            so_far.registry.names.contains(name) implies after.registry.names.contains(name) by {
            let i = choose|i: int|
                0 <= i < so_far.registry.names.len() && so_far.registry.names[i] == name;
            assert(after.registry.names[i] == name);
        }
        assert forall|at: int| 0 <= at < downloads.len() implies after.registry.names.contains(
            long_name((#[trigger] downloads[at]).component),
        ) by {
            if at < fewer.len() {
                assert(fewer[at] == downloads[at]);
                assert(so_far.registry.names.contains(long_name(fewer[at].component)));
            }
        }
    }
}

/// Once an update that changes the installation is planned, every component
/// that it was to install is found in the registry under its name with the
/// target in it.
pub proof fn updated_components_are_found(
    registry: ComponentsView,
    update: UpdateView,
    packages: Seq<DirectoryPackageView>,
    manifest_text: Seq<char>,
    config_text: Seq<char>,
    at: int,
)
    requires
        update.status == UpdateStatus::Changed,
        update_planned(registry, update, packages, manifest_text, config_text) is Ok,
        0 <= at < update.downloads.len(),
    ensures
        update_planned(
            registry,
            update,
            packages,
            manifest_text,
            config_text,
        )->Ok_0.registry.names.contains(long_name(update.downloads[at].component)),
        found_installed(
            update_planned(registry, update, packages, manifest_text, config_text)->Ok_0.registry,
            update.downloads[at].component,
        ) is Some,
{
    let start = Planned {
        registry,
        steps: Seq::<StepView>::empty(),
        notes: Seq::<NotificationView>::empty(),
    };
    let removed = components_uninstalled(start, update.to_uninstall)->Ok_0;
    installed_components_are_found(removed, update.downloads, packages);
}

/// Uninstalling one component takes names out of the registry and puts none
/// in; the name under which the component was found is not in it any more.
pub proof fn uninstalled_component_is_absent(before: Planned, c: ComponentView, name: Seq<char>)
    requires
        component_uninstalled(before, c) is Ok,
    ensures
        component_uninstalled(before, c)->Ok_0.registry.names.contains(name)
            ==> before.registry.names.contains(name),
        !component_uninstalled(before, c)->Ok_0.registry.names.contains(long_name(c)),
        !before.registry.names.contains(long_name(c)) ==> !component_uninstalled(
            before,
            c,
        )->Ok_0.registry.names.contains(c.pkg),
{
    let after = component_uninstalled(before, c)->Ok_0;
    match installed_name(before.registry, c) {
        Some(found) => {
            let lines = Seq::<Seq<char>>::empty();
            crate::components::registry_without_lacks(before.registry, found);
            if name != found {
                crate::components::registry_consistency(before.registry, found, lines, name);
            }
            if long_name(c) != found {
                crate::components::registry_consistency(
                    before.registry,
                    found,
                    lines,
                    long_name(c),
                );
            }
            if c.pkg != found {
                crate::components::registry_consistency(before.registry, found, lines, c.pkg);
            }
        },
        None => {},
    }
}

/// Uninstalling components takes names out of the registry and puts none in.
pub proof fn uninstalling_only_removes(
    before: Planned,
    components: Seq<ComponentView>,
    name: Seq<char>,
)
    requires
        components_uninstalled(before, components) is Ok,
        components_uninstalled(before, components)->Ok_0.registry.names.contains(name),
    ensures
        before.registry.names.contains(name),
    decreases components.len(),
{
    if components.len() > 0 {
        let so_far = components_uninstalled(before, components.drop_last())->Ok_0;
        uninstalled_component_is_absent(so_far, components.last(), name);
        uninstalling_only_removes(before, components.drop_last(), name);
    }
}

/// Once components are uninstalled, none of them is found in the registry
/// under its name with the target in it. One that the registry did not hold
/// under that name to begin with is not found under the name of its package
/// either.
pub proof fn uninstalled_components_are_absent(
    before: Planned,
    components: Seq<ComponentView>,
    at: int,
)
    requires
        components_uninstalled(before, components) is Ok,
        0 <= at < components.len(),
    ensures
        !components_uninstalled(before, components)->Ok_0.registry.names.contains(
            long_name(components[at]),
        ),
        !before.registry.names.contains(long_name(components[at])) ==> !components_uninstalled(
            before,
            components,
        )->Ok_0.registry.names.contains(components[at].pkg),
    decreases components.len(),
{
    let fewer = components.drop_last();
    let so_far = components_uninstalled(before, fewer)->Ok_0;
    let c = components[at];
    if at < components.len() - 1 {
        assert(fewer[at] == c);
        uninstalled_components_are_absent(before, fewer, at);
        uninstalled_component_is_absent(so_far, components.last(), long_name(c));
        uninstalled_component_is_absent(so_far, components.last(), c.pkg);
    } else {
        uninstalled_component_is_absent(so_far, c, long_name(c));
        if so_far.registry.names.contains(long_name(c)) {
            uninstalling_only_removes(before, fewer, long_name(c));
        }
    }
}

/// Installing components puts their names with the target in them into the
/// registry, and no other names.
pub proof fn installing_only_adds_their_names(
    before: Planned,
    downloads: Seq<DownloadView>,
    packages: Seq<DirectoryPackageView>,
    name: Seq<char>,
)
    requires
        components_installed(before, downloads, packages) is Ok,
        components_installed(before, downloads, packages)->Ok_0.registry.names.contains(name),
        forall|k: int|
            0 <= k < downloads.len() ==> long_name((#[trigger] downloads[k]).component) != name,
    ensures
        before.registry.names.contains(name),
    decreases downloads.len(),
{
    if downloads.len() > 0 {
        let fewer = downloads.drop_last();
        let so_far = components_installed(before, fewer, packages)->Ok_0;
        let after = components_installed(before, downloads, packages)->Ok_0;
        let added = long_name(downloads.last().component);
        assert(downloads[downloads.len() - 1] == downloads.last());
        assert(after.registry.names =~= so_far.registry.names.push(added));
        let i = choose|i: int| 0 <= i < after.registry.names.len() && after.registry.names[i] == name;
        assert(i < so_far.registry.names.len());
        assert(so_far.registry.names[i] == name);
        assert forall|k: int| 0 <= k < fewer.len() implies long_name(
            (#[trigger] fewer[k]).component,
        ) != name by {
            assert(fewer[k] == downloads[k]);
        }
        installing_only_adds_their_names(before, fewer, packages, name);
    }
}

/// Once an update that changes the installation is planned, a component that
/// it was to uninstall is not found in the registry under its name with the
/// target in it, unless a component that was installed goes by that name.
/// One that the registry did not hold under that name to begin with is not
/// found under the name of its package either, unless a component that was
/// installed goes by that name; so it is not found at all where no component
/// that was installed goes by either of its names.
pub proof fn updated_components_are_absent(
    registry: ComponentsView,
    update: UpdateView,
    packages: Seq<DirectoryPackageView>,
    manifest_text: Seq<char>,
    config_text: Seq<char>,
    at: int,
)
    requires
        update.status == UpdateStatus::Changed,
        update_planned(registry, update, packages, manifest_text, config_text) is Ok,
        0 <= at < update.to_uninstall.len(),
    ensures
        ({
            let after = update_planned(
                registry,
                update,
                packages,
                manifest_text,
                config_text,
            )->Ok_0.registry;
            let c = update.to_uninstall[at];
            &&& (forall|k: int|
                0 <= k < update.downloads.len() ==> long_name(
                    (#[trigger] update.downloads[k]).component,
                ) != long_name(c)) ==> !after.names.contains(long_name(c))
            &&& (!registry.names.contains(long_name(c)) && forall|k: int|
                0 <= k < update.downloads.len() ==> long_name(
                    (#[trigger] update.downloads[k]).component,
                ) != c.pkg) ==> !after.names.contains(c.pkg)
            &&& (!registry.names.contains(long_name(c)) && forall|k: int|
                0 <= k < update.downloads.len() ==> long_name(
                    (#[trigger] update.downloads[k]).component,
                ) != long_name(c) && long_name(update.downloads[k].component) != c.pkg)
                ==> found_installed(after, c) is None
        }),
{
    let start = Planned {
        registry,
        steps: Seq::<StepView>::empty(),
        notes: Seq::<NotificationView>::empty(),
    };
    let removed = components_uninstalled(start, update.to_uninstall)->Ok_0;
    let after = components_installed(removed, update.downloads, packages)->Ok_0.registry;
    let c = update.to_uninstall[at];
    uninstalled_components_are_absent(start, update.to_uninstall, at);
    if after.names.contains(long_name(c)) && forall|k: int|
        0 <= k < update.downloads.len() ==> long_name((#[trigger] update.downloads[k]).component)
            != long_name(c) {
        installing_only_adds_their_names(removed, update.downloads, packages, long_name(c));
    }
    if after.names.contains(c.pkg) && forall|k: int|
        0 <= k < update.downloads.len() ==> long_name((#[trigger] update.downloads[k]).component)
            != c.pkg {
        installing_only_adds_their_names(removed, update.downloads, packages, c.pkg);
    }
}

/// Uninstalling components adds no write to a plan that is not announced.
pub proof fn components_uninstalled_announce(before: Planned, components: Seq<ComponentView>)
    requires
        writes_announced(before.steps),
    ensures
        components_uninstalled(before, components) is Ok ==> writes_announced(
            components_uninstalled(before, components)->Ok_0.steps,
        ),
    decreases components.len(),
{
    if components.len() > 0 {
        components_uninstalled_announce(before, components.drop_last());
        match components_uninstalled(before, components.drop_last()) {
            Ok(so_far) => {
                let c = components.last();
                match installed_name(so_far.registry, c) {
                    Some(name) => match owned_parts(handle(so_far.registry, name)) {
                        Some(parts) => {
                            crate::components::uninstall_steps_announce(
                                so_far.registry,
                                name,
                                parts,
                            );
                            crate::transaction::announced_steps_concat(
                                so_far.steps,
                                uninstall_steps(so_far.registry, name, parts),
                            );
                        },
                        None => {},
                    },
                    None => {},
                }
            },
            Err(_) => {},
        }
    }
}

/// Installing components adds no write to a plan that is not announced.
pub proof fn components_installed_announce(
    before: Planned,
    downloads: Seq<DownloadView>,
    packages: Seq<DirectoryPackageView>,
)
    requires
        writes_announced(before.steps),
    ensures
        components_installed(before, downloads, packages) is Ok ==> writes_announced(
            components_installed(before, downloads, packages)->Ok_0.steps,
        ),
    decreases downloads.len(),
{
    if downloads.len() > 0 {
        components_installed_announce(before, downloads.drop_last(), packages);
        match components_installed(before, downloads.drop_last(), packages) {
            Ok(so_far) => {
                let c = downloads.last().component;
                let package = package_at(packages, downloads.len() - 1);
                if component_installed(so_far, c, package) is Ok {
                    let name = long_name(c);
                    let short = Some(c.pkg);
                    let parts = declared_parts(package->0, name, short)->0;
                    let gathered = copies(
                        name,
                        joined(package->0.path, actual_name(package->0, name, short)),
                        parts,
                    );
                    let builder = BuilderView { name, parts, steps: gathered };
                    assert(crate::transaction::all_staged(gathered));
                    crate::transaction::staged_steps_announce(gathered);
                    crate::components::install_steps_announce(so_far.registry, builder);
                    crate::transaction::announced_steps_concat(
                        so_far.steps,
                        install_steps(so_far.registry, builder),
                    );
                }
            },
            Err(_) => {},
        }
    }
}

/// Every plan writes only to files that the step before has put under
/// modification: so each write is made to a path that the journal of the
/// transaction has a record of, and is undone when the transaction is rolled
/// back.
pub proof fn plans_announce_writes(
    registry: ComponentsView,
    update: UpdateView,
    packages: Seq<DirectoryPackageView>,
    manifest_text: Seq<char>,
    config_text: Seq<char>,
    config: ConfigView,
)
    ensures
        update_planned(registry, update, packages, manifest_text, config_text) is Ok
            ==> writes_announced(
            update_planned(registry, update, packages, manifest_text, config_text)->Ok_0.steps,
        ),
        uninstall_planned(registry, config) is Ok ==> writes_announced(
            uninstall_planned(registry, config)->Ok_0.steps,
        ),
{
    let start = Planned {
        registry,
        steps: Seq::<StepView>::empty(),
        notes: Seq::<NotificationView>::empty(),
    };
    assert(writes_announced(start.steps));
    components_uninstalled_announce(start, update.to_uninstall);
    match components_uninstalled(start, update.to_uninstall) {
        Ok(removed) => {
            components_installed_announce(removed, update.downloads, packages);
            match components_installed(removed, update.downloads, packages) {
                Ok(installed) => {
                    let manifest = rewrite(dist_manifest_file(), manifest_text);
                    let configuration = rewrite(config_file(), config_text);
                    crate::transaction::announced_steps_concat(installed.steps, manifest);
                    crate::transaction::announced_steps_concat(
                        installed.steps + manifest,
                        configuration,
                    );
                },
                Err(_) => {},
            }
        },
        Err(_) => {},
    }
    let removal = Planned {
        registry,
        steps: seq![
            StepView::Stage {
                op: OperationView::RemoveFile {
                    component: config_owner(),
                    path: rel_manifest_path(config_file()),
                },
            },
        ],
        notes: Seq::<NotificationView>::empty(),
    };
    components_uninstalled_announce(removal, config.components);
}

/// The payloads of components are as many as the components, and each is
/// that of the component at its place.
pub proof fn downloads_follow_components(manifest: ManifestView, components: Seq<ComponentView>)
    requires
        downloads_for(manifest, components) is Ok,
    ensures
        downloads_for(manifest, components)->Ok_0.len() == components.len(),
        forall|i: int|
            0 <= i < components.len() ==> (#[trigger] downloads_for(
                manifest,
                components,
            )->Ok_0[i]).component == components[i],
    decreases components.len(),
{
    if components.len() > 0 {
        downloads_follow_components(manifest, components.drop_last());
        let fewer = downloads_for(manifest, components.drop_last())->Ok_0;
        let all = downloads_for(manifest, components)->Ok_0;
        assert forall|i: int| 0 <= i < components.len() implies (#[trigger] all[i]).component
            == components[i] by {
            if i < components.len() - 1 {
                assert(all[i] == fewer[i]);
                assert(components.drop_last()[i] == components[i]);
            }
        }
    }
}

/// Where the manifest lacks the payload of one of the first components, the
/// payloads of all of them fail in the same way.
pub proof fn downloads_for_prefix(manifest: ManifestView, components: Seq<ComponentView>, n: int)
    requires
        0 <= n <= components.len(),
        downloads_for(manifest, components.take(n)) is Err,
    ensures
        downloads_for(manifest, components) == downloads_for(manifest, components.take(n)),
    decreases components.len(),
{
    if n < components.len() {
        assert(components.drop_last().take(n) =~= components.take(n));
        downloads_for_prefix(manifest, components.drop_last(), n);
    } else {
        assert(components.take(n) =~= components);
    }
}

} // verus!
