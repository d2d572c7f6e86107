//! The registry of installed components: which components an installation
//! holds, and the paths that each of them owns.
//!
//! The registry is kept in three kinds of files in the metadata directory of
//! the prefix: `components` lists the installed components, one name a line;
//! `manifest-<name>` lists the paths that a component owns, one
//! `<kind>:<path>` a line; `rust-installer-version` holds the number of the
//! format. A [`Components`] value is the content of these files; what changes
//! it also says how to change the files, as steps for a transaction.

use crate::errors::{Error, ErrorView};
use crate::manifest::lookup;
use crate::prefix::{rel_manifest_path, InstallPrefix};
use crate::text::{
    clone_strings, holds, lines, lines_of, split_at_first, split_once, trim, trimmed, unlines,
    unlines_of,
};
use crate::transaction::{
    all_staged, announced_steps_concat, push_step, staged_steps_announce, writes_announced,
    Operation, OperationView, Step, StepView,
};
use vstd::prelude::*;
use vstd::string::*;

verus! {

/// The name of the file that lists the installed components.
pub open spec fn components_file() -> Seq<char> {
    "components"@
}

/// The name of the file that holds the number of the metadata format.
pub open spec fn version_file() -> Seq<char> {
    "rust-installer-version"@
}

/// The number of the metadata format that is written.
pub open spec fn installer_version() -> Seq<char> {
    "3"@
}

/// The name of the file that lists what the component `name` owns.
pub open spec fn manifest_name(name: Seq<char>) -> Seq<char> {
    "manifest-"@ + name
}

/// Whether `c` is a decimal digit.
pub open spec fn is_digit(c: char) -> bool {
    '0' <= c <= '9'
}

/// Whether `text` is a decimal numeral: one digit or more, and nothing else.
pub open spec fn is_numeral(text: Seq<char>) -> bool {
    text.len() > 0 && forall|i: int| 0 <= i < text.len() ==> is_digit(#[trigger] text[i])
}

/// The number that a decimal numeral stands for.
pub open spec fn numeral_value(text: Seq<char>) -> nat
    decreases text.len(),
{
    if text.len() == 0 {
        0
    } else {
        numeral_value(text.drop_last()) * 10 + (text.last() as nat - '0' as nat) as nat
    }
}

/// The highest number of a metadata format that is understood.
pub const SUPPORTED_VERSION: u32 = 3;

/// Whether installed metadata with this version marker can be read: the
/// marker is a numeral that does not exceed [`SUPPORTED_VERSION`].
pub open spec fn version_understood(marker: Seq<char>) -> bool {
    is_numeral(marker) && numeral_value(marker) <= SUPPORTED_VERSION
}

/// Whether a package image with this version marker can be installed: the
/// marker is a numeral with the value [`SUPPORTED_VERSION`].
pub open spec fn version_supported(marker: Seq<char>) -> bool {
    is_numeral(marker) && numeral_value(marker) == SUPPORTED_VERSION
}

/// The number that `marker` stands for, as far as it matters: `None` when
/// `marker` is no numeral, and no more than 1000 however large the number.
pub fn version_number(marker: &str) -> (number: Option<u32>)
    ensures
        number is Some == is_numeral(marker@),
        number is Some ==> number->0 == if numeral_value(marker@) < 1000 {
            numeral_value(marker@)
        } else {
            1000
        },
{
    let chars = crate::text::chars_of(marker);
    if chars.len() == 0 {
        return None;
    }
    let mut value: u32 = 0;
    let mut i: usize = 0;
    assert(chars@.take(0) =~= Seq::<char>::empty());
    while i < chars.len()
        invariant
            i <= chars.len(),
            chars@ == marker@,
            forall|j: int| 0 <= j < i ==> is_digit(#[trigger] chars@[j]),
            value <= 1000,
            value == if numeral_value(chars@.take(i as int)) < 1000 {
                numeral_value(chars@.take(i as int))
            } else {
                1000
            },
        decreases chars.len() - i,
    {
        let c = chars[i];
        if c < '0' || c > '9' {
            assert(!is_digit(marker@[i as int]));
            return None;
        }
        let digit: u32 = c as u32 - '0' as u32;
        proof {
            let upto = chars@.take(i + 1);
            assert(upto.drop_last() =~= chars@.take(i as int));
            assert(upto.last() == c);
        }
        let next: u32 = value * 10 + digit;
        value = if next < 1000 {
            next
        } else {
            1000
        };
        i += 1;
    }
    assert(chars@.take(chars.len() as int) =~= chars@);
    Some(value)
}

/// One path that a component owns: a file or a directory.
#[derive(Debug)]
pub struct ComponentPart {
    pub kind: String,
    pub path: String,
}

/// The mathematical value of a [`ComponentPart`].
pub struct PartView {
    pub kind: Seq<char>,
    pub path: Seq<char>,
}

impl View for ComponentPart {
    type V = PartView;

    open spec fn view(&self) -> PartView {
        PartView { kind: self.kind@, path: self.path@ }
    }
}

impl DeepView for ComponentPart {
    type V = PartView;

    open spec fn deep_view(&self) -> PartView {
        self@
    }
}

/// The kind of a part that is a file.
pub open spec fn file_kind() -> Seq<char> {
    "file"@
}

/// The kind of a part that is a directory.
pub open spec fn dir_kind() -> Seq<char> {
    "dir"@
}

/// The line that stands for a part: its kind, a colon, its path.
pub open spec fn encoded(part: PartView) -> Seq<char> {
    part.kind + seq![':'] + part.path
}

/// The part that a line stands for: what is before the first colon is the
/// kind, what is after it the path. A line without a colon stands for none.
pub open spec fn decoded(line: Seq<char>) -> Option<PartView> {
    match split_at_first(line, ':') {
        Some((kind, path)) => Some(PartView { kind, path }),
        None => None,
    }
}

/// The lines that stand for `parts`.
pub open spec fn encoded_lines(parts: Seq<PartView>) -> Seq<Seq<char>> {
    Seq::new(parts.len(), |i: int| encoded(parts[i]))
}

/// The parts that `lines` stand for, or `None` where a line stands for none.
pub open spec fn parts_of(lines: Seq<Seq<char>>) -> Option<Seq<PartView>>
    decreases lines.len(),
{
    if lines.len() == 0 {
        Some(Seq::empty())
    } else {
        match (parts_of(lines.drop_last()), decoded(lines.last())) {
            (Some(parts), Some(part)) => Some(parts.push(part)),
            _ => None,
        }
    }
}

impl Clone for ComponentPart {
    fn clone(&self) -> (copy: ComponentPart)
        ensures
            copy@ == self@,
    {
        ComponentPart { kind: self.kind.clone(), path: self.path.clone() }
    }
}

impl ComponentPart {
    /// The line that stands for this part.
    pub fn encode(&self) -> (line: String)
        ensures
            line@ == encoded(self@),
    {
        proof {
            reveal_strlit(":");
            assert(":"@ =~= seq![':']);
        }
        let mut line = self.kind.clone();
        line.append(":");
        line.append(self.path.as_str());
        line
    }

    /// The part that `line` stands for, if it stands for one.
    pub fn decode(line: &str) -> (part: Option<ComponentPart>)
        ensures
            part.deep_view() == decoded(line@),
    {
        match split_once(line, ':') {
            Some((kind, path)) => Some(ComponentPart { kind, path }),
            None => None,
        }
    }
}

/// The parts that `lines` stand for, or `None` where a line stands for none.
pub fn decode_lines(lines: &Vec<String>) -> (parts: Option<Vec<ComponentPart>>)
    ensures
        parts.deep_view() == parts_of(lines.deep_view()),
{
    let mut parts: Vec<ComponentPart> = Vec::new();
    let mut i: usize = 0;
    assert(lines.deep_view().take(0) =~= Seq::<Seq<char>>::empty());
    assert(parts.deep_view() =~= Seq::<PartView>::empty());
    while i < lines.len()
        invariant
            i <= lines.len(),
            parts_of(lines.deep_view().take(i as int)) == Some(parts.deep_view()),
        decreases lines.len() - i,
    {
        let ghost before = parts.deep_view();
        proof {
            let upto = lines.deep_view().take(i + 1);
            assert(upto.drop_last() =~= lines.deep_view().take(i as int));
            assert(upto.last() == lines[i as int]@);
        }
        match ComponentPart::decode(lines[i].as_str()) {
            Some(part) => {
                parts.push(part);
                assert(parts.deep_view() =~= before.push(part@));
            },
            None => {
                proof {
                    parts_of_prefix(lines.deep_view(), i + 1);
                }
                return None;
            },
        }
        i += 1;
    }
    assert(lines.deep_view().take(lines.len() as int) =~= lines.deep_view());
    Some(parts)
}

/// Where the first lines stand for no parts, neither do all of them.
pub proof fn parts_of_prefix(lines: Seq<Seq<char>>, n: int)
    requires
        0 <= n <= lines.len(),
        parts_of(lines.take(n)) is None,
    ensures
        parts_of(lines) is None,
    decreases lines.len(),
{
    if n < lines.len() {
        assert(lines.drop_last().take(n) =~= lines.take(n));
        parts_of_prefix(lines.drop_last(), n);
    } else {
        assert(lines.take(n) =~= lines);
    }
}

/// The content of the registry's files, as read from the metadata directory
/// of a prefix: the version marker and the list of components, each `None`
/// where the file does not exist, and the list of what each component owns,
/// by component name.
#[derive(Debug)]
pub struct Metadata {
    pub version: Option<String>,
    pub components: Option<String>,
    pub manifests: Vec<(String, String)>,
}

/// The mathematical value of [`Metadata`].
pub struct MetadataView {
    pub version: Option<Seq<char>>,
    pub components: Option<Seq<char>>,
    pub manifests: Seq<(Seq<char>, Seq<char>)>,
}

impl View for Metadata {
    type V = MetadataView;

    open spec fn view(&self) -> MetadataView {
        MetadataView {
            version: self.version.deep_view(),
            components: self.components.deep_view(),
            manifests: self.manifests.deep_view(),
        }
    }
}

/// The registry of one prefix: the names of the installed components, in the
/// order in which they were installed, and for each the lines that list what
/// it owns.
#[derive(Debug)]
pub struct Components {
    prefix: InstallPrefix,
    names: Vec<String>,
    manifests: Vec<(String, Vec<String>)>,
}

/// The mathematical value of a [`Components`].
pub struct ComponentsView {
    pub prefix: Seq<char>,
    pub names: Seq<Seq<char>>,
    pub manifests: Seq<(Seq<char>, Seq<Seq<char>>)>,
}

impl View for Components {
    type V = ComponentsView;

    closed spec fn view(&self) -> ComponentsView {
        ComponentsView {
            prefix: self.prefix@,
            names: self.names.deep_view(),
            manifests: self.manifests.deep_view(),
        }
    }
}

impl Clone for Components {
    fn clone(&self) -> (copy: Components)
        ensures
            copy@ == self@,
    {
        let mut manifests: Vec<(String, Vec<String>)> = Vec::new();
        let mut i: usize = 0;
        while i < self.manifests.len()
            invariant
                i <= self.manifests.len(),
                manifests.len() == i,
                forall|j: int|
                    0 <= j < i ==> manifests[j].deep_view() == self.manifests[j].deep_view(),
            decreases self.manifests.len() - i,
        {
            manifests.push((self.manifests[i].0.clone(), clone_strings(&self.manifests[i].1)));
            i += 1;
        }
        assert(manifests.deep_view() =~= self.manifests.deep_view());
        Components { prefix: self.prefix.clone(), names: clone_strings(&self.names), manifests }
    }
}

/// An installed component, as the registry hands it out: its name and the
/// lines that list what it owns, where the registry has them.
#[derive(Debug)]
pub struct InstalledComponent {
    name: String,
    manifest: Option<Vec<String>>,
}

/// The mathematical value of an [`InstalledComponent`].
pub struct InstalledView {
    pub name: Seq<char>,
    pub manifest: Option<Seq<Seq<char>>>,
}

impl View for InstalledComponent {
    type V = InstalledView;

    closed spec fn view(&self) -> InstalledView {
        InstalledView { name: self.name@, manifest: self.manifest.deep_view() }
    }
}

impl DeepView for InstalledComponent {
    type V = InstalledView;

    open spec fn deep_view(&self) -> InstalledView {
        self@
    }
}

/// The lines of each text.
pub open spec fn manifests_read(texts: Seq<(Seq<char>, Seq<char>)>) -> Seq<
    (Seq<char>, Seq<Seq<char>>),
> {
    Seq::new(texts.len(), |i: int| (texts[i].0, lines_of(texts[i].1)))
}

/// The registry that the metadata holds.
pub open spec fn registry_read(prefix: Seq<char>, metadata: MetadataView) -> ComponentsView {
    ComponentsView {
        prefix,
        names: match metadata.components {
            Some(text) => lines_of(text),
            None => Seq::empty(),
        },
        manifests: manifests_read(metadata.manifests),
    }
}

/// The handle of the component `name`.
pub open spec fn handle(registry: ComponentsView, name: Seq<char>) -> InstalledView {
    InstalledView { name, manifest: lookup(registry.manifests, name) }
}

/// The registry with the component `name`, which owns what `lines` list,
/// installed last.
pub open spec fn registry_with(
    registry: ComponentsView,
    name: Seq<char>,
    lines: Seq<Seq<char>>,
) -> ComponentsView {
    ComponentsView {
        prefix: registry.prefix,
        names: registry.names.push(name),
        manifests: registry.manifests.push((name, lines)),
    }
}

/// The test for a name other than `name`.
pub open spec fn not_named(name: Seq<char>) -> spec_fn(Seq<char>) -> bool {
    |n: Seq<char>| n != name
}

/// The test for a list that is not that of the component `name`.
pub open spec fn not_filed_under(name: Seq<char>) -> spec_fn((Seq<char>, Seq<Seq<char>>)) -> bool {
    |e: (Seq<char>, Seq<Seq<char>>)| e.0 != name
}

/// The registry without anything about the component `name`.
pub open spec fn registry_without(registry: ComponentsView, name: Seq<char>) -> ComponentsView {
    ComponentsView {
        prefix: registry.prefix,
        names: registry.names.filter(not_named(name)),
        manifests: registry.manifests.filter(not_filed_under(name)),
    }
}

impl Components {
    /// The registry of the installation at `prefix`, whose metadata files hold
    /// `metadata`. Without a list of components the registry is empty.
    ///
    /// Fails with `BadInstalledMetadataVersion` when there is a version marker
    /// and it is not understood (see [`version_understood`]); the error holds
    /// the marker without the white space around it.
    pub fn open(prefix: InstallPrefix, metadata: &Metadata) -> (opened: Result<Components, Error>)
        ensures
            match opened {
                Ok(registry) => {
                    &&& metadata@.version is Some ==> version_understood(
                        trimmed(metadata@.version->0),
                    )
                    &&& registry@ == registry_read(prefix@, metadata@)
                },
                Err(e) => {
                    &&& metadata@.version is Some
                    &&& !version_understood(trimmed(metadata@.version->0))
                    &&& e@ == (ErrorView::BadInstalledMetadataVersion {
                        version: trimmed(metadata@.version->0),
                    })
                },
            },
    {
        match &metadata.version {
            Some(text) => {
                let marker = trim(text.as_str());
                let understood = match version_number(marker.as_str()) {
                    Some(n) => n <= SUPPORTED_VERSION,
                    None => false,
                };
                if !understood {
                    return Err(Error::BadInstalledMetadataVersion { version: marker });
                }
            },
            None => {},
        }
        let names: Vec<String> = match &metadata.components {
            Some(text) => lines(text.as_str()),
            None => Vec::new(),
        };
        let mut manifests: Vec<(String, Vec<String>)> = Vec::new();
        let mut i: usize = 0;
        while i < metadata.manifests.len()
            invariant
                i <= metadata.manifests.len(),
                manifests.len() == i,
                forall|j: int|
                    0 <= j < i ==> manifests[j].deep_view() == (
                        metadata.manifests[j].0@,
                        lines_of(metadata.manifests[j].1@),
                    ),
            decreases metadata.manifests.len() - i,
        {
            let entry = &metadata.manifests[i];
            manifests.push((entry.0.clone(), lines(entry.1.as_str())));
            i += 1;
        }
        let registry = Components { prefix, names, manifests };
        proof {
            assert(registry.manifests.deep_view() =~= manifests_read(metadata@.manifests));
            if metadata@.components is None {
                assert(registry.names.deep_view() =~= Seq::<Seq<char>>::empty());
            }
        }
        Ok(registry)
    }

    /// The prefix that this registry belongs to.
    pub fn prefix(&self) -> (prefix: InstallPrefix)
        ensures
            prefix@ == self@.prefix,
    {
        self.prefix.clone()
    }

    fn manifest_of(&self, name: &String) -> (found: Option<Vec<String>>)
        ensures
            found.deep_view() == lookup(self@.manifests, name@),
    {
        let mut i: usize = 0;
        assert(self@.manifests.skip(0) =~= self@.manifests);
        while i < self.manifests.len()
            invariant
                i <= self.manifests.len(),
                lookup(self@.manifests, name@) == lookup(self@.manifests.skip(i as int), name@),
            decreases self.manifests.len() - i,
        {
            let ghost rest = self@.manifests.skip(i as int);
            assert(rest[0] == self@.manifests[i as int]);
            assert(rest.drop_first() =~= self@.manifests.skip(i + 1));
            assert(rest[0].0 == self.manifests[i as int].0@);
            if self.manifests[i].0 == *name {
                assert(rest[0].1 == self.manifests[i as int].1.deep_view());
                return Some(clone_strings(&self.manifests[i].1));
            }
            i += 1;
        }
        None
    }

    /// The component called `name`, where one is installed.
    pub fn find(&self, name: &str) -> (found: Option<InstalledComponent>)
        ensures
            match found {
                Some(c) => self@.names.contains(name@) && c@ == handle(self@, name@),
                None => !self@.names.contains(name@),
            },
    {
        if holds(&self.names, name) {
            let name = name.to_owned();
            let manifest = self.manifest_of(&name);
            Some(InstalledComponent { name, manifest })
        } else {
            None
        }
    }

    /// The installed components, in the order in which they were installed.
    pub fn list(&self) -> (all: Vec<InstalledComponent>)
        ensures
            all.len() == self@.names.len(),
            forall|i: int|
                0 <= i < all.len() ==> (#[trigger] all[i])@ == handle(self@, self@.names[i]),
    {
        let mut all: Vec<InstalledComponent> = Vec::new();
        let mut i: usize = 0;
        while i < self.names.len()
            invariant
                i <= self.names.len(),
                all.len() == i,
                forall|j: int| 0 <= j < i ==> (#[trigger] all[j])@ == handle(self@, self@.names[j]),
            decreases self.names.len() - i,
        {
            let name = self.names[i].clone();
            let manifest = self.manifest_of(&name);
            all.push(InstalledComponent { name, manifest });
            i += 1;
        }
        all
    }
}

/// Whether every part is a file or a directory.
pub open spec fn kinds_known(parts: Seq<PartView>) -> bool {
    forall|i: int|
        0 <= i < parts.len() ==> (#[trigger] parts[i]).kind == file_kind() || parts[i].kind
            == dir_kind()
}

/// What a component owns, as far as its list can be read: `None` where the
/// registry has no list for it, where a line of the list stands for no part,
/// or where a part is neither a file nor a directory.
pub open spec fn owned_parts(component: InstalledView) -> Option<Seq<PartView>> {
    match component.manifest {
        Some(lines) => match parts_of(lines) {
            Some(parts) => if kinds_known(parts) {
                Some(parts)
            } else {
                None
            },
            None => None,
        },
        None => None,
    }
}

/// The step that removes one file of the component `name`.
pub open spec fn file_removal(name: Seq<char>, path: Seq<char>) -> StepView {
    StepView::Stage { op: OperationView::RemoveFile { component: name, path } }
}

/// The step that removes one directory of the component `name`.
pub open spec fn dir_removal(name: Seq<char>, path: Seq<char>) -> StepView {
    StepView::Stage { op: OperationView::RemoveDir { component: name, path } }
}

/// The removals of the files among `parts`, the last part first.
pub open spec fn file_removals(name: Seq<char>, parts: Seq<PartView>) -> Seq<StepView>
    decreases parts.len(),
{
    if parts.len() == 0 {
        Seq::empty()
    } else if parts.last().kind == file_kind() {
        seq![file_removal(name, parts.last().path)] + file_removals(name, parts.drop_last())
    } else {
        file_removals(name, parts.drop_last())
    }
}

/// The removals of the directories among `parts`, the last part first.
pub open spec fn dir_removals(name: Seq<char>, parts: Seq<PartView>) -> Seq<StepView>
    decreases parts.len(),
{
    if parts.len() == 0 {
        Seq::empty()
    } else if parts.last().kind == dir_kind() {
        seq![dir_removal(name, parts.last().path)] + dir_removals(name, parts.drop_last())
    } else {
        dir_removals(name, parts.drop_last())
    }
}

/// The two steps that replace the metadata file called `file` by `content`.
pub open spec fn rewrite(file: Seq<char>, content: Seq<char>) -> Seq<StepView> {
    seq![
        StepView::Stage { op: OperationView::ModifyFile { path: rel_manifest_path(file) } },
        StepView::Write { path: rel_manifest_path(file), content },
    ]
}

/// The steps that uninstall the component `name`, which owns `parts`, from an
/// installation with the given registry: the list of components is rewritten
/// without the name; then the component's files are removed, then its
/// directories, so that no file is removed after a directory that held it;
/// at last the list of what the component owned is removed.
pub open spec fn uninstall_steps(
    registry: ComponentsView,
    name: Seq<char>,
    parts: Seq<PartView>,
) -> Seq<StepView> {
    rewrite(components_file(), unlines_of(registry_without(registry, name).names))
        + file_removals(name, parts) + dir_removals(name, parts) + seq![
        file_removal(name, rel_manifest_path(manifest_name(name))),
    ]
}

/// What a [`ComponentBuilder`] has gathered: the name of the component, what
/// it owns so far, and the steps that put it there.
pub struct BuilderView {
    pub name: Seq<char>,
    pub parts: Seq<PartView>,
    pub steps: Seq<StepView>,
}

/// The steps that install a component into an installation with the given
/// registry: what the builder gathered; then the list of what the component
/// owns is written, the list of components is rewritten with the name at its
/// end, and the version marker is rewritten.
pub open spec fn install_steps(registry: ComponentsView, builder: BuilderView) -> Seq<StepView> {
    builder.steps + seq![
        StepView::Stage {
            op: OperationView::WriteFile {
                component: builder.name,
                path: rel_manifest_path(manifest_name(builder.name)),
                content: unlines_of(encoded_lines(builder.parts)),
            },
        },
    ] + rewrite(components_file(), unlines_of(registry.names.push(builder.name))) + rewrite(
        version_file(),
        installer_version(),
    )
}

/// The strings of `list` that are not `name`.
fn others(list: &Vec<String>, name: &String) -> (rest: Vec<String>)
    ensures
        rest.deep_view() == list.deep_view().filter(not_named(name@)),
{
    let mut rest: Vec<String> = Vec::new();
    let ghost keep = not_named(name@);
    let mut i: usize = 0;
    proof {
        reveal(Seq::filter);
        assert(list.deep_view().take(0).filter(keep) =~= rest.deep_view());
    }
    while i < list.len()
        invariant
            i <= list.len(),
            keep == not_named(name@),
            rest.deep_view() == list.deep_view().take(i as int).filter(keep),
        decreases list.len() - i,
    {
        let ghost before = rest.deep_view();
        proof {
            assert(list.deep_view().take(i + 1) =~= list.deep_view().take(i as int).push(
                list[i as int]@,
            ));
            list.deep_view().take(i as int).lemma_filter_push(list[i as int]@, keep);
        }
        if list[i] != *name {
            rest.push(list[i].clone());
            assert(rest.deep_view() =~= before.push(list[i as int]@));
        }
        i += 1;
    }
    assert(list.deep_view().take(list.len() as int) =~= list.deep_view());
    rest
}

/// The entries of `list` that are not filed under `name`.
fn other_manifests(list: &Vec<(String, Vec<String>)>, name: &String) -> (rest: Vec<
    (String, Vec<String>),
>)
    ensures
        rest.deep_view() == list.deep_view().filter(not_filed_under(name@)),
{
    let mut rest: Vec<(String, Vec<String>)> = Vec::new();
    let ghost keep = not_filed_under(name@);
    let mut i: usize = 0;
    proof {
        reveal(Seq::filter);
        assert(list.deep_view().take(0).filter(keep) =~= rest.deep_view());
    }
    while i < list.len()
        invariant
            i <= list.len(),
            keep == not_filed_under(name@),
            rest.deep_view() == list.deep_view().take(i as int).filter(keep),
        decreases list.len() - i,
    {
        let ghost before = rest.deep_view();
        proof {
            assert(list.deep_view().take(i + 1) =~= list.deep_view().take(i as int).push(
                list[i as int].deep_view(),
            ));
            list.deep_view().take(i as int).lemma_filter_push(list[i as int].deep_view(), keep);
        }
        if list[i].0 != *name {
            let entry = (list[i].0.clone(), clone_strings(&list[i].1));
            rest.push(entry);
            assert(rest.deep_view() =~= before.push(list[i as int].deep_view()));
        }
        i += 1;
    }
    assert(list.deep_view().take(list.len() as int) =~= list.deep_view());
    rest
}

/// The two steps that replace the metadata file called `file` by `content`.
fn push_rewrite(steps: &mut Vec<Step>, prefix: &InstallPrefix, file: &str, content: String)
    ensures
        final(steps).deep_view() == old(steps).deep_view() + rewrite(file@, content@),
{
    let path = prefix.rel_manifest_file(file);
    let ghost before = steps.deep_view();
    push_step(steps, Step::Stage { op: Operation::ModifyFile { path: path.clone() } });
    push_step(steps, Step::Write { path, content });
    assert(steps.deep_view() =~= before + rewrite(file@, content@));
}

/// The name of the file that lists what the component `name` owns.
fn manifest_file_name(name: &String) -> (file: String)
    ensures
        file@ == manifest_name(name@),
{
    let mut file = "manifest-".to_owned();
    file.append(name.as_str());
    file
}

impl InstalledComponent {
    /// The name of the component.
    pub fn name(&self) -> (name: &String)
        ensures
            name@ == self@.name,
    {
        &self.name
    }

    /// What the component owns, in the order of its list. Fails with
    /// `CorruptComponent` when the registry has no list for the component or
    /// a line of the list stands for no part.
    pub fn parts(&self) -> (parts: Result<Vec<ComponentPart>, Error>)
        ensures
            match parts {
                Ok(list) => self@.manifest is Some && parts_of(self@.manifest->0) == Some(
                    list.deep_view(),
                ),
                Err(e) => (self@.manifest is None || parts_of(self@.manifest->0) is None) && e@
                    == (ErrorView::CorruptComponent { package: self@.name }),
            },
    {
        let decoded = match &self.manifest {
            Some(lines) => decode_lines(lines),
            None => None,
        };
        match decoded {
            Some(list) => Ok(list),
            None => Err(Error::CorruptComponent { package: self.name.clone() }),
        }
    }

    /// Uninstalls the component from `registry`, and hands back the steps
    /// that do the same on disk: see [`uninstall_steps`].
    ///
    /// Fails with `CorruptComponent`, and leaves the registry as it is, when
    /// what the component owns cannot be read: see [`owned_parts`].
    pub fn uninstall(&self, registry: &mut Components) -> (res: Result<Vec<Step>, Error>)
        ensures
            match res {
                Ok(steps) => {
                    &&& owned_parts(self@) is Some
                    &&& steps.deep_view() == uninstall_steps(
                        old(registry)@,
                        self@.name,
                        owned_parts(self@)->0,
                    )
                    &&& final(registry)@ == registry_without(old(registry)@, self@.name)
                },
                Err(e) => {
                    &&& owned_parts(self@) is None
                    &&& e@ == (ErrorView::CorruptComponent { package: self@.name })
                    &&& final(registry)@ == old(registry)@
                },
            },
    {
        let parts = match self.parts() {
            Ok(parts) => parts,
            Err(e) => {
                return Err(e);
            },
        };
        let mut k: usize = 0;
        while k < parts.len()
            invariant
                k <= parts.len(),
                self@.manifest is Some,
                parts_of(self@.manifest->0) == Some(parts.deep_view()),
                forall|j: int|
                    0 <= j < k ==> (#[trigger] parts.deep_view()[j]).kind == file_kind()
                        || parts.deep_view()[j].kind == dir_kind(),
            decreases parts.len() - k,
        {
            let kind = parts[k].kind.as_str();
            if !crate::text::same_text(kind, "file") && !crate::text::same_text(kind, "dir") {
                assert(parts.deep_view()[k as int].kind != file_kind());
                assert(parts.deep_view()[k as int].kind != dir_kind());
                assert(!kinds_known(parts.deep_view()));
                assert(owned_parts(self@) is None);
                return Err(Error::CorruptComponent { package: self.name.clone() });
            }
            k += 1;
        }
        let ghost owned = parts.deep_view();
        let ghost name = self.name@;
        let remaining = others(&registry.names, &self.name);
        let mut steps: Vec<Step> = Vec::new();
        assert(steps.deep_view() =~= Seq::<StepView>::empty());
        push_rewrite(&mut steps, &registry.prefix, "components", unlines(&remaining));
        let ghost head = steps.deep_view();
        assert(head =~= rewrite(
            components_file(),
            unlines_of(registry_without(registry@, name).names),
        ));
        let mut i: usize = parts.len();
        assert(owned.take(i as int) =~= owned);
        assert(head + Seq::<StepView>::empty() =~= head);
        while i > 0
            invariant
                i <= parts.len(),
                owned == parts.deep_view(),
                name == self.name@,
                (head + file_removals(name, owned)) =~= (steps.deep_view() + file_removals(
                    name,
                    owned.take(i as int),
                )),
            decreases i,
        {
            i -= 1;
            proof {
                let upto = owned.take(i + 1);
                assert(upto.drop_last() =~= owned.take(i as int));
                assert(upto.last() == parts[i as int]@);
            }
            if crate::text::same_text(parts[i].kind.as_str(), "file") {
                push_step(
                    &mut steps,
                    Step::Stage {
                        op: Operation::RemoveFile {
                            component: self.name.clone(),
                            path: parts[i].path.clone(),
                        },
                    },
                );
            }
        }
        let ghost middle = steps.deep_view();
        assert(middle =~= head + file_removals(name, owned));
        let mut n: usize = parts.len();
        assert(owned.take(n as int) =~= owned);
        while n > 0
            invariant
                n <= parts.len(),
                owned == parts.deep_view(),
                name == self.name@,
                (middle + dir_removals(name, owned)) =~= (steps.deep_view() + dir_removals(
                    name,
                    owned.take(n as int),
                )),
            decreases n,
        {
            n -= 1;
            proof {
                let upto = owned.take(n + 1);
                assert(upto.drop_last() =~= owned.take(n as int));
                assert(upto.last() == parts[n as int]@);
            }
            if crate::text::same_text(parts[n].kind.as_str(), "dir") {
                push_step(
                    &mut steps,
                    Step::Stage {
                        op: Operation::RemoveDir {
                            component: self.name.clone(),
                            path: parts[n].path.clone(),
                        },
                    },
                );
            }
        }
        assert(steps.deep_view() =~= middle + dir_removals(name, owned));
        let file = manifest_file_name(&self.name);
        push_step(
            &mut steps,
            Step::Stage {
                op: Operation::RemoveFile {
                    component: self.name.clone(),
                    path: registry.prefix.rel_manifest_file(file.as_str()),
                },
            },
        );
        assert(steps.deep_view() =~= uninstall_steps(registry@, name, owned));
        let manifests = other_manifests(&registry.manifests, &self.name);
        registry.names = remaining;
        registry.manifests = manifests;
        Ok(steps)
    }
}

/// Gathers what a component that is being installed owns, and the steps that
/// put it into the prefix.
#[derive(Debug)]
pub struct ComponentBuilder {
    name: String,
    parts: Vec<ComponentPart>,
    steps: Vec<Step>,
}

impl View for ComponentBuilder {
    type V = BuilderView;

    closed spec fn view(&self) -> BuilderView {
        BuilderView {
            name: self.name@,
            parts: self.parts.deep_view(),
            steps: self.steps.deep_view(),
        }
    }
}

impl Components {
    /// Begins the installation of a component called `name`.
    pub fn add(&self, name: &str) -> (builder: ComponentBuilder)
        ensures
            builder@ == (BuilderView {
                name: name@,
                parts: Seq::<PartView>::empty(),
                steps: Seq::<StepView>::empty(),
            }),
    {
        let builder = ComponentBuilder {
            name: name.to_owned(),
            parts: Vec::new(),
            steps: Vec::new(),
        };
        assert(builder.parts.deep_view() =~= Seq::<PartView>::empty());
        assert(builder.steps.deep_view() =~= Seq::<StepView>::empty());
        builder
    }
}

impl ComponentBuilder {
    fn own(&mut self, kind: &str, path: String, op: Operation)
        ensures
            final(self)@ == (BuilderView {
                name: old(self)@.name,
                parts: old(self)@.parts.push(PartView { kind: kind@, path: path@ }),
                steps: old(self)@.steps.push(StepView::Stage { op: op@ }),
            }),
    {
        let ghost parts = self.parts.deep_view();
        let part = ComponentPart { kind: kind.to_owned(), path };
        self.parts.push(part);
        assert(self.parts.deep_view() =~= parts.push(part@));
        push_step(&mut self.steps, Step::Stage { op });
    }

    /// The component owns the file at `path`, which is a copy of the file at
    /// `src`.
    pub fn copy_file(&mut self, path: String, src: &str)
        ensures
            final(self)@ == (BuilderView {
                name: old(self)@.name,
                parts: old(self)@.parts.push(PartView { kind: file_kind(), path: path@ }),
                steps: old(self)@.steps.push(
                    StepView::Stage {
                        op: OperationView::CopyFile {
                            component: old(self)@.name,
                            path: path@,
                            src: src@,
                        },
                    },
                ),
            }),
    {
        let op = Operation::CopyFile {
            component: self.name.clone(),
            path: path.clone(),
            src: src.to_owned(),
        };
        self.own("file", path, op);
    }

    /// The component owns the directory at `path`, which is a copy of the
    /// tree at `src`.
    pub fn copy_dir(&mut self, path: String, src: &str)
        ensures
            final(self)@ == (BuilderView {
                name: old(self)@.name,
                parts: old(self)@.parts.push(PartView { kind: dir_kind(), path: path@ }),
                steps: old(self)@.steps.push(
                    StepView::Stage {
                        op: OperationView::CopyDir {
                            component: old(self)@.name,
                            path: path@,
                            src: src@,
                        },
                    },
                ),
            }),
    {
        let op = Operation::CopyDir {
            component: self.name.clone(),
            path: path.clone(),
            src: src.to_owned(),
        };
        self.own("dir", path, op);
    }

    /// Installs the component into `registry`, and hands back the steps that
    /// do the same on disk: see [`install_steps`].
    pub fn finish(self, registry: &mut Components) -> (steps: Vec<Step>)
        ensures
            steps.deep_view() == install_steps(old(registry)@, self@),
            final(registry)@ == registry_with(
                old(registry)@,
                self@.name,
                encoded_lines(self@.parts),
            ),
    {
        let mut lines: Vec<String> = Vec::new();
        let mut i: usize = 0;
        while i < self.parts.len()
            invariant
                i <= self.parts.len(),
                lines.len() == i,
                forall|j: int| 0 <= j < i ==> lines[j]@ == encoded(self.parts[j]@),
            decreases self.parts.len() - i,
        {
            lines.push(self.parts[i].encode());
            i += 1;
        }
        assert(lines.deep_view() =~= encoded_lines(self@.parts));
        let mut steps = self.steps;
        let ghost gathered = steps.deep_view();
        let file = manifest_file_name(&self.name);
        push_step(
            &mut steps,
            Step::Stage {
                op: Operation::WriteFile {
                    component: self.name.clone(),
                    path: registry.prefix.rel_manifest_file(file.as_str()),
                    content: unlines(&lines),
                },
            },
        );
        let ghost names = registry.names.deep_view();
        registry.names.push(self.name.clone());
        assert(registry.names.deep_view() =~= names.push(self.name@));
        let ghost manifests = registry.manifests.deep_view();
        registry.manifests.push((self.name.clone(), lines));
        assert(registry.manifests.deep_view() =~= manifests.push(
            (self.name@, encoded_lines(self@.parts)),
        ));
        push_rewrite(&mut steps, &registry.prefix, "components", unlines(&registry.names));
        push_rewrite(&mut steps, &registry.prefix, "rust-installer-version", "3".to_owned());
        assert(steps.deep_view() =~= install_steps(old(registry)@, self@));
        steps
    }
}

/// The list of what a component owns is read back as it was written: the
/// parts of files and directories whose paths can stand on a line come out of
/// the lines of the text that holds their lines.
pub proof fn owned_parts_are_read_back(parts: Seq<PartView>)
    requires
        kinds_known(parts),
        forall|i: int| 0 <= i < parts.len() ==> crate::text::is_line(#[trigger] parts[i].path),
    ensures
        parts_of(lines_of(unlines_of(encoded_lines(parts)))) == Some(parts),
{
    let lines = encoded_lines(parts);
    assert forall|i: int| 0 <= i < lines.len() implies crate::text::is_line(
        #[trigger] lines[i],
    ) by {
        let part = parts[i];
        let line = lines[i];
        assert(line == encoded(part));
        reveal_strlit("file");
        reveal_strlit("dir");
        assert(crate::text::is_line(part.path));
        if line.contains('\n') {
            let k = choose|k: int| 0 <= k < line.len() && line[k] == '\n';
            if k < part.kind.len() {
                assert(line[k] == part.kind[k]);
            } else if k > part.kind.len() {
                assert(line[k] == part.path[k - part.kind.len() - 1]);
                assert(part.path.contains(line[k]));
            }
        }
        if part.path.len() > 0 {
            assert(line.last() == part.path.last());
        }
    }
    crate::text::lines_of_inverts_unlines_of(lines);
    parts_of_inverts_encoded_lines(parts);
}

/// The registry without a component does not hold its name.
pub proof fn registry_without_lacks(registry: ComponentsView, name: Seq<char>)
    ensures
        !registry_without(registry, name).names.contains(name),
{
    let rest = registry_without(registry, name).names;
    if rest.contains(name) {
        let i = choose|i: int| 0 <= i < rest.len() && rest[i] == name;
        registry.names.lemma_filter_pred(not_named(name), i);
    }
}

/// A component that is installed is found, under whatever name it replaces
/// or joins; a component that is uninstalled is not found any more; and
/// neither changes whether a component of another name is found.
pub proof fn registry_consistency(
    registry: ComponentsView,
    name: Seq<char>,
    lines: Seq<Seq<char>>,
    other: Seq<char>,
)
    requires
        other != name,
    ensures
        registry_with(registry, name, lines).names.contains(name),
        !registry_without(registry, name).names.contains(name),
        !registry_without(registry_with(registry, name, lines), name).names.contains(name),
        registry_with(registry, name, lines).names.contains(other) == registry.names.contains(
            other,
        ),
        registry_without(registry, name).names.contains(other) == registry.names.contains(other),
{
    let keep = not_named(name);
    let added = registry_with(registry, name, lines).names;
    assert(added[added.len() - 1] == name);
    assert forall|names: Seq<Seq<char>>| !(#[trigger] names.filter(keep)).contains(name) by {
        if names.filter(keep).contains(name) {
            let i = choose|i: int| 0 <= i < names.filter(keep).len() && names.filter(keep)[i] == name;
            names.lemma_filter_pred(keep, i);
        }
    }
    if registry.names.contains(other) {
        let i = choose|i: int| 0 <= i < registry.names.len() && registry.names[i] == other;
        assert(added[i] == other);
        registry.names.lemma_filter_contains(keep, i);
    }
    if added.contains(other) {
        let i = choose|i: int| 0 <= i < added.len() && added[i] == other;
        assert(registry.names[i] == other);
    }
    let filtered = registry_without(registry, name).names;
    assert(filtered == registry.names.filter(keep));
    if filtered.contains(other) {
        registry.names.lemma_filter_contains_rev(keep, other);
        assert(registry.names.contains(other));
    }
    if registry.names.contains(other) {
        let i = choose|i: int| 0 <= i < registry.names.len() && registry.names[i] == other;
        registry.names.lemma_filter_contains(keep, i);
        assert(filtered.contains(other));
    }
}

/// The removals of files and of directories stage operations, and write
/// nothing.
pub proof fn removals_stage(name: Seq<char>, parts: Seq<PartView>)
    ensures
        all_staged(file_removals(name, parts)),
        all_staged(dir_removals(name, parts)),
    decreases parts.len(),
{
    if parts.len() > 0 {
        removals_stage(name, parts.drop_last());
        let files = file_removals(name, parts);
        let fewer_files = file_removals(name, parts.drop_last());
        assert forall|i: int| 0 <= i < files.len() implies (#[trigger] files[i]) is Stage by {
            if parts.last().kind == file_kind() {
                if i > 0 {
                    assert(files[i] == fewer_files[i - 1]);
                }
            } else {
                assert(files[i] == fewer_files[i]);
            }
        }
        let dirs = dir_removals(name, parts);
        let fewer_dirs = dir_removals(name, parts.drop_last());
        assert forall|i: int| 0 <= i < dirs.len() implies (#[trigger] dirs[i]) is Stage by {
            if parts.last().kind == dir_kind() {
                if i > 0 {
                    assert(dirs[i] == fewer_dirs[i - 1]);
                }
            } else {
                assert(dirs[i] == fewer_dirs[i]);
            }
        }
    }
}

/// Whether `step` removes one of the files among `parts`.
pub open spec fn removes_a_file_of(step: StepView, name: Seq<char>, parts: Seq<PartView>) -> bool {
    exists|k: int|
        0 <= k < parts.len() && (#[trigger] parts[k]).kind == file_kind() && step == file_removal(
            name,
            parts[k].path,
        )
}

/// Whether `step` removes one of the directories among `parts`.
pub open spec fn removes_a_dir_of(step: StepView, name: Seq<char>, parts: Seq<PartView>) -> bool {
    exists|k: int|
        0 <= k < parts.len() && (#[trigger] parts[k]).kind == dir_kind() && step == dir_removal(
            name,
            parts[k].path,
        )
}

/// Each file among the parts is removed, each directory is removed, and
/// nothing else is: the removals of files are those of the parts that are
/// files, and the removals of directories those of the parts that are
/// directories. In [`uninstall_steps`] the former all come before the latter,
/// so that no file is removed after the directory that held it.
pub proof fn removals_cover_parts(name: Seq<char>, parts: Seq<PartView>)
    ensures
        forall|k: int|
            0 <= k < parts.len() && (#[trigger] parts[k]).kind == file_kind() ==> file_removals(
                name,
                parts,
            ).contains(file_removal(name, parts[k].path)),
        forall|k: int|
            0 <= k < parts.len() && (#[trigger] parts[k]).kind == dir_kind() ==> dir_removals(
                name,
                parts,
            ).contains(dir_removal(name, parts[k].path)),
        forall|i: int|
            0 <= i < file_removals(name, parts).len() ==> removes_a_file_of(
                #[trigger] file_removals(name, parts)[i],
                name,
                parts,
            ),
        forall|i: int|
            0 <= i < dir_removals(name, parts).len() ==> removes_a_dir_of(
                #[trigger] dir_removals(name, parts)[i],
                name,
                parts,
            ),
    decreases parts.len(),
{
    if parts.len() > 0 {
        let fewer = parts.drop_last();
        let last_at = parts.len() - 1;
        removals_cover_parts(name, fewer);
        let files = file_removals(name, parts);
        let fewer_files = file_removals(name, fewer);
        let dirs = dir_removals(name, parts);
        let fewer_dirs = dir_removals(name, fewer);
        let shift_files: int = if parts.last().kind == file_kind() {
            1
        } else {
            0
        };
        let shift_dirs: int = if parts.last().kind == dir_kind() {
            1
        } else {
            0
        };
        assert forall|i: int| 0 <= i < fewer_files.len() implies files[i + shift_files]
            == fewer_files[i] by {}
        assert forall|i: int| 0 <= i < fewer_dirs.len() implies dirs[i + shift_dirs]
            == fewer_dirs[i] by {}
        assert forall|k: int|
            0 <= k < parts.len() && (#[trigger] parts[k]).kind == file_kind() implies files.contains(
            file_removal(name, parts[k].path),
        ) by {
            if k < last_at {
                assert(fewer[k] == parts[k]);
                let wanted = file_removal(name, fewer[k].path);
                assert(fewer_files.contains(wanted));
                let i = choose|i: int| 0 <= i < fewer_files.len() && fewer_files[i] == wanted;
                assert(files[i + shift_files] == wanted);
            } else {
                assert(files[0] == file_removal(name, parts[k].path));
            }
        }
        assert forall|k: int|
            0 <= k < parts.len() && (#[trigger] parts[k]).kind == dir_kind() implies dirs.contains(
            dir_removal(name, parts[k].path),
        ) by {
            if k < last_at {
                assert(fewer[k] == parts[k]);
                let wanted = dir_removal(name, fewer[k].path);
                assert(fewer_dirs.contains(wanted));
                let i = choose|i: int| 0 <= i < fewer_dirs.len() && fewer_dirs[i] == wanted;
                assert(dirs[i + shift_dirs] == wanted);
            } else {
                assert(dirs[0] == dir_removal(name, parts[k].path));
            }
        }
        assert forall|i: int| 0 <= i < files.len() implies removes_a_file_of(
            #[trigger] files[i],
            name,
            parts,
        ) by {
            if i < shift_files {
                assert(parts[last_at].kind == file_kind() && files[i] == file_removal(
                    name,
                    parts[last_at].path,
                ));
            } else {
                let at = i - shift_files;
                assert(files[i] == fewer_files[at]);
                assert(removes_a_file_of(fewer_files[at], name, fewer));
                let k = choose|k: int|
                    0 <= k < fewer.len() && (#[trigger] fewer[k]).kind == file_kind()
                        && fewer_files[at] == file_removal(name, fewer[k].path);
                assert(parts[k] == fewer[k]);
            }
        }
        assert forall|i: int| 0 <= i < dirs.len() implies removes_a_dir_of(
            #[trigger] dirs[i],
            name,
            parts,
        ) by {
            if i < shift_dirs {
                assert(parts[last_at].kind == dir_kind() && dirs[i] == dir_removal(
                    name,
                    parts[last_at].path,
                ));
            } else {
                let at = i - shift_dirs;
                assert(dirs[i] == fewer_dirs[at]);
                assert(removes_a_dir_of(fewer_dirs[at], name, fewer));
                let k = choose|k: int|
                    0 <= k < fewer.len() && (#[trigger] fewer[k]).kind == dir_kind()
                        && fewer_dirs[at] == dir_removal(name, fewer[k].path);
                assert(parts[k] == fewer[k]);
            }
        }
    }
}

/// The steps that uninstall a component write only to files that the step
/// before has put under modification.
pub proof fn uninstall_steps_announce(
    registry: ComponentsView,
    name: Seq<char>,
    parts: Seq<PartView>,
)
    ensures
        writes_announced(uninstall_steps(registry, name, parts)),
{
    let head = rewrite(components_file(), unlines_of(registry_without(registry, name).names));
    let last = seq![file_removal(name, rel_manifest_path(manifest_name(name)))];
    removals_stage(name, parts);
    staged_steps_announce(file_removals(name, parts));
    staged_steps_announce(dir_removals(name, parts));
    staged_steps_announce(last);
    announced_steps_concat(head, file_removals(name, parts));
    announced_steps_concat(head + file_removals(name, parts), dir_removals(name, parts));
    announced_steps_concat(
        head + file_removals(name, parts) + dir_removals(name, parts),
        last,
    );
}

/// The steps that install a component write only to files that the step
/// before has put under modification, where those that the builder gathered
/// do.
pub proof fn install_steps_announce(registry: ComponentsView, builder: BuilderView)
    requires
        writes_announced(builder.steps),
    ensures
        writes_announced(install_steps(registry, builder)),
{
    let record = seq![
        StepView::Stage {
            op: OperationView::WriteFile {
                component: builder.name,
                path: rel_manifest_path(manifest_name(builder.name)),
                content: unlines_of(encoded_lines(builder.parts)),
            },
        },
    ];
    let list = rewrite(components_file(), unlines_of(registry.names.push(builder.name)));
    let version = rewrite(version_file(), installer_version());
    staged_steps_announce(record);
    announced_steps_concat(builder.steps, record);
    announced_steps_concat(builder.steps + record, list);
    announced_steps_concat(builder.steps + record + list, version);
}

/// A part whose kind holds no colon is read back from its line as it was
/// written.
pub proof fn decode_inverts_encode(part: PartView)
    requires
        !part.kind.contains(':'),
    ensures
        decoded(encoded(part)) == Some(part),
{
    let line = encoded(part);
    let n = part.kind.len() as int;
    assert forall|i: int| 0 <= i < n implies line[i] != ':' by {
        assert(line[i] == part.kind[i]);
        assert(part.kind.contains(part.kind[i]));
    }
    assert(line[n] == ':');
    crate::text::first_of_is(line, ':', n);
    assert(line.take(n) =~= part.kind);
    assert(line.skip(n + 1) =~= part.path);
}

/// The parts of files and directories are read back from their lines as they
/// were written.
pub proof fn parts_of_inverts_encoded_lines(parts: Seq<PartView>)
    requires
        kinds_known(parts),
    ensures
        parts_of(encoded_lines(parts)) == Some(parts),
    decreases parts.len(),
{
    let lines = encoded_lines(parts);
    if parts.len() > 0 {
        assert(lines.drop_last() =~= encoded_lines(parts.drop_last()));
        assert(kinds_known(parts.drop_last())) by {
            assert forall|i: int| 0 <= i < parts.drop_last().len() implies (
            #[trigger] parts.drop_last()[i]).kind == file_kind() || parts.drop_last()[i].kind
                == dir_kind() by {
                assert(parts.drop_last()[i] == parts[i]);
            }
        }
        parts_of_inverts_encoded_lines(parts.drop_last());
        let last = parts.last();
        assert(lines.last() == encoded(last));
        assert(!last.kind.contains(':')) by {
            reveal_strlit("file");
            reveal_strlit("dir");
            if last.kind.contains(':') {
                let i = choose|i: int| 0 <= i < last.kind.len() && last.kind[i] == ':';
                assert(last.kind[i] == ':');
            }
        }
        decode_inverts_encode(last);
        assert(parts.drop_last().push(last) =~= parts);
    } else {
        assert(lines =~= Seq::<Seq<char>>::empty());
    }
}

} // verus!
