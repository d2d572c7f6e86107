//! Package images: the components that a package holds and what each of them
//! installs.
//!
//! An image is a directory. Its file `rust-installer-version` holds the
//! number of the image format, its file `components` the names of the
//! components, one a line. Each component has a directory of its own, named
//! like it, with a file `manifest.in` that lists what it installs, one
//! `<kind>:<path>` a line, and with the files and directories themselves.
//!
//! What is read from an image is handed in as plain text, together with the
//! list of the files and the list of the directories that the image holds,
//! each by its path relative to the image.

use crate::components::{
    decode_lines, dir_kind, encoded_lines, file_kind, install_steps, kinds_known, manifests_read,
    parts_of, registry_with, version_number, version_supported, BuilderView, ComponentPart,
    Components, PartView, SUPPORTED_VERSION,
};
use crate::errors::{Error, ErrorView};
use crate::manifest::lookup;
use crate::prefix::{join_path, joined};
use crate::text::{clone_strings, holds, lines, lines_of, same_text, trim, trimmed};
use crate::transaction::{OperationView, Step, StepView};
use vstd::prelude::*;
use vstd::string::*;

verus! {

/// What a package image holds: the version marker, the list of components,
/// for each component the list of what it installs, by component name, and
/// the paths of all files and of all directories of the image.
#[derive(Debug)]
pub struct PackageImage {
    pub version: String,
    pub components: String,
    pub manifests: Vec<(String, String)>,
    pub files: Vec<String>,
    pub dirs: Vec<String>,
}

/// The mathematical value of a [`PackageImage`].
pub struct PackageImageView {
    pub version: Seq<char>,
    pub components: Seq<char>,
    pub manifests: Seq<(Seq<char>, Seq<char>)>,
    pub files: Seq<Seq<char>>,
    pub dirs: Seq<Seq<char>>,
}

impl View for PackageImage {
    type V = PackageImageView;

    open spec fn view(&self) -> PackageImageView {
        PackageImageView {
            version: self.version@,
            components: self.components@,
            manifests: self.manifests.deep_view(),
            files: self.files.deep_view(),
            dirs: self.dirs.deep_view(),
        }
    }
}

/// A package image that was unpacked into a directory.
#[derive(Debug)]
pub struct DirectoryPackage {
    path: String,
    components: Vec<String>,
    manifests: Vec<(String, Vec<String>)>,
    files: Vec<String>,
    dirs: Vec<String>,
}

/// The mathematical value of a [`DirectoryPackage`]: where the image is, the
/// names of its components, the lines of each component's list, and the
/// paths of the files and of the directories that the image holds.
pub struct DirectoryPackageView {
    pub path: Seq<char>,
    pub components: Seq<Seq<char>>,
    pub manifests: Seq<(Seq<char>, Seq<Seq<char>>)>,
    pub files: Seq<Seq<char>>,
    pub dirs: Seq<Seq<char>>,
}

impl View for DirectoryPackage {
    type V = DirectoryPackageView;

    closed spec fn view(&self) -> DirectoryPackageView {
        DirectoryPackageView {
            path: self.path@,
            components: self.components.deep_view(),
            manifests: self.manifests.deep_view(),
            files: self.files.deep_view(),
            dirs: self.dirs.deep_view(),
        }
    }
}

impl DeepView for DirectoryPackage {
    type V = DirectoryPackageView;

    open spec fn deep_view(&self) -> DirectoryPackageView {
        self@
    }
}

/// The value of an optional string.
pub open spec fn optional_text(text: Option<&str>) -> Option<Seq<char>> {
    match text {
        Some(t) => Some(t@),
        None => None,
    }
}

/// Whether the package holds a component called `name` or, where a short
/// name is given, one called by the short name.
pub open spec fn package_contains(
    package: DirectoryPackageView,
    name: Seq<char>,
    short_name: Option<Seq<char>>,
) -> bool {
    package.components.contains(name) || (short_name is Some && package.components.contains(
        short_name->0,
    ))
}

/// The name under which the package holds the component: `name` where it
/// holds one of that name, else the short name where one is given.
pub open spec fn actual_name(
    package: DirectoryPackageView,
    name: Seq<char>,
    short_name: Option<Seq<char>>,
) -> Seq<char> {
    if package.components.contains(name) {
        name
    } else if short_name is Some {
        short_name->0
    } else {
        name
    }
}

/// The step that copies one part of the component `name` from the directory
/// `root` of the image into the prefix.
pub open spec fn copy_of(name: Seq<char>, root: Seq<char>, part: PartView) -> StepView {
    if part.kind == file_kind() {
        StepView::Stage {
            op: OperationView::CopyFile {
                component: name,
                path: part.path,
                src: joined(root, part.path),
            },
        }
    } else {
        StepView::Stage {
            op: OperationView::CopyDir {
                component: name,
                path: part.path,
                src: joined(root, part.path),
            },
        }
    }
}

/// The steps that copy the parts of a component into the prefix, in the order
/// of the parts.
pub open spec fn copies(name: Seq<char>, root: Seq<char>, parts: Seq<PartView>) -> Seq<StepView> {
    Seq::new(parts.len(), |i: int| copy_of(name, root, parts[i]))
}

/// Whether the image holds what `part` declares, in the directory `dir` of
/// the component: a file where the part is a file, a directory where it is
/// a directory.
pub open spec fn part_present(package: DirectoryPackageView, dir: Seq<char>, part: PartView) -> bool {
    (part.kind == file_kind() && package.files.contains(joined(dir, part.path))) || (part.kind
        == dir_kind() && package.dirs.contains(joined(dir, part.path)))
}

/// Whether the image holds what each of `parts` declares.
pub open spec fn parts_present(
    package: DirectoryPackageView,
    dir: Seq<char>,
    parts: Seq<PartView>,
) -> bool {
    forall|i: int| 0 <= i < parts.len() ==> part_present(package, dir, #[trigger] parts[i])
}

/// What the package installs for the component: the parts that the
/// component's list declares. `None` where the image has no list for the
/// component, where a line of the list stands for no part, or where the
/// image does not hold what a part declares.
pub open spec fn declared_parts(
    package: DirectoryPackageView,
    name: Seq<char>,
    short_name: Option<Seq<char>>,
) -> Option<Seq<PartView>> {
    let dir = actual_name(package, name, short_name);
    match lookup(package.manifests, dir) {
        Some(lines) => match parts_of(lines) {
            Some(parts) => if parts_present(package, dir, parts) {
                Some(parts)
            } else {
                None
            },
            None => None,
        },
        None => None,
    }
}

/// The place of the last slash of `path`, or -1 where it holds none.
pub open spec fn last_slash(path: Seq<char>) -> int
    decreases path.len(),
{
    if path.len() == 0 {
        -1
    } else if path.last() == '/' {
        path.len() - 1
    } else {
        last_slash(path.drop_last())
    }
}

/// Whether `path` names something that lies directly in a directory called
/// `bin`.
pub open spec fn lies_in_bin(path: Seq<char>) -> bool {
    let slash = last_slash(path);
    &&& slash >= 3
    &&& path[slash - 3] == 'b' && path[slash - 2] == 'i' && path[slash - 1] == 'n'
    &&& (slash == 3 || path[slash - 4] == '/')
}

/// The permission bits, as Unix counts them, of a file that is installed at
/// `path`: what lies directly in a directory called `bin` can be run by
/// everybody, and everything can be read by everybody and written by its
/// owner.
pub open spec fn mode_of_file(path: Seq<char>) -> u32 {
    if lies_in_bin(path) {
        0o755
    } else {
        0o644
    }
}

/// The permission bits of a directory that is installed.
pub const DIRECTORY_MODE: u32 = 0o755;

proof fn last_slash_is(path: Seq<char>, at: int)
    requires
        -1 <= at < path.len(),
        at >= 0 ==> path[at] == '/',
        forall|i: int| at < i < path.len() ==> path[i] != '/',
    ensures
        last_slash(path) == at,
    decreases path.len(),
{
    if path.len() > 0 && at < path.len() - 1 {
        let shorter = path.drop_last();
        assert(path.last() != '/');
        assert forall|i: int| at < i < shorter.len() implies shorter[i] != '/' by {
            assert(shorter[i] == path[i]);
        }
        if at >= 0 {
            assert(shorter[at] == path[at]);
        }
        last_slash_is(shorter, at);
    }
}

/// The permission bits of a file that is installed at `path`: see
/// [`mode_of_file`].
pub fn file_mode(path: &str) -> (mode: u32)
    ensures
        mode == mode_of_file(path@),
{
    let chars = crate::text::chars_of(path);
    let mut end: usize = chars.len();
    while end > 0 && chars[end - 1] != '/'
        invariant
            end <= chars.len(),
            forall|i: int| end <= i < chars.len() ==> chars@[i] != '/',
        decreases end,
    {
        end -= 1;
    }
    proof {
        last_slash_is(path@, end as int - 1);
    }
    if end >= 4 && chars[end - 4] == 'b' && chars[end - 3] == 'i' && chars[end - 2] == 'n' && (end
        == 4 || chars[end - 5] == '/') {
        0o755
    } else {
        0o644
    }
}

impl DirectoryPackage {
    /// The package whose image was unpacked at `path` and has the metadata
    /// `image`.
    ///
    /// The version marker is looked at before anything else: where it is not
    /// supported (see [`version_supported`]) this fails with
    /// `BadInstallerVersion`, which holds the marker without the white space
    /// around it.
    pub fn new(path: String, image: &PackageImage) -> (opened: Result<DirectoryPackage, Error>)
        ensures
            match opened {
                Ok(package) => {
                    &&& version_supported(trimmed(image@.version))
                    &&& package@ == (DirectoryPackageView {
                        path: path@,
                        components: lines_of(image@.components),
                        manifests: manifests_read(image@.manifests),
                        files: image@.files,
                        dirs: image@.dirs,
                    })
                },
                Err(e) => {
                    &&& !version_supported(trimmed(image@.version))
                    &&& e@ == (ErrorView::BadInstallerVersion {
                        version: trimmed(image@.version),
                    })
                },
            },
    {
        let marker = trim(image.version.as_str());
        let supported = match version_number(marker.as_str()) {
            Some(n) => n == SUPPORTED_VERSION,
            None => false,
        };
        if !supported {
            return Err(Error::BadInstallerVersion { version: marker });
        }
        let components = lines(image.components.as_str());
        let mut manifests: Vec<(String, Vec<String>)> = Vec::new();
        let mut i: usize = 0;
        while i < image.manifests.len()
            invariant
                i <= image.manifests.len(),
                manifests.len() == i,
                forall|j: int|
                    0 <= j < i ==> manifests[j].deep_view() == (
                        image.manifests[j].0@,
                        lines_of(image.manifests[j].1@),
                    ),
            decreases image.manifests.len() - i,
        {
            let entry = &image.manifests[i];
            manifests.push((entry.0.clone(), lines(entry.1.as_str())));
            i += 1;
        }
        let package = DirectoryPackage {
            path,
            components,
            manifests,
            files: clone_strings(&image.files),
            dirs: clone_strings(&image.dirs),
        };
        assert(package.manifests.deep_view() =~= manifests_read(image@.manifests));
        Ok(package)
    }

    /// Whether the package holds the component, under its name or under the
    /// short name.
    pub fn contains(&self, component: &str, short_name: Option<&str>) -> (found: bool)
        ensures
            found == package_contains(self@, component@, optional_text(short_name)),
    {
        holds(&self.components, component) || match short_name {
            Some(n) => holds(&self.components, n),
            None => false,
        }
    }

    /// The names of the components that the package holds.
    pub fn components(&self) -> (names: Vec<String>)
        ensures
            names.deep_view() == self@.components,
    {
        clone_strings(&self.components)
    }

    fn manifest_of(&self, name: &String) -> (found: Option<&Vec<String>>)
        ensures
            found.deep_view() == lookup(self@.manifests, name@),
    {
        let mut i: usize = 0;
        assert(self@.manifests.skip(0) =~= self@.manifests);
        while i < self.manifests.len()
            invariant
                i <= self.manifests.len(),
                lookup(self@.manifests, name@) == lookup(self@.manifests.skip(i as int), name@),
            decreases self.manifests.len() - i,
        {
            let ghost rest = self@.manifests.skip(i as int);
            assert(rest[0] == self@.manifests[i as int]);
            assert(rest.drop_first() =~= self@.manifests.skip(i + 1));
            assert(rest[0].0 == self.manifests[i as int].0@);
            if self.manifests[i].0 == *name {
                assert(rest[0].1 == self.manifests[i as int].1.deep_view());
                return Some(&self.manifests[i].1);
            }
            i += 1;
        }
        None
    }

    /// Installs the component into the registry `target` under the name
    /// `component`, and hands back the steps that do the same on disk: each
    /// part that the component's list declares is copied from the image into
    /// the prefix, then the component is recorded (see [`install_steps`]). The
    /// image holds the component under `component` or under `short_name`.
    ///
    /// Fails with `CorruptComponent`, and leaves the registry as it is, when
    /// what the component installs cannot be read or is not all in the image:
    /// see [`declared_parts`].
    pub fn install(&self, target: &mut Components, component: &str, short_name: Option<&str>) -> (res:
        Result<Vec<Step>, Error>)
        ensures
            match res {
                Ok(steps) => {
                    let declared = declared_parts(self@, component@, optional_text(short_name));
                    let root = joined(
                        self@.path,
                        actual_name(self@, component@, optional_text(short_name)),
                    );
                    &&& declared is Some
                    &&& steps.deep_view() == install_steps(
                        old(target)@,
                        BuilderView {
                            name: component@,
                            parts: declared->0,
                            steps: copies(component@, root, declared->0),
                        },
                    )
                    &&& final(target)@ == registry_with(
                        old(target)@,
                        component@,
                        encoded_lines(declared->0),
                    )
                },
                Err(e) => {
                    &&& declared_parts(self@, component@, optional_text(short_name)) is None
                    &&& e@ == (ErrorView::CorruptComponent { package: component@ })
                    &&& final(target)@ == old(target)@
                },
            },
    {
        let actual: String = if holds(&self.components, component) {
            component.to_owned()
        } else {
            match short_name {
                Some(n) => n.to_owned(),
                None => component.to_owned(),
            }
        };
        assert(actual@ == actual_name(self@, component@, optional_text(short_name)));
        let root = join_path(self.path.as_str(), actual.as_str());
        let decoded = match self.manifest_of(&actual) {
            Some(lines) => decode_lines(lines),
            None => None,
        };
        let parts: Vec<ComponentPart> = match decoded {
            Some(parts) => parts,
            None => {
                return Err(Error::CorruptComponent { package: component.to_owned() });
            },
        };
        let mut k: usize = 0;
        while k < parts.len()
            invariant
                k <= parts.len(),
                actual@ == actual_name(self@, component@, optional_text(short_name)),
                lookup(self@.manifests, actual@) is Some,
                parts_of(lookup(self@.manifests, actual@)->0) == Some(parts.deep_view()),
                forall|j: int|
                    0 <= j < k ==> part_present(self@, actual@, #[trigger] parts.deep_view()[j]),
            decreases parts.len() - k,
        {
            let kind = parts[k].kind.as_str();
            let inside = join_path(actual.as_str(), parts[k].path.as_str());
            let present = (same_text(kind, "file") && holds(&self.files, inside.as_str())) || (
            same_text(kind, "dir") && holds(&self.dirs, inside.as_str()));
            if !present {
                assert(!part_present(self@, actual@, parts.deep_view()[k as int]));
                return Err(Error::CorruptComponent { package: component.to_owned() });
            }
            k += 1;
        }
        assert(parts_present(self@, actual@, parts.deep_view()));
        assert(kinds_known(parts.deep_view())) by {
            assert forall|j: int| 0 <= j < parts.deep_view().len() implies (
            #[trigger] parts.deep_view()[j]).kind == file_kind() || parts.deep_view()[j].kind
                == dir_kind() by {
                assert(part_present(self@, actual@, parts.deep_view()[j]));
            }
        }
        let ghost declared = parts.deep_view();
        let mut builder = target.add(component);
        let mut i: usize = 0;
        assert(declared.take(0) =~= Seq::<PartView>::empty());
        assert(copies(component@, root@, declared.take(0)) =~= Seq::<StepView>::empty());
        while i < parts.len()
            invariant
                i <= parts.len(),
                declared == parts.deep_view(),
                kinds_known(declared),
                builder@ == (BuilderView {
                    name: component@,
                    parts: declared.take(i as int),
                    steps: copies(component@, root@, declared.take(i as int)),
                }),
            decreases parts.len() - i,
        {
            let part = &parts[i];
            let src = join_path(root.as_str(), part.path.as_str());
            proof {
                assert(declared[i as int] == part@);
                assert(declared.take(i + 1) =~= declared.take(i as int).push(part@));
                assert(copies(component@, root@, declared.take(i + 1)) =~= copies(
                    component@,
                    root@,
                    declared.take(i as int),
                ).push(copy_of(component@, root@, part@)));
            }
            if same_text(part.kind.as_str(), "file") {
                builder.copy_file(part.path.clone(), src.as_str());
            } else {
                builder.copy_dir(part.path.clone(), src.as_str());
            }
            i += 1;
        }
        assert(declared.take(parts.len() as int) =~= declared);
        Ok(builder.finish(target))
    }
}

} // verus!
