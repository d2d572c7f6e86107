//! The failures that the installer reports.

use crate::manifest::{Component, ComponentView};
use vstd::prelude::*;

verus! {

/// Why an installer operation was refused or abandoned. Every variant names the
/// component, the path or the download that it concerns.
#[derive(Debug)]
pub enum Error {
    /// A component wants to create a path that is already there.
    ComponentConflict { name: String, path: String },
    /// A component wants to remove a file that is not there.
    ComponentMissingFile { name: String, path: String },
    /// A component wants to remove a directory that is not there.
    ComponentMissingDir { name: String, path: String },
    /// The payload of a component could not be fetched.
    ComponentDownloadFailed { component: Component, cause: String },
    /// A payload does not hash to the value that the manifest declares.
    ChecksumFailed { url: String, expected: String, calculated: String },
    /// A component's file list is malformed, or a package lacks the component.
    CorruptComponent { package: String },
    /// The installed metadata was written in a format that is not understood.
    BadInstalledMetadataVersion { version: String },
    /// A package image was written in a format that is not understood.
    BadInstallerVersion { version: String },
    /// The manifest has no package of this name.
    PackageNotFound { name: String },
    /// The package has no entry for this target.
    TargetNotFound { target: String },
}

/// The mathematical value of an [`Error`]: the same variants over character
/// sequences.
pub enum ErrorView {
    ComponentConflict { name: Seq<char>, path: Seq<char> },
    ComponentMissingFile { name: Seq<char>, path: Seq<char> },
    ComponentMissingDir { name: Seq<char>, path: Seq<char> },
    ComponentDownloadFailed { component: ComponentView, cause: Seq<char> },
    ChecksumFailed { url: Seq<char>, expected: Seq<char>, calculated: Seq<char> },
    CorruptComponent { package: Seq<char> },
    BadInstalledMetadataVersion { version: Seq<char> },
    BadInstallerVersion { version: Seq<char> },
    PackageNotFound { name: Seq<char> },
    TargetNotFound { target: Seq<char> },
}

impl View for Error {
    type V = ErrorView;

    open spec fn view(&self) -> ErrorView {
        match *self {
            Error::ComponentConflict { name, path } => ErrorView::ComponentConflict {
                name: name@,
                path: path@,
            },
            Error::ComponentMissingFile { name, path } => ErrorView::ComponentMissingFile {
                name: name@,
                path: path@,
            },
            Error::ComponentMissingDir { name, path } => ErrorView::ComponentMissingDir {
                name: name@,
                path: path@,
            },
            Error::ComponentDownloadFailed { component, cause } => {
                ErrorView::ComponentDownloadFailed { component: component@, cause: cause@ }
            },
            Error::ChecksumFailed { url, expected, calculated } => ErrorView::ChecksumFailed {
                url: url@,
                expected: expected@,
                calculated: calculated@,
            },
            Error::CorruptComponent { package } => ErrorView::CorruptComponent {
                package: package@,
            },
            Error::BadInstalledMetadataVersion { version } => {
                ErrorView::BadInstalledMetadataVersion { version: version@ }
            },
            Error::BadInstallerVersion { version } => ErrorView::BadInstallerVersion {
                version: version@,
            },
            Error::PackageNotFound { name } => ErrorView::PackageNotFound { name: name@ },
            Error::TargetNotFound { target } => ErrorView::TargetNotFound { target: target@ },
        }
    }
}

} // verus!
