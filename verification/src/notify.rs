//! What the installer tells its caller besides results. Nothing depends on
//! whether anybody listens.

use vstd::prelude::*;

verus! {

/// One event that is worth telling.
#[derive(Debug)]
pub enum Notification {
    /// The payload fetched from `url` has the hash that the manifest declares.
    ChecksumValid { url: String },
    /// A component that was to be uninstalled is not in the registry, under
    /// neither of its names. `name` is the longer one.
    MissingInstalledComponent { name: String },
}

/// The mathematical value of a [`Notification`].
pub enum NotificationView {
    ChecksumValid { url: Seq<char> },
    MissingInstalledComponent { name: Seq<char> },
}

impl View for Notification {
    type V = NotificationView;

    open spec fn view(&self) -> NotificationView {
        match *self {
            Notification::ChecksumValid { url } => NotificationView::ChecksumValid { url: url@ },
            Notification::MissingInstalledComponent { name } => {
                NotificationView::MissingInstalledComponent { name: name@ }
            },
        }
    }
}

impl DeepView for Notification {
    type V = NotificationView;

    open spec fn deep_view(&self) -> NotificationView {
        self@
    }
}

/// Puts `note` at the end of `notes`.
pub fn push_note(notes: &mut Vec<Notification>, note: Notification)
    ensures
        final(notes).deep_view() == old(notes).deep_view().push(note@),
{
    let ghost before = notes.deep_view();
    notes.push(note);
    assert(notes.deep_view() =~= before.push(note@));
}

} // verus!
