//! The state of the download form and of the download cards.

use vstd::prelude::*;
use crate::output::DownloadId;

verus! {

/// What the user has typed: the pin link and the destination directory.
#[derive(Debug, Clone, PartialEq, Eq)]
pub struct TextInputState {
    url: String,
    directory_path: String,
}

impl TextInputState {
    /// The typed pin link.
    pub closed spec fn spec_url(&self) -> Seq<char> {
        self.url@
    }

    /// The typed destination directory.
    pub closed spec fn spec_directory_path(&self) -> Seq<char> {
        self.directory_path@
    }

    /// An empty form.
    pub fn new() -> (state: Self)
        ensures
            state.spec_url() == Seq::<char>::empty(),
            state.spec_directory_path() == Seq::<char>::empty(),
    {
        TextInputState { url: String::new(), directory_path: String::new() }
    }

    /// The typed pin link.
    pub fn url(&self) -> (url: &str)
        ensures
            url@ == self.spec_url(),
    {
        self.url.as_str()
    }

    /// The typed pin link (the text of the input field).
    pub fn text(&self) -> (text: &str)
        ensures
            text@ == self.spec_url(),
    {
        self.url.as_str()
    }

    /// Replaces the typed pin link.
    pub fn set_text(&mut self, text: &str)
        ensures
            final(self).spec_url() == text@,
            final(self).spec_directory_path() == old(self).spec_directory_path(),
    {
        self.url = text.to_owned();
    }

    /// The typed destination directory.
    pub fn directory_path(&self) -> (path: &str)
        ensures
            path@ == self.spec_directory_path(),
    {
        self.directory_path.as_str()
    }

    /// Replaces the destination directory.
    pub fn set_directory_path(&mut self, directory_path: &str)
        ensures
            final(self).spec_directory_path() == directory_path@,
            final(self).spec_url() == old(self).spec_url(),
    {
        self.directory_path = directory_path.to_owned();
    }
}

impl Default for TextInputState {
    /// An empty form.
    fn default() -> (state: Self)
        ensures
            state.spec_url() == Seq::<char>::empty(),
            state.spec_directory_path() == Seq::<char>::empty(),
    {
        TextInputState::new()
    }
}

/// Where a download stands.
#[derive(Debug, Clone, PartialEq, Eq)]
pub enum DownloadStatus {
    Downloading,
    Completed,
    Failed(String),
}

/// The mathematical value of a `DownloadStatus`.
pub enum StatusView {
    Downloading,
    Completed,
    Failed(Seq<char>),
}

impl StatusView {
    /// The download has ended, well or not.
    pub open spec fn is_finished(self) -> bool {
        !(self is Downloading)
    }
}

impl View for DownloadStatus {
    type V = StatusView;

    open spec fn view(&self) -> StatusView {
        match self {
            DownloadStatus::Downloading => StatusView::Downloading,
            DownloadStatus::Completed => StatusView::Completed,
            DownloadStatus::Failed(error) => StatusView::Failed(error@),
        }
    }
}

impl DownloadStatus {
    /// Whether the download has ended, well or not.
    pub fn is_finished(&self) -> (finished: bool)
        ensures
            finished == self@.is_finished(),
    {
        match self {
            DownloadStatus::Downloading => false,
            DownloadStatus::Completed | DownloadStatus::Failed(_) => true,
        }
    }
}

/// One entry of the download history.
#[derive(Debug, Clone, PartialEq, Eq)]
pub struct DownloadCardState {
    id: DownloadId,
    filename: String,
    status: DownloadStatus,
}

/// The mathematical value of a `DownloadCardState`.
pub struct CardView {
    pub id: DownloadId,
    pub filename: Seq<char>,
    pub status: StatusView,
}

impl View for DownloadCardState {
    type V = CardView;

    closed spec fn view(&self) -> CardView {
        CardView { id: self.id, filename: self.filename@, status: self.status@ }
    }
}

impl DownloadCardState {
    /// A card for download `id`, showing `filename`, in state `status`.
    pub(crate) fn new(id: DownloadId, filename: String, status: DownloadStatus) -> (card: Self)
        ensures
            card@ == (CardView { id, filename: filename@, status: status@ }),
    {
        DownloadCardState { id, filename, status }
    }

    /// Shows another file name.
    pub(crate) fn set_filename(&mut self, filename: String)
        ensures
            final(self)@ == (CardView { filename: filename@, ..old(self)@ }),
    {
        self.filename = filename;
    }

    /// Moves the download to another status.
    pub(crate) fn set_status(&mut self, status: DownloadStatus)
        ensures
            final(self)@ == (CardView { status: status@, ..old(self)@ }),
    {
        self.status = status;
    }

    /// The identifier of the download.
    pub fn id(&self) -> (id: DownloadId)
        ensures
            id == self@.id,
    {
        self.id
    }

    /// The name shown for the download.
    pub fn filename(&self) -> (name: &str)
        ensures
            name@ == self@.filename,
    {
        self.filename.as_str()
    }

    /// Where the download stands.
    pub fn status(&self) -> (status: &DownloadStatus)
        ensures
            status@ == self@.status,
    {
        &self.status
    }
}

} // verus!
