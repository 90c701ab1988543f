//! What a peer does with the messages that it receives.
use std::collections::HashMap;
use vstd::prelude::*;

verus! {

broadcast use vstd::std_specs::hash::group_hash_axioms;

/// The largest file that is downloaded.
pub const DOWNLOAD_LIMIT: u64 = 1000000;

/// What one peer tells the other.
#[derive(Debug, Clone)]
pub enum Message {
    /// Asks for a file.
    RequestFile { filename: String },
    /// Answers how large the file is.
    ConfirmFileSize { filesize: u64 },
    /// Asks for its contents, which are to be sent under the given name.
    ConfirmDownload { fileid: u64 },
    /// Brings a piece of the contents.
    FileDownload { fileid: u64, file_chunk: Vec<u8> },
    /// Tells that all contents have been sent.
    FileDownloadComplete { fileid: u64 },
    /// Asks for the names of all files.
    ReadDir,
    /// Answers with the names of all files.
    DirContents { filenames: Vec<String> },
}

/// What a peer remembers of a message that it has sent.
#[derive(Debug)]
pub enum SendData<F> {
    /// The file that it asked for.
    RequestFile { filename: String },
    /// The file that the other peer asked for.
    ConfirmFileSize { file: F },
    /// Nothing.
    ConfirmDownload,
    /// Nothing.
    FileDownload,
    /// Whether it wants the files that it does not have.
    ReadDir { download_missing: bool },
    /// Nothing.
    DirContents,
}

/// What a peer has to do about a received message.
#[derive(Debug)]
pub enum Action<F> {
    /// Open a file, and go on with `opened`.
    OpenFile { filename: String },
    /// Create a file, and go on with `Downloads::created`.
    CreateFile { filename: String },
    /// Acknowledge the message, and send the contents of a file.
    Upload { fileid: u64, file: F },
    /// Append to the file that is downloaded under the given name, and acknowledge the message.
    Write { fileid: u64, file_chunk: Vec<u8> },
    /// List the directory, and go on with `listed`.
    ListDir,
    /// Acknowledge the message.
    Acknowledge,
    /// Acknowledge the message, which asks for something that will not be done.
    Refuse,
}

/// The files that are being downloaded.
pub struct Downloads<F> {
    in_progress: HashMap<u64, F>,
}

impl<F> View for Downloads<F> {
    type V = Map<u64, F>;

    closed spec fn view(&self) -> Map<u64, F> {
        self.in_progress@
    }
}

impl<F> Downloads<F> {
    /// No downloads.
    pub fn new() -> (downloads: Self)
        ensures
            downloads@ == Map::<u64, F>::empty(),
    {
        Downloads { in_progress: HashMap::new() }
    }

    /// Decides what to do about a message. `data` is what this peer remembers of the message that
    /// it answers.
    pub fn process(&self, message: Message, data: Option<SendData<F>>) -> (action: Action<F>)
        ensures
            match (message, data) {
                (Message::RequestFile { filename }, None) => action == (Action::<F>::OpenFile {
                    filename,
                }),
                (
                    Message::ConfirmFileSize { filesize },
                    Some(SendData::RequestFile { filename }),
                ) => if filesize > DOWNLOAD_LIMIT {
                    action is Refuse
                } else {
                    action == (Action::<F>::CreateFile { filename })
                },
                (
                    Message::ConfirmDownload { fileid },
                    Some(SendData::ConfirmFileSize { file }),
                ) => action == (Action::Upload { fileid, file }),
                (Message::FileDownload { fileid, file_chunk }, None) => if self@.dom().contains(
                    fileid,
                ) {
                    action == (Action::<F>::Write { fileid, file_chunk })
                } else {
                    action is Refuse
                },
                (Message::ReadDir, None) => action is ListDir,
                _ => action is Acknowledge,
            },
    {
        match (message, data) {
            (Message::RequestFile { filename }, None) => Action::OpenFile { filename },
            (
                Message::ConfirmFileSize { filesize },
                Some(SendData::RequestFile { filename }),
            ) => if filesize > DOWNLOAD_LIMIT {
                Action::Refuse
            } else {
                Action::CreateFile { filename }
            },
            (
                Message::ConfirmDownload { fileid },
                Some(SendData::ConfirmFileSize { file }),
            ) => Action::Upload { fileid, file },
            (Message::FileDownload { fileid, file_chunk }, None) => if self.in_progress.contains_key(
                &fileid,
            ) {
                Action::Write { fileid, file_chunk }
            } else {
                Action::Refuse
            },
            (Message::ReadDir, None) => Action::ListDir,
            _ => Action::Acknowledge,
        }
    }

    /// Goes on after a file has been created, or could not be: the download begins under the name
    /// `fileid`, and the other peer is asked for the contents. `None` is returned if there is
    /// nothing to reply.
    pub fn created(&mut self, file: Option<F>, fileid: u64) -> (reply: Option<
        (SendData<F>, Message),
    >)
        ensures
            match file {
                Some(f) => {
                    &&& final(self)@ == old(self)@.insert(fileid, f)
                    &&& reply == Some(
                        (SendData::<F>::ConfirmDownload, Message::ConfirmDownload { fileid }),
                    )
                },
                None => {
                    &&& final(self)@ == old(self)@
                    &&& reply is None
                },
            },
    {
        match file {
            Some(f) => {
                self.in_progress.insert(fileid, f);
                Some((SendData::ConfirmDownload, Message::ConfirmDownload { fileid }))
            },
            None => None,
        }
    }

    /// The file that is downloaded under the name `fileid`.
    pub fn file(&self, fileid: u64) -> (file: Option<&F>)
        ensures
            match file {
                Some(f) => self@.dom().contains(fileid) && *f == self@[fileid],
                None => !self@.dom().contains(fileid),
            },
    {
        self.in_progress.get(&fileid)
    }
}

/// Goes on after a file has been opened and its size is known, or it could not be: the other peer is
/// told the size. `None` is returned if there is nothing to reply.
pub fn opened<F>(file: Option<(F, u64)>) -> (reply: Option<(SendData<F>, Message)>)
    ensures
        match file {
            Some((file, filesize)) => reply == Some(
                (SendData::ConfirmFileSize { file }, Message::ConfirmFileSize { filesize }),
            ),
            None => reply is None,
        },
{
    match file {
        Some((file, filesize)) => Some(
            (SendData::ConfirmFileSize { file }, Message::ConfirmFileSize { filesize }),
        ),
        None => None,
    }
}

/// An entry of a directory.
#[derive(Debug)]
pub enum DirEntry {
    /// It could not be read.
    Unreadable,
    /// It could be read. Its name is missing if it is not valid text.
    Readable { is_file: bool, filename: Option<String> },
}

/// The names of the files among the first `n` entries.
pub open spec fn files_among(entries: Seq<DirEntry>, n: int) -> Seq<String>
    decreases n,
{
    if n <= 0 {
        Seq::empty()
    } else {
        match entries[n - 1] {
            DirEntry::Readable { is_file: true, filename: Some(name) } => files_among(
                entries,
                n - 1,
            ).push(name),
            _ => files_among(entries, n - 1),
        }
    }
}

/// The names of the files in a directory, or `None` if some entry could not be read.
pub fn list_files(entries: Vec<DirEntry>) -> (filenames: Option<Vec<String>>)
    ensures
        match filenames {
            Some(names) => {
                &&& names@ == files_among(entries@, entries@.len() as int)
                &&& forall|i: int| 0 <= i < entries@.len() ==> entries@[i] !is Unreadable
            },
            None => exists|i: int| 0 <= i < entries@.len() && entries@[i] is Unreadable,
        },
{
    let mut filenames: Vec<String> = Vec::new();
    let ghost all = entries@;
    let mut rest = entries;
    let mut i: usize = 0;
    let total: usize = rest.len();
    while i < total
        invariant
            i <= total,
            all == entries@,
            total == all.len(),
            rest@.len() == total,
            forall|k: int| i <= k < total ==> rest@[k] == all[k],
            forall|k: int| 0 <= k < i ==> all[k] !is Unreadable,
            filenames@ == files_among(all, i as int),
        decreases total - i,
    {
        let mut entry = DirEntry::Unreadable;
        core::mem::swap(&mut entry, &mut rest[i]);
        match entry {
            DirEntry::Unreadable => {
                assert(all[i as int] is Unreadable);
                return None;
            },
            DirEntry::Readable { is_file, filename } => {
                if is_file {
                    if let Some(name) = filename {
                        filenames.push(name);
                    }
                }
            },
        }
        i += 1;
    }
    Some(filenames)
}

/// Goes on after the directory has been listed: the other peer is told the names of all files.
/// `None` is returned if there is nothing to reply.
pub fn listed<F>(entries: Option<Vec<DirEntry>>) -> (reply: Option<(SendData<F>, Message)>)
    ensures
        match entries {
            None => reply is None,
            Some(entries) => if exists|i: int|
                0 <= i < entries@.len() && entries@[i] is Unreadable {
                reply is None
            } else {
                &&& reply matches Some((SendData::DirContents, Message::DirContents { filenames }))
                &&& filenames@ == files_among(entries@, entries@.len() as int)
            },
        },
{
    match entries {
        Some(entries) => match list_files(entries) {
            Some(filenames) => Some((SendData::DirContents, Message::DirContents { filenames })),
            None => None,
        },
        None => None,
    }
}

} // verus!
