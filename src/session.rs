use crate::buffer::frozen_contents;
use crate::codec::{LoggestdData, ProtocolError};
use crate::log_file::{opened_state, write_done, ArchiveMove, LogFile, StorageConfig, StorageError, WritePlan};
use vstd::prelude::*;
use vstd::string::*;

verus! {

/// Why a daemon session ends early.
#[derive(Debug, Clone, Copy, PartialEq, Eq, Structural)]
pub enum SessionError {
    Protocol(ProtocolError),
    Storage(StorageError),
}

/// What the session asks of the file system after an item.
pub enum SessionAction {
    /// Nothing to do.
    Nothing,
    /// Create the first file of the destination at this path.
    CreateFile(String),
    /// Append a frame, then rotate if asked.
    Write(WritePlan),
}

/// What remains when a connection ends: the destination it wrote to, if it named
/// one, and the move that archives its open file.
pub struct SessionEnd {
    pub base_filename: Option<String>,
    pub archive: Option<ArchiveMove>,
}

enum State {
    Initiated,
    FileOpened(LogFile),
}

/// The state of one accepted connection: no file until the header names one, then
/// exactly one log file that takes every data chunk.
pub struct LoggestdSession {
    state: State,
    directory: String,
    config: StorageConfig,
}

impl LoggestdSession {
    /// The directory where the session's file goes.
    pub closed spec fn directory(&self) -> Seq<char> {
        self.directory@
    }

    /// The settings of the session's file.
    pub closed spec fn config(&self) -> StorageConfig {
        self.config
    }

    /// Whether the header has opened a file.
    pub closed spec fn is_opened(&self) -> bool {
        self.state is FileOpened
    }

    /// The open file, when there is one.
    pub closed spec fn file(&self) -> LogFile {
        match self.state {
            State::FileOpened(f) => f,
            State::Initiated => arbitrary(),
        }
    }

    /// The invariant: an open file lies in the session's directory and has the
    /// session's settings.
    pub closed spec fn wf(&self) -> bool {
        &&& self.state matches State::FileOpened(f) ==> {
            &&& f.wf()
            &&& f.directory() == self.directory@
            &&& f.config() == self.config
        }
    }

    /// A session, with no file yet, whose file will go into `directory`.
    pub fn new(directory: &str, config: StorageConfig) -> (r: LoggestdSession)
        ensures
            r.wf(),
            !r.is_opened(),
            r.directory() == directory@,
            r.config() == config,
    {
        LoggestdSession { state: State::Initiated, directory: String::from_str(directory), config }
    }

    /// Takes the next item of the connection. A name opens the session's file, unless
    /// one is open already; data goes to the open file, and is a protocol error while
    /// none is open; an empty chunk is ignored. A protocol error leaves the session
    /// unchanged, and a failed write leaves the file's state as it was.
    pub fn handle(&mut self, item: LoggestdData) -> (r: Result<SessionAction, SessionError>)
        requires
            old(self).wf(),
        ensures
            final(self).wf(),
            final(self).directory() == old(self).directory(),
            final(self).config() == old(self).config(),
            r matches Err(SessionError::Protocol(_)) ==> *final(self) == *old(self),
            r is Err ==> final(self).is_opened() == old(self).is_opened(),
            item matches LoggestdData::FileName(name) ==> {
                &&& old(self).is_opened() ==> r == Err::<SessionAction, SessionError>(
                    SessionError::Protocol(ProtocolError::FileAlreadyOpened),
                )
                &&& !old(self).is_opened() ==> {
                    &&& final(self).is_opened()
                    &&& final(self).file()@ == opened_state()
                    &&& final(self).file().name() == name@
                    &&& r matches Ok(SessionAction::CreateFile(path))
                    &&& path@ == final(self).file().path_of(1)
                }
            },
            item matches LoggestdData::FileData(data) ==> {
                &&& !old(self).is_opened() ==> r == Err::<SessionAction, SessionError>(
                    SessionError::Protocol(ProtocolError::DataBeforeHeader),
                )
                &&& old(self).is_opened() && frozen_contents(data).len() == 0 ==> {
                    &&& r matches Ok(SessionAction::Nothing)
                    &&& *final(self) == *old(self)
                }
                &&& old(self).is_opened() && frozen_contents(data).len() > 0 ==> {
                    &&& final(self).is_opened()
                    &&& (r matches Err(SessionError::Storage(_))) || (r matches Ok(SessionAction::Write(_)))
                    &&& write_done(
                        old(self).file(),
                        final(self).file(),
                        frozen_contents(data),
                        match r {
                            Ok(SessionAction::Write(plan)) => Ok(plan),
                            Err(SessionError::Storage(e)) => Err(e),
                            _ => arbitrary(),
                        },
                    )
                }
            },
    {
        match item {
            LoggestdData::FileName(name) => {
                if let State::FileOpened(_) = self.state {
                    return Err(SessionError::Protocol(ProtocolError::FileAlreadyOpened));
                }
                let file = LogFile::open(self.directory.as_str(), name.as_str(), self.config);
                let path = file.current_filename();
                self.state = State::FileOpened(file);
                Ok(SessionAction::CreateFile(path))
            },
            LoggestdData::FileData(data) => {
                match &mut self.state {
                    State::Initiated => Err(SessionError::Protocol(ProtocolError::DataBeforeHeader)),
                    State::FileOpened(file) => {
                        if data.len() == 0 {
                            return Ok(SessionAction::Nothing);
                        }
                        match file.write(&data) {
                            Ok(plan) => Ok(SessionAction::Write(plan)),
                            Err(e) => Err(SessionError::Storage(e)),
                        }
                    },
                }
            },
        }
    }

    /// Ends the session: the destination that it wrote to and the move that archives
    /// its open file, if it opened one.
    pub fn finish(self) -> (r: SessionEnd)
        requires
            self.wf(),
        ensures
            self.is_opened() ==> {
                &&& (r.base_filename matches Some(b) && b@ == self.file().base())
                &&& (r.archive matches Some(m) && self.file().archives(m, self.file()@.index))
            },
            !self.is_opened() ==> r.base_filename is None && r.archive is None,
    {
        match self.state {
            State::Initiated => SessionEnd { base_filename: None, archive: None },
            State::FileOpened(file) => {
                let base = String::from_str(file.base_filename());
                let archive = file.close();
                SessionEnd { base_filename: Some(base), archive: Some(archive) }
            },
        }
    }
}

} // verus!
