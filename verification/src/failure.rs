//! Failures of the outside world, in words.
use vstd::prelude::*;

verus! {

/// What failed.
pub enum Failure {
    /// Starting the programmer.
    Launch,
    /// Feeding commands to the programmer.
    Feed,
    /// Waiting for the programmer to end.
    Wait,
    /// Making the folder for staged files.
    StagingFolder,
    /// Copying a file to the folder for staged files.
    StagingCopy,
    /// Reading the file of that path.
    ReadFile(String),
    /// Writing the file of that path.
    WriteFile(String),
    /// Listing the folder of that path.
    ListFolder(String),
    /// Looking at an entry of a folder.
    FolderEntry,
    /// Reading the text file of that path.
    ReadText(String),
}

impl Failure {
    /// What failed, in words.
    pub open spec fn wording(self) -> Seq<char> {
        match self {
            Failure::Launch => "failed to launch nisprog"@,
            Failure::Feed => "failed to write to nisprog stdin"@,
            Failure::Wait => "failed waiting on nisprog"@,
            Failure::StagingFolder => "staging dir failed"@,
            Failure::StagingCopy => "staging copy failed"@,
            Failure::ReadFile(path) => "failed to read "@ + path@,
            Failure::WriteFile(path) => "failed to write "@ + path@,
            Failure::ListFolder(path) => "cannot list "@ + path@,
            Failure::FolderEntry => "bad dir entry"@,
            Failure::ReadText(path) => "cannot read "@ + path@,
        }
    }

    /// The report on the failure: what failed, and why.
    pub fn message(&self, cause: &str) -> (r: String)
        ensures
            r@ == self.wording() + ": "@ + cause@,
    {
        let mut m: String = match self {
            Failure::Launch => "failed to launch nisprog".to_owned(),
            Failure::Feed => "failed to write to nisprog stdin".to_owned(),
            Failure::Wait => "failed waiting on nisprog".to_owned(),
            Failure::StagingFolder => "staging dir failed".to_owned(),
            Failure::StagingCopy => "staging copy failed".to_owned(),
            Failure::ReadFile(path) => "failed to read ".to_owned().concat(path.as_str()),
            Failure::WriteFile(path) => "failed to write ".to_owned().concat(path.as_str()),
            Failure::ListFolder(path) => "cannot list ".to_owned().concat(path.as_str()),
            Failure::FolderEntry => "bad dir entry".to_owned(),
            Failure::ReadText(path) => "cannot read ".to_owned().concat(path.as_str()),
        };
        m.append(": ");
        m.append(cause);
        m
    }
}

/// Every failure says what failed, and those of a file or folder end with its path.
pub proof fn failures_in_words(path: String)
    ensures
        Failure::Launch.wording() == "failed to launch nisprog"@,
        Failure::Feed.wording() == "failed to write to nisprog stdin"@,
        Failure::Wait.wording() == "failed waiting on nisprog"@,
        Failure::StagingFolder.wording() == "staging dir failed"@,
        Failure::StagingCopy.wording() == "staging copy failed"@,
        Failure::FolderEntry.wording() == "bad dir entry"@,
        Failure::ReadFile(path).wording() == "failed to read "@ + path@,
        Failure::WriteFile(path).wording() == "failed to write "@ + path@,
        Failure::ListFolder(path).wording() == "cannot list "@ + path@,
        Failure::ReadText(path).wording() == "cannot read "@ + path@,
{
}

} // verus!
