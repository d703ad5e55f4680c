//! What can go wrong while an archive is unpacked.

use vstd::prelude::*;
use vstd::string::StringExecFns;

verus! {

/// Why an archive was not unpacked.
#[derive(Debug)]
pub enum UnpackError {
    /// No program that can extract RAR archives is installed.
    NoRarExtractor,
    /// No 7z program is installed.
    NoSevenZip,
    /// The archive needs a password, or another one than was given.
    PasswordProtected,
    /// An entry's name would lead out of the output directory.
    UnsafePath { kind: String, name: String },
    /// Two entries have the same output path.
    DuplicatePath { kind: String, name: String },
    /// An entry is a symbolic link.
    SymbolicLink { kind: String, name: String },
    /// An entry is a hard link.
    HardLink { name: String },
    /// An entry is neither a file nor a directory.
    UnsupportedEntry { name: String },
    /// An output path does not lie below the output directory.
    OutsideRoot,
    /// The output directory is a symbolic link.
    RootIsLink,
    /// A symbolic link stands on an output path.
    CrossesLink,
    /// Something that is no directory stands in the middle of an output path.
    CrossesNonDirectory,
    /// An extractor left a symbolic link behind.
    LinkProduced { path: String },
    /// An extractor left something behind that is neither a file nor a directory.
    UnsupportedProduced { path: String },
}

/// What an `UnpackError` holds.
pub enum UnpackErrorView {
    NoRarExtractor,
    NoSevenZip,
    PasswordProtected,
    UnsafePath { kind: Seq<char>, name: Seq<char> },
    DuplicatePath { kind: Seq<char>, name: Seq<char> },
    SymbolicLink { kind: Seq<char>, name: Seq<char> },
    HardLink { name: Seq<char> },
    UnsupportedEntry { name: Seq<char> },
    OutsideRoot,
    RootIsLink,
    CrossesLink,
    CrossesNonDirectory,
    LinkProduced { path: Seq<char> },
    UnsupportedProduced { path: Seq<char> },
}

impl View for UnpackError {
    type V = UnpackErrorView;

    open spec fn view(&self) -> UnpackErrorView {
        match self {
            UnpackError::NoRarExtractor => UnpackErrorView::NoRarExtractor,
            UnpackError::NoSevenZip => UnpackErrorView::NoSevenZip,
            UnpackError::PasswordProtected => UnpackErrorView::PasswordProtected,
            UnpackError::UnsafePath { kind, name } => UnpackErrorView::UnsafePath {
                kind: kind@,
                name: name@,
            },
            UnpackError::DuplicatePath { kind, name } => UnpackErrorView::DuplicatePath {
                kind: kind@,
                name: name@,
            },
            UnpackError::SymbolicLink { kind, name } => UnpackErrorView::SymbolicLink {
                kind: kind@,
                name: name@,
            },
            UnpackError::HardLink { name } => UnpackErrorView::HardLink { name: name@ },
            UnpackError::UnsupportedEntry { name } => UnpackErrorView::UnsupportedEntry {
                name: name@,
            },
            UnpackError::OutsideRoot => UnpackErrorView::OutsideRoot,
            UnpackError::RootIsLink => UnpackErrorView::RootIsLink,
            UnpackError::CrossesLink => UnpackErrorView::CrossesLink,
            UnpackError::CrossesNonDirectory => UnpackErrorView::CrossesNonDirectory,
            UnpackError::LinkProduced { path } => UnpackErrorView::LinkProduced { path: path@ },
            UnpackError::UnsupportedProduced { path } => UnpackErrorView::UnsupportedProduced {
                path: path@,
            },
        }
    }
}

impl UnpackErrorView {
    /// The error in words.
    pub open spec fn words(self) -> Seq<char> {
        match self {
            UnpackErrorView::NoRarExtractor =>
                "No RAR extractor found (tried unrar, unrar-free, rar, 7z)"@,
            UnpackErrorView::NoSevenZip => "7z/7zz/7za binary not found on PATH"@,
            UnpackErrorView::PasswordProtected => "archive is password-protected"@,
            UnpackErrorView::UnsafePath { kind, name } => kind
                + " archive contains unsafe path `"@ + name + "`"@,
            UnpackErrorView::DuplicatePath { kind, name } => kind
                + " archive contains duplicate output path `"@ + name + "`"@,
            UnpackErrorView::SymbolicLink { kind, name } => kind
                + " archive contains unsupported symbolic link `"@ + name + "`"@,
            UnpackErrorView::HardLink { name } =>
                "TAR archive contains unsupported hard link `"@ + name + "`"@,
            UnpackErrorView::UnsupportedEntry { name } =>
                "TAR archive contains unsupported entry `"@ + name + "`"@,
            UnpackErrorView::OutsideRoot => "archive path is outside extraction directory"@,
            UnpackErrorView::RootIsLink => "archive extraction directory is a symbolic link"@,
            UnpackErrorView::CrossesLink => "archive path crosses a symbolic link"@,
            UnpackErrorView::CrossesNonDirectory => "archive path crosses a non-directory"@,
            UnpackErrorView::LinkProduced { path } =>
                "archive extraction produced a symbolic link `"@ + path + "`"@,
            UnpackErrorView::UnsupportedProduced { path } =>
                "archive extraction produced unsupported path `"@ + path + "`"@,
        }
    }
}

/// `before`, `quoted` and a closing backquote in a row.
fn with_quoted(before: &str, quoted: &str) -> (text: String)
    ensures
        text@ == before@ + quoted@ + "`"@,
{
    let mut text: String = before.to_owned();
    text.append(quoted);
    text.append("`");
    text
}

/// `kind`, `says`, `quoted` and a closing backquote in a row.
fn of_kind(kind: &str, says: &str, quoted: &str) -> (text: String)
    ensures
        text@ == kind@ + says@ + quoted@ + "`"@,
{
    let mut before: String = kind.to_owned();
    before.append(says);
    with_quoted(before.as_str(), quoted)
}

impl UnpackError {
    /// The error in words.
    pub fn message(&self) -> (text: String)
        ensures
            text@ == self@.words(),
    {
        match self {
            UnpackError::NoRarExtractor =>
                "No RAR extractor found (tried unrar, unrar-free, rar, 7z)".to_owned(),
            UnpackError::NoSevenZip => "7z/7zz/7za binary not found on PATH".to_owned(),
            UnpackError::PasswordProtected => "archive is password-protected".to_owned(),
            UnpackError::UnsafePath { kind, name } => of_kind(
                kind.as_str(),
                " archive contains unsafe path `",
                name.as_str(),
            ),
            UnpackError::DuplicatePath { kind, name } => of_kind(
                kind.as_str(),
                " archive contains duplicate output path `",
                name.as_str(),
            ),
            UnpackError::SymbolicLink { kind, name } => of_kind(
                kind.as_str(),
                " archive contains unsupported symbolic link `",
                name.as_str(),
            ),
            UnpackError::HardLink { name } => with_quoted(
                "TAR archive contains unsupported hard link `",
                name.as_str(),
            ),
            UnpackError::UnsupportedEntry { name } => with_quoted(
                "TAR archive contains unsupported entry `",
                name.as_str(),
            ),
            UnpackError::OutsideRoot => "archive path is outside extraction directory".to_owned(),
            UnpackError::RootIsLink => "archive extraction directory is a symbolic link".to_owned(),
            UnpackError::CrossesLink => "archive path crosses a symbolic link".to_owned(),
            UnpackError::CrossesNonDirectory => "archive path crosses a non-directory".to_owned(),
            UnpackError::LinkProduced { path } => with_quoted(
                "archive extraction produced a symbolic link `",
                path.as_str(),
            ),
            UnpackError::UnsupportedProduced { path } => with_quoted(
                "archive extraction produced unsupported path `",
                path.as_str(),
            ),
        }
    }
}

/// What each error says: it tells the kind of the archive and the name or path at
/// fault as they are.
pub proof fn law_errors_tell_what_is_at_fault(kind: Seq<char>, name: Seq<char>)
    ensures
        (UnpackErrorView::UnsafePath { kind, name }).words() == kind
            + " archive contains unsafe path `"@ + name + "`"@,
        (UnpackErrorView::DuplicatePath { kind, name }).words() == kind
            + " archive contains duplicate output path `"@ + name + "`"@,
        (UnpackErrorView::SymbolicLink { kind, name }).words() == kind
            + " archive contains unsupported symbolic link `"@ + name + "`"@,
        (UnpackErrorView::HardLink { name }).words()
            == "TAR archive contains unsupported hard link `"@ + name + "`"@,
        (UnpackErrorView::UnsupportedEntry { name }).words()
            == "TAR archive contains unsupported entry `"@ + name + "`"@,
        (UnpackErrorView::LinkProduced { path: name }).words()
            == "archive extraction produced a symbolic link `"@ + name + "`"@,
        (UnpackErrorView::UnsupportedProduced { path: name }).words()
            == "archive extraction produced unsupported path `"@ + name + "`"@,
        UnpackErrorView::NoRarExtractor.words()
            == "No RAR extractor found (tried unrar, unrar-free, rar, 7z)"@,
        UnpackErrorView::NoSevenZip.words() == "7z/7zz/7za binary not found on PATH"@,
        UnpackErrorView::PasswordProtected.words() == "archive is password-protected"@,
        UnpackErrorView::OutsideRoot.words() == "archive path is outside extraction directory"@,
        UnpackErrorView::RootIsLink.words() == "archive extraction directory is a symbolic link"@,
        UnpackErrorView::CrossesLink.words() == "archive path crosses a symbolic link"@,
        UnpackErrorView::CrossesNonDirectory.words() == "archive path crosses a non-directory"@,
{
}

} // verus!
